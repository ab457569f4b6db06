use ark_ff::PrimeField;
use circom_witness::{field_representative, field_width_64, normalize, normalize_witness};
use num_bigint::{BigInt, BigUint};
use num_traits::{One, Zero};

fn big(v: i64) -> BigInt {
    BigInt::from(v)
}

#[test]
fn canonical_value_is_unchanged() {
    let p = big(101);
    for w in 0..101 {
        assert_eq!(normalize(&big(w), &p), big(w));
        assert_eq!(field_representative(&big(w), &p), Some(big(w)));
    }
}

#[test]
fn negative_value_is_counted_down_from_the_prime() {
    let p = big(101);
    assert_eq!(normalize(&big(-5), &p), big(96));
    assert_eq!(normalize(&big(-1), &p), big(100));
    assert_eq!(normalize(&big(-100), &p), big(1));
    assert_eq!(normalize(&big(-101), &p), big(0));
}

#[test]
fn value_that_the_guest_made_canonical_stays() {
    let p = big(101);
    let raw = big(96);
    let once = normalize(&raw, &p);
    assert_eq!(once, big(96));
    assert_eq!(normalize(&once, &p), big(96));
    assert_eq!(normalize(&big(-5), &p), once);
}

#[test]
fn normalizing_twice_is_normalizing_once() {
    let p = big(101);
    for w in -101..101 {
        let once = normalize(&big(w), &p);
        assert_eq!(normalize(&once, &p), once);
    }
}

#[test]
fn value_at_or_above_the_prime_passes_through_and_is_not_canonical() {
    let p = big(101);
    assert_eq!(normalize(&big(101), &p), big(101));
    assert_eq!(normalize(&big(1000), &p), big(1000));
    assert_eq!(field_representative(&big(101), &p), None);
    assert_eq!(field_representative(&big(1000), &p), None);
}

#[test]
fn value_below_minus_the_prime_is_not_canonical() {
    let p = big(101);
    assert_eq!(normalize(&big(-102), &p), big(-1));
    assert_eq!(field_representative(&big(-102), &p), None);
    assert_eq!(field_representative(&big(-101), &p), Some(big(0)));
    assert_eq!(field_representative(&big(-5), &p), Some(big(96)));
}

#[test]
fn whole_witness_is_normalized_value_by_value() {
    let p = big(101);
    let witness = vec![big(1), big(-5), big(96), big(0), big(-101)];
    assert_eq!(
        normalize_witness(&witness, &p),
        vec![big(1), big(96), big(96), big(0), big(0)]
    );
    assert_eq!(normalize_witness(&vec![], &p), Vec::<BigInt>::new());
}

#[test]
fn width_in_64_bit_limbs_is_the_bit_length_rounded_up() {
    assert_eq!(field_width_64(&BigInt::zero()), 0);
    assert_eq!(field_width_64(&BigInt::one()), 1);
    assert_eq!(field_width_64(&big(101)), 1);
    assert_eq!(field_width_64(&BigInt::from(u64::MAX)), 1);
    assert_eq!(field_width_64(&(BigInt::one() << 64u32)), 2);
    let below: BigInt = (BigInt::one() << 128u32) - BigInt::one();
    assert_eq!(field_width_64(&below), 2);
    assert_eq!(field_width_64(&(BigInt::one() << 128u32)), 3);
    let negative: BigInt = -(BigInt::one() << 64u32);
    assert_eq!(field_width_64(&negative), 2);
}

#[test]
fn bn254_scalar_field_needs_four_limbs() {
    let modulus: BigUint = ark_bn254::Fr::MODULUS.into();
    assert_eq!(field_width_64(&BigInt::from(modulus)), 4);
}

#[test]
fn representative_builds_the_field_element() {
    let modulus: BigUint = ark_bn254::Fr::MODULUS.into();
    let p = BigInt::from(modulus);
    let minus_five = field_representative(&big(-5), &p).unwrap();
    assert_eq!(minus_five, &p - big(5));
    let element = ark_bn254::Fr::from(minus_five.to_biguint().unwrap());
    assert_eq!(element, -ark_bn254::Fr::from(5u64));
    let eight = field_representative(&big(8), &p).unwrap();
    assert_eq!(
        ark_bn254::Fr::from(eight.to_biguint().unwrap()),
        ark_bn254::Fr::from(8u64)
    );
    assert_eq!(field_representative(&p, &p), None);
}
