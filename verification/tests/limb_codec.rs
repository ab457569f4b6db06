use circom_witness::{from_array32, to_array32, wire_order, LimbError};
use num_bigint::{BigInt, Sign};
use num_traits::{One, Zero};

fn pow2(bits: u32) -> BigInt {
    BigInt::one() << bits
}

#[test]
fn decode_of_no_limbs_is_zero() {
    assert_eq!(from_array32(vec![]), BigInt::zero());
}

#[test]
fn decode_of_one_limb_is_the_limb() {
    assert_eq!(from_array32(vec![0]), BigInt::zero());
    assert_eq!(from_array32(vec![7]), BigInt::from(7u32));
    assert_eq!(from_array32(vec![0xffff_ffff]), BigInt::from(0xffff_ffffu32));
}

#[test]
fn decode_takes_the_first_limb_as_most_significant() {
    assert_eq!(from_array32(vec![1, 0]), BigInt::from(0x1_0000_0000u64));
    assert_eq!(from_array32(vec![1, 5]), BigInt::from(0x1_0000_0005u64));
    assert_eq!(from_array32(vec![0, 1, 5]), BigInt::from(0x1_0000_0005u64));
    assert_eq!(
        from_array32(vec![0xffff_ffff, 0xffff_ffff]),
        BigInt::from(u64::MAX)
    );
    assert_eq!(from_array32(vec![1, 0, 0]), pow2(64));
    assert_eq!(
        from_array32(vec![2, 3, 4]),
        pow2(65) + BigInt::from(3u32) * pow2(32) + BigInt::from(4u32)
    );
}

#[test]
fn decode_agrees_with_the_digits_of_num_bigint() {
    let limbs = vec![0x1234_5678, 0, 0x9abc_def0, 0xffff_ffff, 1];
    let mut little_endian = limbs.clone();
    little_endian.reverse();
    assert_eq!(
        from_array32(limbs),
        BigInt::from_slice(Sign::Plus, &little_endian)
    );
}

#[test]
fn encode_pads_with_zero_limbs_in_front() {
    assert_eq!(to_array32(&BigInt::from(5u32), 1), Ok(vec![5]));
    assert_eq!(to_array32(&BigInt::from(5u32), 3), Ok(vec![0, 0, 5]));
    assert_eq!(
        to_array32(&BigInt::from(0x1_0000_0005u64), 3),
        Ok(vec![0, 1, 5])
    );
    assert_eq!(
        to_array32(&BigInt::from(u64::MAX), 2),
        Ok(vec![0xffff_ffff, 0xffff_ffff])
    );
}

#[test]
fn encode_of_zero_is_all_zero() {
    assert_eq!(to_array32(&BigInt::zero(), 0), Ok(vec![]));
    assert_eq!(to_array32(&BigInt::zero(), 1), Ok(vec![0]));
    assert_eq!(to_array32(&BigInt::zero(), 8), Ok(vec![0; 8]));
}

#[test]
fn encode_refuses_a_negative_value() {
    assert_eq!(to_array32(&BigInt::from(-1), 1), Err(LimbError::Negative));
    assert_eq!(to_array32(&BigInt::from(-1), 0), Err(LimbError::Negative));
    assert_eq!(to_array32(&-pow2(200), 8), Err(LimbError::Negative));
}

#[test]
fn encode_refuses_a_value_that_needs_more_limbs() {
    assert_eq!(to_array32(&BigInt::one(), 0), Err(LimbError::Overflow));
    assert_eq!(to_array32(&pow2(32), 1), Err(LimbError::Overflow));
    assert_eq!(to_array32(&pow2(64), 2), Err(LimbError::Overflow));
    assert_eq!(to_array32(&pow2(300), 8), Err(LimbError::Overflow));
}

#[test]
fn encode_takes_the_largest_value_of_each_width() {
    let one = BigInt::one();
    assert_eq!(to_array32(&(pow2(32) - &one), 1), Ok(vec![0xffff_ffff]));
    assert_eq!(to_array32(&(pow2(96) - &one), 3), Ok(vec![0xffff_ffff; 3]));
    assert_eq!(to_array32(&pow2(96), 3), Err(LimbError::Overflow));
}

#[test]
fn decode_undoes_encode() {
    let values = vec![
        BigInt::zero(),
        BigInt::one(),
        BigInt::from(0xffff_ffffu32),
        pow2(32),
        pow2(64) - BigInt::one(),
        pow2(100) + BigInt::from(12345u32),
        "21888242871839275222246405745257275088548364400416034343698204186575808495617"
            .parse::<BigInt>()
            .unwrap(),
    ];
    for v in values.iter() {
        for width in 1..12usize {
            match to_array32(v, width) {
                Ok(limbs) => {
                    assert_eq!(limbs.len(), width);
                    assert!(*v < pow2(32 * width as u32));
                    assert_eq!(from_array32(limbs), *v);
                }
                Err(e) => {
                    assert_eq!(e, LimbError::Overflow);
                    assert!(*v >= pow2(32 * width as u32));
                }
            }
        }
    }
}

#[test]
fn encode_undoes_decode() {
    let arrays = vec![
        vec![],
        vec![0],
        vec![0, 0, 0],
        vec![1, 2, 3],
        vec![0, 0xffff_ffff],
        vec![0xdead_beef, 0, 0, 0x42],
    ];
    for limbs in arrays {
        let v = from_array32(limbs.clone());
        assert_eq!(to_array32(&v, limbs.len()), Ok(limbs));
    }
}

#[test]
fn encode_of_the_bn254_prime_has_eight_limbs() {
    let p = "21888242871839275222246405745257275088548364400416034343698204186575808495617"
        .parse::<BigInt>()
        .unwrap();
    assert_eq!(
        to_array32(&p, 8),
        Ok(vec![
            0x3064_4e72,
            0xe131_a029,
            0xb850_45b6,
            0x8181_585d,
            0x2833_e848,
            0x79b9_7091,
            0x43e1_f593,
            0xf000_0001
        ])
    );
    assert_eq!(to_array32(&p, 7), Err(LimbError::Overflow));
}

#[test]
fn wire_order_puts_the_last_limb_first() {
    assert_eq!(wire_order(&vec![]), Vec::<u32>::new());
    assert_eq!(wire_order(&vec![9]), vec![9]);
    assert_eq!(wire_order(&vec![1, 2, 3]), vec![3, 2, 1]);
}

#[test]
fn wire_order_twice_is_the_identity() {
    let limbs = vec![5, 0, 7, 0xffff_ffff];
    assert_eq!(wire_order(&wire_order(&limbs)), limbs);
}
