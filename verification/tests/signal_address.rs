use circom_witness::address::fnv1a_hash;
use std::hash::Hasher;

fn reference(bytes: &[u8]) -> u64 {
    let mut hasher = fnv::FnvHasher::default();
    hasher.write(bytes);
    hasher.finish()
}

#[test]
fn hash_of_nothing_is_the_offset_basis() {
    assert_eq!(fnv1a_hash(&[]), 0xcbf2_9ce4_8422_2325);
    assert_eq!(circom_witness::fnv(""), (0xcbf2_9ce4, 0x8422_2325));
}

#[test]
fn hash_of_known_strings() {
    assert_eq!(fnv1a_hash(b"a"), 0xaf63_dc4c_8601_ec8c);
    assert_eq!(fnv1a_hash(b"foobar"), 0x8594_4171_f739_67e8);
    assert_eq!(circom_witness::fnv("a"), (0xaf63_dc4c, 0x8601_ec8c));
    assert_eq!(circom_witness::fnv("foobar"), (0x8594_4171, 0xf739_67e8));
}

#[test]
fn hash_depends_on_the_order_of_the_bytes() {
    assert_ne!(fnv1a_hash(b"ab"), fnv1a_hash(b"ba"));
}

#[test]
fn hash_agrees_with_the_fnv_crate() {
    let names = [
        "",
        "a",
        "b",
        "in",
        "out",
        "main.a",
        "main.in[3]",
        "signal with spaces",
        "Ünïcödé-naïve-☃",
        "a much longer signal name that runs over several machine words, to be sure",
    ];
    for name in names.iter() {
        let h = reference(name.as_bytes());
        assert_eq!(fnv1a_hash(name.as_bytes()), h);
        assert_eq!(
            circom_witness::fnv(name),
            ((h >> 32) as u32, h as u32)
        );
    }
}

#[test]
fn hash_agrees_with_the_fnv_crate_on_arbitrary_bytes() {
    let mut bytes: Vec<u8> = Vec::new();
    for i in 0..600u32 {
        bytes.push((i.wrapping_mul(2654435761) >> 13) as u8);
        assert_eq!(fnv1a_hash(&bytes), reference(&bytes));
    }
}

#[test]
fn address_is_the_same_in_every_call() {
    let first = circom_witness::fnv("main.out");
    for _ in 0..10 {
        assert_eq!(circom_witness::fnv("main.out"), first);
    }
    let owned = String::from("main.") + "out";
    assert_eq!(circom_witness::fnv(&owned), first);
}

#[test]
fn address_is_the_hash_split_in_two() {
    let (msb, lsb) = circom_witness::fnv("in");
    let h = fnv1a_hash(b"in");
    assert_eq!(((msb as u64) << 32) | lsb as u64, h);
}
