//! Signal addressing: a signal's name, hashed with 64-bit FNV-1a, is the
//! address under which the guest files the signal's values.

use vstd::prelude::*;
use vstd::utf8::encode_utf8;

verus! {

/// The state that FNV-1a starts from.
pub const FNV_OFFSET_BASIS: u64 = 0xcbf2_9ce4_8422_2325;

/// The multiplier of 64-bit FNV.
pub const FNV_PRIME: u64 = 0x100_0000_01b3;

/// One round of FNV-1a: the byte is folded into the low bits of the state,
/// and the state is then multiplied by the FNV prime, modulo `2^64`.
pub open spec fn fnv1a_step(h: u64, b: u8) -> u64 {
    (((h ^ (b as u64)) as nat * 0x100_0000_01b3nat) % 0x1_0000_0000_0000_0000nat) as u64
}

/// The 64-bit FNV-1a hash of a byte string: one round per byte, in order,
/// from the offset basis.
pub open spec fn fnv1a(bytes: Seq<u8>) -> u64
    decreases bytes.len(),
{
    if bytes.len() == 0 {
        0xcbf2_9ce4_8422_2325
    } else {
        fnv1a_step(fnv1a(bytes.drop_last()), bytes.last())
    }
}

/// The address of the signal called `name`: the high and the low half of
/// the FNV-1a hash of the name's UTF-8 bytes.
pub open spec fn signal_address(name: Seq<char>) -> (u32, u32) {
    let h = fnv1a(encode_utf8(name));
    ((h / 0x1_0000_0000) as u32, (h % 0x1_0000_0000) as u32)
}

/// Hashes a byte string with 64-bit FNV-1a.
pub fn fnv1a_hash(bytes: &[u8]) -> (h: u64)
    ensures
        h == fnv1a(bytes@),
{
    let mut hash: u64 = FNV_OFFSET_BASIS;
    let mut i: usize = 0;
    while i < bytes.len()
        invariant
            i <= bytes.len(),
            hash == fnv1a(bytes@.take(i as int)),
        decreases bytes.len() - i,
    {
        let mixed: u64 = hash ^ (bytes[i] as u64);
        hash = mixed.wrapping_mul(FNV_PRIME);
        proof {
            let next = bytes@.take(i + 1);
            assert(next.drop_last() =~= bytes@.take(i as int));
            assert(next.last() == bytes@[i as int]);
        }
        i += 1;
    }
    proof {
        assert(bytes@.take(bytes.len() as int) =~= bytes@);
    }
    hash
}

/// The address of a signal: the hash of its name, as the pair of the high
/// 32 bits and the low 32 bits.
///
/// The result depends on the name's bytes and on nothing else, so one name
/// has one address, in every call and in every run. Names whose hashes
/// coincide share an address; telling them apart is left to the caller.
pub fn fnv(inp: &str) -> (r: (u32, u32))
    ensures
        r == signal_address(inp@),
{
    let h: u64 = fnv1a_hash(inp.as_bytes());
    let hi: u64 = h >> 32;
    let lo: u64 = h & 0xffff_ffff;
    assert(hi == h / 0x1_0000_0000 && hi <= 0xffff_ffff) by (bit_vector)
        requires
            hi == h >> 32,
    ;
    assert(lo == h % 0x1_0000_0000 && lo <= 0xffff_ffff) by (bit_vector)
        requires
            lo == h & 0xffff_ffff,
    ;
    (hi as u32, lo as u32)
}

} // verus!
