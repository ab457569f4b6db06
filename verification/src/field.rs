//! Field normalization: from a raw witness value, which may carry a sign,
//! to the representative in `[0, p)` that a field element is built from.

use crate::bignum::{big_add, big_bits, big_clone, big_is_negative, big_sub, bit_length, int_of};
use num_bigint::BigInt;
use vstd::arithmetic::power2::{lemma_pow2_pos, lemma_pow2_unfold, pow2};
use vstd::math::abs;
use vstd::prelude::*;

verus! {

/// The representative of `w` under the prime `p`: a negative `w` stands for
/// `p - |w|`, any other `w` for itself.
pub open spec fn canonical_representative(w: int, p: int) -> int {
    if w < 0 {
        p - abs(w)
    } else {
        w
    }
}

/// Whether `r` is a canonical field value under `p`: at least zero and
/// below `p`.
pub open spec fn is_canonical(r: int, p: int) -> bool {
    0 <= r < p
}

/// The number of 64-bit limbs that hold `n`: its bit length divided by 64,
/// rounded up.
pub open spec fn limbs64(n: nat) -> nat {
    (bit_length(n) + 63) / 64
}

/// Normalizing a canonical value gives the value back: on `[0, p)`
/// normalization is the identity, and so applying it twice is the same as
/// applying it once.
pub proof fn lemma_canonical_unchanged(w: int, p: int)
    requires
        0 <= w < p,
    ensures
        canonical_representative(w, p) == w,
        is_canonical(canonical_representative(w, p), p),
        canonical_representative(canonical_representative(w, p), p) == canonical_representative(
            w,
            p,
        ),
{
}

/// From `-p` up to, and not including, `p`, normalization lands in `[0, p)`.
/// Outside of that range it does not.
pub proof fn lemma_canonical_range(w: int, p: int)
    ensures
        is_canonical(canonical_representative(w, p), p) <==> -p <= w < p,
{
}

/// A value below `2^k` has at most `k` binary digits.
pub proof fn lemma_bit_length_bound(n: nat, k: nat)
    requires
        n < pow2(k),
    ensures
        bit_length(n) <= k,
    decreases k,
{
    if n > 0 {
        if k == 0 {
            vstd::arithmetic::power2::lemma2_to64();
        } else {
            lemma_pow2_unfold(k);
            lemma_pow2_pos((k - 1) as nat);
            lemma_bit_length_bound(n / 2, (k - 1) as nat);
        }
    }
}

/// Maps a raw witness value onto its representative under the prime `p`: a
/// negative value to `p - |w|`, any other value to itself.
pub fn normalize(w: &BigInt, p: &BigInt) -> (r: BigInt)
    ensures
        int_of(&r) == canonical_representative(int_of(w), int_of(p)),
{
    if big_is_negative(w) {
        big_add(p, w)
    } else {
        big_clone(w)
    }
}

/// The value from which the field element for `w` is built: the normalized
/// `w`, if it is canonical under `p`, and `None` if it is not.
pub fn field_representative(w: &BigInt, p: &BigInt) -> (r: Option<BigInt>)
    ensures
        match r {
            Some(rep) => int_of(&rep) == canonical_representative(int_of(w), int_of(p))
                && is_canonical(int_of(&rep), int_of(p)),
            None => !is_canonical(canonical_representative(int_of(w), int_of(p)), int_of(p)),
        },
{
    let rep = normalize(w, p);
    if big_is_negative(&rep) {
        return None;
    }
    let excess = big_sub(&rep, p);
    if big_is_negative(&excess) {
        Some(rep)
    } else {
        None
    }
}

/// Normalizes a whole witness under the prime `p`, value by value.
pub fn normalize_witness(witness: &Vec<BigInt>, p: &BigInt) -> (r: Vec<BigInt>)
    ensures
        r@.len() == witness@.len(),
        forall|i: int|
            0 <= i < witness@.len() ==> int_of(&#[trigger] r@[i]) == canonical_representative(
                int_of(&witness@[i]),
                int_of(p),
            ),
{
    let mut r: Vec<BigInt> = Vec::new();
    let mut i: usize = 0;
    while i < witness.len()
        invariant
            i <= witness.len(),
            r@.len() == i,
            forall|j: int|
                0 <= j < i ==> int_of(&#[trigger] r@[j]) == canonical_representative(
                    int_of(&witness@[j]),
                    int_of(p),
                ),
        decreases witness.len() - i,
    {
        r.push(normalize(&witness[i], p));
        i += 1;
    }
    r
}

/// The number of 64-bit limbs that the prime needs.
pub fn field_width_64(prime: &BigInt) -> (n64: u64)
    ensures
        n64 == limbs64(abs(int_of(prime))),
{
    let bits = big_bits(prime);
    if bits == 0 {
        0
    } else {
        (bits - 1) / 64 + 1
    }
}

} // verus!
