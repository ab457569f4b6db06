//! The limb codec: big integers as fixed-length arrays of 32-bit words, the
//! most significant word first.

use crate::bignum::{
    big_add, big_clone, big_div, big_from_u64, big_is_negative, big_is_zero, big_mul, big_rem,
    big_to_u32, int_of,
};
use crate::error::LimbError;
use num_bigint::BigInt;
use vstd::arithmetic::power2::*;
use vstd::prelude::*;

verus! {

/// The number of values that one limb can take: `2^32`.
pub const LIMB_RADIX: u64 = 0x1_0000_0000;

/// The least value that `width` limbs cannot hold: `2^(32 * width)`.
pub open spec fn limb_bound(width: nat) -> nat {
    pow2(32 * width)
}

/// The value of a limb array: the first limb is the most significant, and
/// each further limb shifts what came before by one limb. The empty array
/// is zero.
pub open spec fn decode_limbs(limbs: Seq<u32>) -> nat
    decreases limbs.len(),
{
    if limbs.len() == 0 {
        0
    } else {
        decode_limbs(limbs.drop_last()) * 0x1_0000_0000 + limbs.last() as nat
    }
}

/// The limb array of `width` limbs for `v`: the last limb is `v` modulo
/// `2^32`, and the limbs before it are those of `v` divided by `2^32`. Where
/// `v` is `limb_bound(width)` or more, the digits above the first limb are
/// lost.
pub open spec fn encode_limbs(v: nat, width: nat) -> Seq<u32>
    decreases width,
{
    if width == 0 {
        Seq::empty()
    } else {
        encode_limbs(v / 0x1_0000_0000, (width - 1) as nat).push((v % 0x1_0000_0000) as u32)
    }
}

/// One more limb multiplies the bound by `2^32`.
pub proof fn lemma_limb_bound_step(width: nat)
    ensures
        limb_bound(0) == 1,
        limb_bound(width + 1) == limb_bound(width) * 0x1_0000_0000,
        limb_bound(width) >= 1,
{
    lemma2_to64();
    lemma_pow2_adds(32 * width, 32);
    lemma_pow2_pos(32 * width);
    assert(32 * (width + 1) == 32 * width + 32);
}

/// The bound grows with the width.
pub proof fn lemma_limb_bound_monotonic(a: nat, b: nat)
    requires
        a <= b,
    ensures
        limb_bound(a) <= limb_bound(b),
{
    if a < b {
        lemma_pow2_strictly_increases(32 * a, 32 * b);
    }
}

/// An encoding has exactly the width asked for.
pub proof fn lemma_encode_len(v: nat, width: nat)
    ensures
        encode_limbs(v, width).len() == width,
    decreases width,
{
    if width > 0 {
        lemma_encode_len(v / 0x1_0000_0000, (width - 1) as nat);
    }
}

/// Zero encodes as zeros.
pub proof fn lemma_encode_zero(width: nat)
    ensures
        encode_limbs(0, width) == Seq::new(width, |i: int| 0u32),
    decreases width,
{
    if width > 0 {
        lemma_encode_zero((width - 1) as nat);
        assert(0nat / 0x1_0000_0000 == 0);
        assert(0nat % 0x1_0000_0000 == 0);
    }
    assert(encode_limbs(0, width) =~= Seq::new(width, |i: int| 0u32));
}

/// A limb array holds a value below the bound of its length.
pub proof fn lemma_decode_bound(limbs: Seq<u32>)
    ensures
        decode_limbs(limbs) < limb_bound(limbs.len()),
    decreases limbs.len(),
{
    if limbs.len() == 0 {
        lemma_limb_bound_step(0);
    } else {
        let head = limbs.drop_last();
        lemma_decode_bound(head);
        lemma_limb_bound_step(head.len());
        let d = decode_limbs(head);
        let b = limb_bound(head.len());
        assert(d * 0x1_0000_0000 + limbs.last() < b * 0x1_0000_0000) by {
            assert(d + 1 <= b);
            assert((d + 1) * 0x1_0000_0000 <= b * 0x1_0000_0000) by (nonlinear_arith)
                requires
                    d + 1 <= b,
            ;
        }
        assert(limbs.len() == head.len() + 1);
    }
}

/// Decoding undoes encoding: for every width and every value below the
/// bound of that width, the value of the encoding is the value encoded.
pub proof fn lemma_decode_encode(v: nat, width: nat)
    requires
        v < limb_bound(width),
    ensures
        decode_limbs(encode_limbs(v, width)) == v,
    decreases width,
{
    lemma_limb_bound_step(0);
    if width > 0 {
        let w = (width - 1) as nat;
        let q = v / 0x1_0000_0000;
        lemma_limb_bound_step(w);
        assert(q < limb_bound(w)) by {
            if q >= limb_bound(w) {
                assert(q * 0x1_0000_0000 >= limb_bound(w) * 0x1_0000_0000) by (nonlinear_arith)
                    requires
                        q >= limb_bound(w),
                ;
            }
        }
        lemma_decode_encode(q, w);
        let e = encode_limbs(v, width);
        assert(e.drop_last() =~= encode_limbs(q, w));
        assert(e.last() == (v % 0x1_0000_0000) as u32);
    }
}

/// Encoding undoes decoding: a limb array is the encoding, at its own
/// length, of the value it holds. So two arrays of one length that hold the
/// same value are the same array.
pub proof fn lemma_encode_decode(limbs: Seq<u32>)
    ensures
        encode_limbs(decode_limbs(limbs), limbs.len()) == limbs,
    decreases limbs.len(),
{
    if limbs.len() > 0 {
        let head = limbs.drop_last();
        lemma_encode_decode(head);
        let v = decode_limbs(limbs);
        let d = decode_limbs(head);
        assert(v == d * 0x1_0000_0000 + limbs.last());
        assert(v / 0x1_0000_0000 == d && v % 0x1_0000_0000 == limbs.last()) by {
            vstd::arithmetic::div_mod::lemma_fundamental_div_mod_converse(
                v as int,
                0x1_0000_0000,
                d as int,
                limbs.last() as int,
            );
        }
        assert(encode_limbs(v, limbs.len()) =~= encode_limbs(d, head.len()).push(limbs.last()));
        assert(head.push(limbs.last()) =~= limbs);
    } else {
        assert(encode_limbs(decode_limbs(limbs), limbs.len()) =~= limbs);
    }
}

/// The transfer region holds a value with its least significant limb at
/// word 0: word `j` of the region is limb `n - 1 - j` of an array of `n`
/// limbs. The same reversal leads from limbs to words and back.
pub open spec fn wire_words(limbs: Seq<u32>) -> Seq<u32> {
    Seq::new(limbs.len(), |j: int| limbs[limbs.len() - 1 - j])
}

/// Reversing twice gives the array back.
pub proof fn lemma_wire_words_involution(limbs: Seq<u32>)
    ensures
        wire_words(wire_words(limbs)) == limbs,
{
    assert(wire_words(wire_words(limbs)) =~= limbs);
}

/// Brings a limb array into the word order of the transfer region, or the
/// words of the region into limb order.
pub fn wire_order(limbs: &Vec<u32>) -> (words: Vec<u32>)
    ensures
        words@ == wire_words(limbs@),
{
    let n = limbs.len();
    let mut words: Vec<u32> = Vec::new();
    let mut j: usize = 0;
    while j < n
        invariant
            n == limbs.len(),
            j <= n,
            words.len() == j,
            forall|k: int| 0 <= k < j ==> words@[k] == limbs@[n - 1 - k],
        decreases n - j,
    {
        words.push(limbs[n - 1 - j]);
        j += 1;
    }
    assert(words@ =~= wire_words(limbs@));
    words
}

/// Decodes a limb array, most significant limb first, into the big integer
/// it stands for. No limbs give zero.
pub fn from_array32(arr: Vec<u32>) -> (res: BigInt)
    ensures
        int_of(&res) == decode_limbs(arr@),
{
    let mut res = big_from_u64(0);
    let radix = big_from_u64(LIMB_RADIX);
    let mut i: usize = 0;
    while i < arr.len()
        invariant
            i <= arr.len(),
            int_of(&radix) == 0x1_0000_0000,
            int_of(&res) == decode_limbs(arr@.take(i as int)),
        decreases arr.len() - i,
    {
        let val = big_from_u64(arr[i] as u64);
        let shifted = big_mul(&res, &radix);
        res = big_add(&shifted, &val);
        proof {
            let next = arr@.take(i + 1);
            assert(next.drop_last() =~= arr@.take(i as int));
            assert(next.last() == arr@[i as int]);
        }
        i += 1;
    }
    proof {
        assert(arr@.take(arr.len() as int) =~= arr@);
    }
    res
}

/// Encodes a big integer as `size` limbs, most significant limb first.
///
/// Succeeds exactly on the values from zero up to, and not including,
/// `2^(32 * size)`. A negative value and a value that needs more limbs are
/// each refused with an error of their own; nothing is ever truncated.
pub fn to_array32(s: &BigInt, size: usize) -> (r: Result<Vec<u32>, LimbError>)
    ensures
        match r {
            Ok(limbs) => 0 <= int_of(s) < limb_bound(size as nat) && limbs@ == encode_limbs(
                int_of(s) as nat,
                size as nat,
            ),
            Err(LimbError::Negative) => int_of(s) < 0,
            Err(LimbError::Overflow) => int_of(s) >= limb_bound(size as nat),
        },
{
    if big_is_negative(s) {
        return Err(LimbError::Negative);
    }
    let ghost v = int_of(s) as nat;
    let mut res: Vec<u32> = vec![0u32; size];
    let mut rem = big_clone(s);
    let radix = big_from_u64(LIMB_RADIX);
    let mut c: usize = size;
    proof {
        lemma_limb_bound_step(0);
        assert(res@.subrange(c as int, size as int) =~= Seq::<u32>::empty());
        assert(encode_limbs(v, size as nat) =~= encode_limbs(v, size as nat) + Seq::<u32>::empty());
    }
    while !big_is_zero(&rem)
        invariant
            v == int_of(s),
            c <= size,
            res.len() == size,
            int_of(&radix) == 0x1_0000_0000,
            int_of(&rem) >= 0,
            forall|i: int| 0 <= i < c ==> res@[i] == 0,
            encode_limbs(v, size as nat) == encode_limbs(int_of(&rem) as nat, c as nat)
                + res@.subrange(c as int, size as int),
            int_of(&rem) * limb_bound((size - c) as nat) <= v,
            v < (int_of(&rem) + 1) * limb_bound((size - c) as nat),
        decreases c,
    {
        if c == 0 {
            proof {
                let m = int_of(&rem);
                let b = limb_bound(size as nat) as int;
                assert(b <= m * b) by (nonlinear_arith)
                    requires
                        m >= 1,
                        b >= 0,
                ;
            }
            return Err(LimbError::Overflow);
        }
        let ghost old_rem = int_of(&rem) as nat;
        let ghost old_res = res@;
        let ghost k = (size - c) as nat;
        let digit = big_rem(&rem, &radix);
        let d = big_to_u32(&digit).unwrap();
        c -= 1;
        res.set(c, d);
        rem = big_div(&rem, &radix);
        proof {
            let q = old_rem / 0x1_0000_0000;
            let b = limb_bound(k);
            lemma_limb_bound_step(k);
            assert(int_of(&rem) == q);
            assert(d == old_rem % 0x1_0000_0000);
            assert(encode_limbs(old_rem, (c + 1) as nat) == encode_limbs(q, c as nat).push(d));
            assert(res@.subrange(c as int, size as int) =~= seq![d] + old_res.subrange(
                c + 1,
                size as int,
            ));
            assert(encode_limbs(q, c as nat).push(d) + old_res.subrange(c + 1, size as int)
                =~= encode_limbs(q, c as nat) + (seq![d] + old_res.subrange(c + 1, size as int)));
            assert(q * (b * 0x1_0000_0000) <= old_rem * b) by (nonlinear_arith)
                requires
                    q * 0x1_0000_0000 <= old_rem,
                    b >= 0,
            ;
            assert((old_rem + 1) * b <= (q + 1) * (b * 0x1_0000_0000)) by (nonlinear_arith)
                requires
                    old_rem + 1 <= (q + 1) * 0x1_0000_0000,
                    b >= 0,
            ;
            assert((size - c) as nat == k + 1);
        }
    }
    proof {
        let k = (size - c) as nat;
        lemma_limb_bound_monotonic(k, size as nat);
        assert(v < limb_bound(k)) by {
            assert((int_of(&rem) + 1) * limb_bound(k) == limb_bound(k)) by (nonlinear_arith)
                requires
                    int_of(&rem) == 0,
            ;
        }
        lemma_encode_zero(c as nat);
        lemma_encode_len(v, size as nat);
        assert(res@ =~= encode_limbs(0, c as nat) + res@.subrange(c as int, size as int));
    }
    Ok(res)
}

} // verus!
