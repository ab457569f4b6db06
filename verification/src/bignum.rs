//! The arbitrary-precision integers of `num_bigint`, as far as the witness
//! exchange needs them.
//!
//! A `BigInt` is opaque to the verifier. What is known of it is the integer
//! it holds, [`int_of`], and each operation below is a call into
//! `num_bigint` whose effect on that integer is taken on trust.

use num::ToPrimitive;
use num_bigint::BigInt;
use num_traits::Signed;
use num_traits::Zero;
use vstd::prelude::*;

verus! {

/// `num_bigint::BigInt`, a signed integer of any size. Nothing of its
/// fields is known here.
#[verifier::external_type_specification]
#[verifier::external_body]
pub struct ExBigInt(num_bigint::BigInt);

/// The integer that a `BigInt` holds.
pub uninterp spec fn int_of(b: &BigInt) -> int;

/// The number of binary digits of `n`: zero for zero, and otherwise the `k`
/// with `2^(k-1) <= n < 2^k`.
pub open spec fn bit_length(n: nat) -> nat
    decreases n,
{
    if n == 0 {
        0
    } else {
        1 + bit_length(n / 2)
    }
}

/// `BigInt::from(u64)`: the big integer with the value of `v`.
#[verifier::external_body]
pub(crate) fn big_from_u64(v: u64) -> (r: BigInt)
    ensures
        int_of(&r) == v,
{
    BigInt::from(v)
}

/// `<BigInt as Clone>::clone`: a second big integer with the same value.
#[verifier::external_body]
pub(crate) fn big_clone(a: &BigInt) -> (r: BigInt)
    ensures
        int_of(&r) == int_of(a),
{
    a.clone()
}

/// `&BigInt + &BigInt`: the exact sum.
#[verifier::external_body]
pub(crate) fn big_add(a: &BigInt, b: &BigInt) -> (r: BigInt)
    ensures
        int_of(&r) == int_of(a) + int_of(b),
{
    a + b
}

/// `&BigInt - &BigInt`: the exact difference, which may be negative.
#[verifier::external_body]
pub(crate) fn big_sub(a: &BigInt, b: &BigInt) -> (r: BigInt)
    ensures
        int_of(&r) == int_of(a) - int_of(b),
{
    a - b
}

/// `&BigInt * &BigInt`: the exact product.
#[verifier::external_body]
pub(crate) fn big_mul(a: &BigInt, b: &BigInt) -> (r: BigInt)
    ensures
        int_of(&r) == int_of(a) * int_of(b),
{
    a * b
}

/// `&BigInt / &BigInt`, which rounds toward zero and panics on a zero
/// divisor. Only a non-negative dividend and a positive divisor are
/// admitted, where the quotient is the floor of the exact one.
#[verifier::external_body]
pub(crate) fn big_div(a: &BigInt, b: &BigInt) -> (r: BigInt)
    requires
        int_of(a) >= 0,
        int_of(b) > 0,
    ensures
        int_of(&r) == int_of(a) / int_of(b),
{
    a / b
}

/// `&BigInt % &BigInt`, whose result has the sign of the dividend and which
/// panics on a zero divisor. Only a non-negative dividend and a positive
/// divisor are admitted, where the remainder lies in `[0, b)`.
#[verifier::external_body]
pub(crate) fn big_rem(a: &BigInt, b: &BigInt) -> (r: BigInt)
    requires
        int_of(a) >= 0,
        int_of(b) > 0,
    ensures
        int_of(&r) == int_of(a) % int_of(b),
{
    a % b
}

/// `Zero::is_zero` of `BigInt`: whether the value is zero.
#[verifier::external_body]
pub(crate) fn big_is_zero(a: &BigInt) -> (r: bool)
    ensures
        r == (int_of(a) == 0),
{
    a.is_zero()
}

/// `Signed::is_negative` of `BigInt`: whether the value is below zero.
#[verifier::external_body]
pub(crate) fn big_is_negative(a: &BigInt) -> (r: bool)
    ensures
        r == (int_of(a) < 0),
{
    a.is_negative()
}

/// `ToPrimitive::to_u32` of `BigInt`: the value as a `u32` where it is one,
/// and `None` where it is negative or too large.
#[verifier::external_body]
pub(crate) fn big_to_u32(a: &BigInt) -> (r: Option<u32>)
    ensures
        r == if 0 <= int_of(a) <= u32::MAX {
            Some(int_of(a) as u32)
        } else {
            None
        },
{
    a.to_u32()
}

/// `BigInt::bits`: the fewest bits that express the magnitude, the sign not
/// counted; zero for zero.
#[verifier::external_body]
pub(crate) fn big_bits(a: &BigInt) -> (r: u64)
    ensures
        r == bit_length(vstd::math::abs(int_of(a))),
{
    a.bits()
}

} // verus!
