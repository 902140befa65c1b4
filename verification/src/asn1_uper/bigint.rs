//! Trusted bridge to the arbitrary-precision integers of `num_bigint`.
//!
//! The codec's `Integer` type falls back to `num_bigint::BigInt` whenever a
//! value leaves the 128-bit signed range. Verus cannot look inside `BigInt`,
//! so this module declares the type, names its mathematical value, and wraps
//! every operation the crate relies on with a contract over that value.

use vstd::prelude::*;
use vstd::arithmetic::power2::pow2;

verus! {

#[verifier::external_type_specification]
#[verifier::external_body]
pub struct ExBigInt(num_bigint::BigInt);

/// The mathematical value of an arbitrary-precision integer.
pub uninterp spec fn bigint_value(b: num_bigint::BigInt) -> int;

/// Relies on `BigInt: From<i128>`: the result holds exactly the given value.
#[verifier::external_body]
pub(crate) fn bigint_from_i128(v: i128) -> (r: num_bigint::BigInt)
    ensures
        bigint_value(r) == v,
{
    num_bigint::BigInt::from(v)
}

/// Relies on `Clone for BigInt`: the copy has the same value.
#[verifier::external_body]
pub(crate) fn bigint_clone(a: &num_bigint::BigInt) -> (r: num_bigint::BigInt)
    ensures
        bigint_value(r) == bigint_value(*a),
{
    a.clone()
}

/// Relies on `Add for &BigInt`: exact integer addition.
#[verifier::external_body]
pub(crate) fn bigint_add(a: &num_bigint::BigInt, b: &num_bigint::BigInt) -> (r:
    num_bigint::BigInt)
    ensures
        bigint_value(r) == bigint_value(*a) + bigint_value(*b),
{
    a + b
}

/// Relies on `Sub for &BigInt`: exact integer subtraction.
#[verifier::external_body]
pub(crate) fn bigint_sub(a: &num_bigint::BigInt, b: &num_bigint::BigInt) -> (r:
    num_bigint::BigInt)
    ensures
        bigint_value(r) == bigint_value(*a) - bigint_value(*b),
{
    a - b
}

/// Relies on `Mul for &BigInt`: exact integer multiplication.
#[verifier::external_body]
pub(crate) fn bigint_mul(a: &num_bigint::BigInt, b: &num_bigint::BigInt) -> (r:
    num_bigint::BigInt)
    ensures
        bigint_value(r) == bigint_value(*a) * bigint_value(*b),
{
    a * b
}

/// Relies on `Neg for &BigInt`: exact integer negation.
#[verifier::external_body]
pub(crate) fn bigint_neg(a: &num_bigint::BigInt) -> (r: num_bigint::BigInt)
    ensures
        bigint_value(r) == -bigint_value(*a),
{
    -a
}

/// Relies on `Shr<u32> for &BigInt`: an arithmetic right shift that rounds
/// toward negative infinity, i.e. division by `2^n` rounding down.
#[verifier::external_body]
pub(crate) fn bigint_shr(a: &num_bigint::BigInt, n: u32) -> (r: num_bigint::BigInt)
    ensures
        bigint_value(r) == bigint_value(*a) / (pow2(n as nat) as int),
{
    a >> n
}

/// Relies on `BigInt::bit`: reads the bit in the given position of a
/// non-negative value.
#[verifier::external_body]
pub(crate) fn bigint_bit(a: &num_bigint::BigInt, n: u64) -> (r: bool)
    requires
        bigint_value(*a) >= 0,
    ensures
        r == (bigint_value(*a) / (pow2(n as nat) as int) % 2 == 1),
{
    a.bit(n)
}

/// Relies on `PartialOrd for BigInt`: the order of the values.
#[verifier::external_body]
pub(crate) fn bigint_lt(a: &num_bigint::BigInt, b: &num_bigint::BigInt) -> (r: bool)
    ensures
        r == (bigint_value(*a) < bigint_value(*b)),
{
    a < b
}

/// Relies on `PartialEq for BigInt`: equality of the values.
#[verifier::external_body]
pub(crate) fn bigint_eq(a: &num_bigint::BigInt, b: &num_bigint::BigInt) -> (r: bool)
    ensures
        r == (bigint_value(*a) == bigint_value(*b)),
{
    a == b
}

/// Relies on `TryFrom<&BigInt> for i128`: succeeds exactly on values of the
/// 128-bit signed range, and returns the value itself.
#[verifier::external_body]
pub(crate) fn bigint_to_i128(a: &num_bigint::BigInt) -> (r: Option<i128>)
    ensures
        match r {
            Some(v) => v == bigint_value(*a),
            None => bigint_value(*a) < i128::MIN || bigint_value(*a) > i128::MAX,
        },
{
    i128::try_from(a).ok()
}

/// Relies on `TryFrom<&BigInt> for usize`: succeeds exactly on values of the
/// unsigned word range, and returns the value itself.
#[verifier::external_body]
pub(crate) fn bigint_to_usize(a: &num_bigint::BigInt) -> (r: Option<usize>)
    ensures
        match r {
            Some(v) => v == bigint_value(*a),
            None => bigint_value(*a) < 0 || bigint_value(*a) > usize::MAX,
        },
{
    usize::try_from(a).ok()
}

/// Relies on `Display for BigInt`: the decimal digits of the value, most
/// significant first, with a leading minus sign for negatives.
#[verifier::external_body]
pub(crate) fn bigint_to_decimal(a: &num_bigint::BigInt) -> (r: String)
    ensures
        r@ == crate::asn1_uper::bits::spec_decimal_string(bigint_value(*a)),
{
    a.to_string()
}

} // verus!
