//! The arbitrary-precision integers of `num-bigint`, as the codecs use them.
//!
//! Verus does not look inside a `BigUint` or a `BigInt`. This module names
//! the mathematical value of each and wraps the handful of operations that
//! the variable-length codecs call. The contract of every function here is
//! believed, not proved: it restates what `num-bigint` documents and
//! implements for that operation. The two public functions at the end are
//! verified; they make a big integer of a known value.

use vstd::prelude::*;
use vstd::arithmetic::power2::pow2;
use num_bigint::{BigInt, BigUint};
use num_traits::{FromPrimitive, ToPrimitive};
use crate::bits::{bit_and, bit_or};

verus! {

/// `num_bigint::BigUint`, opaque to the verifier.
#[verifier::external_type_specification]
#[verifier::external_body]
pub struct ExBigUint(num_bigint::BigUint);

/// `num_bigint::BigInt`, opaque to the verifier.
#[verifier::external_type_specification]
#[verifier::external_body]
pub struct ExBigInt(num_bigint::BigInt);

/// The natural number that a `BigUint` holds.
pub uninterp spec fn ubig_value(x: BigUint) -> nat;

/// The integer that a `BigInt` holds.
pub uninterp spec fn ibig_value(x: BigInt) -> int;

/// `<BigUint as FromPrimitive>::from_u64`: always `Some`, holding the value
/// of the argument.
#[verifier::external_body]
pub(crate) fn ubig_from_u64(v: u64) -> (r: Option<BigUint>)
    ensures
        r is Some,
        ubig_value(r.unwrap()) == v,
{
    <BigUint as FromPrimitive>::from_u64(v)
}

/// `<BigUint as ToPrimitive>::to_u64`: the value where it fits in 64 bits,
/// `None` where it does not.
#[verifier::external_body]
pub(crate) fn ubig_to_u64(x: &BigUint) -> (r: Option<u64>)
    ensures
        ubig_value(*x) <= u64::MAX ==> r == Some(ubig_value(*x) as u64),
        ubig_value(*x) > u64::MAX ==> r is None,
{
    ToPrimitive::to_u64(x)
}

/// `>` on `BigUint`: compares the values.
#[verifier::external_body]
pub(crate) fn ubig_gt(a: &BigUint, b: &BigUint) -> (r: bool)
    ensures
        r == (ubig_value(*a) > ubig_value(*b)),
{
    a > b
}

/// `&` on `BigUint`: bitwise AND of the values.
#[verifier::external_body]
pub(crate) fn ubig_and(a: &BigUint, b: &BigUint) -> (r: BigUint)
    ensures
        ubig_value(r) == bit_and(ubig_value(*a) as int, ubig_value(*b) as int),
{
    a & b
}

/// `|` on `BigUint`: bitwise OR of the values.
#[verifier::external_body]
pub(crate) fn ubig_or(a: &BigUint, b: &BigUint) -> (r: BigUint)
    ensures
        ubig_value(r) == bit_or(ubig_value(*a) as int, ubig_value(*b) as int),
{
    a | b
}

/// `<<` on `BigUint` with a `usize` count: multiplies by `2^n`. The count
/// is kept to 64, so that the result needs at most two digits more than
/// `a` has.
#[verifier::external_body]
pub(crate) fn ubig_shl(a: &BigUint, n: usize) -> (r: BigUint)
    requires
        n <= 64,
    ensures
        ubig_value(r) == ubig_value(*a) * pow2(n as nat),
{
    a << n
}

/// `>>` on `BigUint` with a `usize` count: divides by `2^n`, dropping the
/// remainder.
#[verifier::external_body]
pub(crate) fn ubig_shr(a: &BigUint, n: usize) -> (r: BigUint)
    ensures
        ubig_value(r) == ubig_value(*a) / pow2(n as nat),
{
    a >> n
}

/// `<BigInt as FromPrimitive>::from_i64`: always `Some`, holding the value of
/// the argument.
#[verifier::external_body]
pub(crate) fn ibig_from_i64(v: i64) -> (r: Option<BigInt>)
    ensures
        r is Some,
        ibig_value(r.unwrap()) == v,
{
    <BigInt as FromPrimitive>::from_i64(v)
}

/// `<BigInt as ToPrimitive>::to_u64`: the value where it is not negative and
/// fits in 64 bits, `None` otherwise.
#[verifier::external_body]
pub(crate) fn ibig_to_u64(x: &BigInt) -> (r: Option<u64>)
    ensures
        0 <= ibig_value(*x) <= u64::MAX ==> r == Some(ibig_value(*x) as u64),
        !(0 <= ibig_value(*x) <= u64::MAX) ==> r is None,
{
    ToPrimitive::to_u64(x)
}

/// `==` on `BigInt`: equality of the values.
#[verifier::external_body]
pub(crate) fn ibig_eq(a: &BigInt, b: &BigInt) -> (r: bool)
    ensures
        r == (ibig_value(*a) == ibig_value(*b)),
{
    a == b
}

/// `&` on `BigInt`: bitwise AND of the values in two's complement.
#[verifier::external_body]
pub(crate) fn ibig_and(a: &BigInt, b: &BigInt) -> (r: BigInt)
    ensures
        ibig_value(r) == bit_and(ibig_value(*a), ibig_value(*b)),
{
    a & b
}

/// `|` on `BigInt`: bitwise OR of the values in two's complement.
#[verifier::external_body]
pub(crate) fn ibig_or(a: &BigInt, b: &BigInt) -> (r: BigInt)
    ensures
        ibig_value(r) == bit_or(ibig_value(*a), ibig_value(*b)),
{
    a | b
}

/// `<<` on `BigInt` with a `usize` count: multiplies by `2^n`. The count is
/// kept to 64, so that the result needs at most two digits more than `a`
/// has.
#[verifier::external_body]
pub(crate) fn ibig_shl(a: &BigInt, n: usize) -> (r: BigInt)
    requires
        n <= 64,
    ensures
        ibig_value(r) == ibig_value(*a) * pow2(n as nat),
{
    a << n
}

/// `>>` on `BigInt` with a `usize` count: divides by `2^n`, rounding toward
/// negative infinity (an arithmetic shift).
#[verifier::external_body]
pub(crate) fn ibig_shr(a: &BigInt, n: usize) -> (r: BigInt)
    ensures
        ibig_value(r) == ibig_value(*a) / (pow2(n as nat) as int),
{
    a >> n
}

/// `-` on `BigInt`: the difference of the values.
#[verifier::external_body]
pub(crate) fn ibig_sub(a: &BigInt, b: &BigInt) -> (r: BigInt)
    ensures
        ibig_value(r) == ibig_value(*a) - ibig_value(*b),
{
    a - b
}

/// The `BigUint` that holds `v`.
pub fn biguint_from_u64(v: u64) -> (r: BigUint)
    ensures
        ubig_value(r) == v,
{
    ubig_from_u64(v).unwrap()
}

/// The `BigInt` that holds `v`.
pub fn bigint_from_i64(v: i64) -> (r: BigInt)
    ensures
        ibig_value(r) == v,
{
    ibig_from_i64(v).unwrap()
}

} // verus!
