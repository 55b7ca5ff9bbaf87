//! Trusted interface to the arbitrary-precision integers of the
//! `num-bigint` crate.
//!
//! `int_of` names the mathematical value an integer holds; every wrapper's
//! contract is stated over that value.

use vstd::prelude::*;
use crate::arith::inverse_exists;

verus! {

#[verifier::external_type_specification]
#[verifier::external_body]
pub struct ExBigInt(num_bigint::BigInt);

/// The mathematical value that a `num_bigint::BigInt` holds.
pub uninterp spec fn int_of(x: num_bigint::BigInt) -> int;

/// Relies on num-bigint's `From<u64>`: the new integer holds the given value.
#[verifier::external_body]
pub(crate) fn integer_from_u64(v: u64) -> (r: num_bigint::BigInt)
    ensures
        int_of(r) == v as int,
{
    num_bigint::BigInt::from(v)
}

/// Relies on num-bigint's `Clone`: the copy holds the same value.
#[verifier::external_body]
pub(crate) fn integer_clone(x: &num_bigint::BigInt) -> (r: num_bigint::BigInt)
    ensures
        int_of(r) == int_of(*x),
{
    x.clone()
}

/// Relies on num-bigint's ordered comparison.
#[verifier::external_body]
pub(crate) fn u64_ge_integer(v: u64, x: &num_bigint::BigInt) -> (r: bool)
    ensures
        r == (v as int >= int_of(*x)),
{
    *x <= num_bigint::BigInt::from(v)
}

/// Relies on num-bigint's remainder: it is zero exactly when the value is a
/// multiple of the divisor.
#[verifier::external_body]
pub(crate) fn integer_divisible_u64(x: &num_bigint::BigInt, d: u64) -> (r: bool)
    requires
        1 <= d,
    ensures
        r == (int_of(*x) % (d as int) == 0),
{
    x % &num_bigint::BigInt::from(d) == num_bigint::BigInt::from(0u8)
}

/// Relies on num-bigint's division: when the divisor divides exactly, the
/// quotient times the divisor gives the value back.
#[verifier::external_body]
pub(crate) fn integer_div_exact_u64(x: &num_bigint::BigInt, d: u64) -> (r: num_bigint::BigInt)
    requires
        1 <= d,
        int_of(*x) % (d as int) == 0,
    ensures
        int_of(r) * (d as int) == int_of(*x),
{
    x / &num_bigint::BigInt::from(d)
}

/// Relies on num-bigint's subtraction with primitives.
#[verifier::external_body]
pub(crate) fn integer_sub_one(x: &num_bigint::BigInt) -> (r: num_bigint::BigInt)
    ensures
        int_of(r) == int_of(*x) - 1,
{
    x - 1u32
}

/// Relies on num-bigint's multiplication.
#[verifier::external_body]
pub(crate) fn integer_mul(a: &num_bigint::BigInt, b: &num_bigint::BigInt) -> (r:
    num_bigint::BigInt)
    ensures
        int_of(r) == int_of(*a) * int_of(*b),
{
    a * b
}

/// Relies on num-bigint's `modinv`: for a positive modulus it returns `Some`
/// exactly when an inverse exists — the value and the modulus are coprime —
/// and the inverse returned is the representative in [0, m).  A modulus of 1
/// is kept out: there, for a negative value, the call hands back 1, which
/// lies outside [0, 1).
#[verifier::external_body]
pub(crate) fn integer_modinv(x: &num_bigint::BigInt, m: &num_bigint::BigInt) -> (r: Option<
    num_bigint::BigInt,
>)
    requires
        2 <= int_of(*m),
    ensures
        r matches Some(d) ==> 0 <= int_of(d) < int_of(*m) && (int_of(*x) * int_of(d)) % int_of(*m)
            == 1int % int_of(*m),
        (r is Some) == inverse_exists(int_of(*x), int_of(*m)),
{
    x.modinv(m)
}

} // verus!
