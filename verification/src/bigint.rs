//! Trusted boundary to the arbitrary-precision naturals of `num_bigint`.
//!
//! A `BigUint` is opaque to the verifier; the uninterpreted function
//! [`big_value`] names the natural number such a value holds, and every
//! wrapper below states what the wrapped `num_bigint` operation does to that
//! number.  All verified arithmetic in this crate goes through these wrappers.

use num_bigint::BigUint;
use num_integer::Integer;
use num_traits::ToPrimitive;
use vstd::prelude::*;

verus! {

/// The natural number that a `BigUint` holds.
pub uninterp spec fn big_value(b: BigUint) -> nat;

#[verifier::external_type_specification]
#[verifier::external_body]
pub struct ExBigUint(BigUint);

/// The natural number written by a little-endian, radix-256 digit sequence.
pub open spec fn le_bytes_value(s: Seq<u8>) -> nat
    decreases s.len(),
{
    if s.len() == 0 {
        0
    } else {
        s[0] as nat + 256 * le_bytes_value(s.subrange(1, s.len() as int))
    }
}

/// Relies on `BigUint::from::<u64>`: the result holds exactly the given value.
#[verifier::external_body]
pub fn big_from_u64(x: u64) -> (r: BigUint)
    ensures
        big_value(r) == x as nat,
{
    BigUint::from(x)
}

/// Relies on `BigUint::clone`: the copy holds the same number.
#[verifier::external_body]
pub fn big_clone(a: &BigUint) -> (r: BigUint)
    ensures
        big_value(r) == big_value(*a),
{
    a.clone()
}

/// Relies on `Add for BigUint`: exact addition of naturals.
#[verifier::external_body]
pub fn big_add(a: &BigUint, b: &BigUint) -> (r: BigUint)
    ensures
        big_value(r) == big_value(*a) + big_value(*b),
{
    a + b
}

/// Relies on `Mul for BigUint`: exact multiplication of naturals.
#[verifier::external_body]
pub fn big_mul(a: &BigUint, b: &BigUint) -> (r: BigUint)
    ensures
        big_value(r) == big_value(*a) * big_value(*b),
{
    a * b
}

/// Relies on `Sub for BigUint`: exact subtraction; the crate never calls it
/// on a minuend smaller than the subtrahend, where `num_bigint` panics.
#[verifier::external_body]
pub fn big_sub(a: &BigUint, b: &BigUint) -> (r: BigUint)
    requires
        big_value(*b) <= big_value(*a),
    ensures
        big_value(r) == big_value(*a) - big_value(*b),
{
    a - b
}

/// Relies on `num_integer::Integer::div_rem` for `BigUint`: Euclidean
/// quotient and remainder; division by zero panics and is excluded.
#[verifier::external_body]
pub fn big_div_rem(a: &BigUint, b: &BigUint) -> (r: (BigUint, BigUint))
    requires
        big_value(*b) > 0,
    ensures
        big_value(r.0) == big_value(*a) / big_value(*b),
        big_value(r.1) == big_value(*a) % big_value(*b),
{
    a.div_rem(b)
}

/// Relies on `PartialOrd for BigUint`: the order of the held numbers.
#[verifier::external_body]
pub fn big_lt(a: &BigUint, b: &BigUint) -> (r: bool)
    ensures
        r <==> big_value(*a) < big_value(*b),
{
    a < b
}

/// Relies on `PartialEq for BigUint`: representations are canonical, so
/// structural equality is equality of the held numbers.
#[verifier::external_body]
pub fn big_eq(a: &BigUint, b: &BigUint) -> (r: bool)
    ensures
        r <==> big_value(*a) == big_value(*b),
{
    a == b
}

/// Relies on `num_traits::ToPrimitive::to_u64` for `BigUint`: the
/// conversion is exact when the value fits in 64 bits.
#[verifier::external_body]
pub fn big_to_u64(a: &BigUint) -> (r: u64)
    requires
        big_value(*a) < 0x1_0000_0000_0000_0000,
    ensures
        r as nat == big_value(*a),
{
    a.to_u64().unwrap()
}

/// Relies on `BigUint::from_bytes_le`: the bytes are little-endian
/// radix-256 digits of the result.
#[verifier::external_body]
pub fn big_from_bytes_le(bytes: &[u8]) -> (r: BigUint)
    ensures
        big_value(r) == le_bytes_value(bytes@),
{
    BigUint::from_bytes_le(bytes)
}

} // verus!
