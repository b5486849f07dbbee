//! The proving field.
//!
//! Circuit variables hold elements of the scalar field of BLS12-381, the
//! prime field of order [`fr_modulus`].  Field elements are carried as
//! `BigUint` values strictly below the modulus; the functions here provide
//! the modular arithmetic the circuit model needs.

use crate::bigint::{big_add, big_div_rem, big_from_u64, big_lt, big_mul, big_sub, big_value};
use num_bigint::BigUint;
use vstd::arithmetic::div_mod::{lemma_fundamental_div_mod_converse, lemma_small_mod};
use vstd::prelude::*;

verus! {

/// The order of the scalar field of BLS12-381.
pub open spec fn fr_modulus() -> nat {
    0x73eda753299d7d483339d80809a1d80553bda402fffe5bfeffffffff00000001nat
}

/// A natural number is a field element when it lies below the modulus.
pub open spec fn is_fr(v: nat) -> bool {
    v < fr_modulus()
}

/// Basic facts about the modulus that proofs rely on: it is an odd prime,
/// so in particular odd and larger than two.
pub proof fn lemma_fr_modulus_facts()
    ensures
        fr_modulus() > 2,
        fr_modulus() % 2 == 1,
{
}

/// The modulus is a 255-bit prime: it lies strictly between `2^254` and
/// `2^255`.
pub proof fn lemma_fr_range()
    ensures
        vstd::arithmetic::power2::pow2(254) < fr_modulus(),
        fr_modulus() < vstd::arithmetic::power2::pow2(255),
{
    vstd::arithmetic::power2::lemma2_to64();
    vstd::arithmetic::power2::lemma2_to64_rest();
    vstd::arithmetic::power2::lemma_pow2_adds(64, 63);
    assert(vstd::arithmetic::power2::pow2(127) == 0x1_0000_0000_0000_0000nat
        * 0x8000_0000_0000_0000nat);
    vstd::arithmetic::power2::lemma_pow2_adds(127, 127);
    assert(vstd::arithmetic::power2::pow2(254) == 0x8000_0000_0000_0000_0000_0000_0000_0000nat
        * 0x8000_0000_0000_0000_0000_0000_0000_0000nat);
    vstd::arithmetic::power2::lemma_pow2_adds(254, 1);
}

/// Builds the field modulus as a `BigUint` from its four 64-bit words.
pub fn fr_modulus_big() -> (r: BigUint)
    ensures
        big_value(r) == fr_modulus(),
{
    let b32 = big_from_u64(0x1_0000_0000u64);
    let b64 = big_mul(&b32, &b32);
    assert(big_value(b64) == 0x1_0000_0000_0000_0000nat);
    let mut acc = big_from_u64(0x73eda753299d7d48u64);
    acc = big_mul(&acc, &b64);
    acc = big_add(&acc, &big_from_u64(0x3339d80809a1d805u64));
    assert(big_value(acc) == 0x73eda753299d7d483339d80809a1d805nat);
    acc = big_mul(&acc, &b64);
    acc = big_add(&acc, &big_from_u64(0x53bda402fffe5bfeu64));
    assert(big_value(acc) == 0x73eda753299d7d483339d80809a1d80553bda402fffe5bfenat);
    acc = big_mul(&acc, &b64);
    acc = big_add(&acc, &big_from_u64(0xffffffff00000001u64));
    assert(big_value(acc) == fr_modulus());
    acc
}

/// Reduces an arbitrary natural into the field.
pub fn fp_reduce(a: &BigUint, p: &BigUint) -> (r: BigUint)
    requires
        big_value(*p) == fr_modulus(),
    ensures
        big_value(r) == big_value(*a) % fr_modulus(),
        is_fr(big_value(r)),
{
    let (_, rem) = big_div_rem(a, p);
    rem
}

/// Field addition.
pub fn fp_add(a: &BigUint, b: &BigUint, p: &BigUint) -> (r: BigUint)
    requires
        big_value(*p) == fr_modulus(),
        is_fr(big_value(*a)),
        is_fr(big_value(*b)),
    ensures
        big_value(r) == (big_value(*a) + big_value(*b)) % fr_modulus(),
        is_fr(big_value(r)),
{
    let s = big_add(a, b);
    if big_lt(&s, p) {
        proof {
            lemma_small_mod(big_value(s), fr_modulus());
        }
        s
    } else {
        let r = big_sub(&s, p);
        proof {
            lemma_fundamental_div_mod_converse(
                big_value(s) as int,
                fr_modulus() as int,
                1,
                big_value(r) as int,
            );
        }
        r
    }
}

/// Field multiplication.
pub fn fp_mul(a: &BigUint, b: &BigUint, p: &BigUint) -> (r: BigUint)
    requires
        big_value(*p) == fr_modulus(),
    ensures
        big_value(r) == (big_value(*a) * big_value(*b)) % fr_modulus(),
        is_fr(big_value(r)),
{
    let prod = big_mul(a, b);
    fp_reduce(&prod, p)
}

/// Field subtraction, written over naturals as `a + (p - b)` reduced.
pub fn fp_sub(a: &BigUint, b: &BigUint, p: &BigUint) -> (r: BigUint)
    requires
        big_value(*p) == fr_modulus(),
        is_fr(big_value(*a)),
        is_fr(big_value(*b)),
    ensures
        big_value(r) == (big_value(*a) + fr_modulus() - big_value(*b)) % (fr_modulus() as int),
        is_fr(big_value(r)),
{
    let t = big_sub(p, b);
    let s = big_add(a, &t);
    if big_lt(&s, p) {
        proof {
            lemma_small_mod(big_value(s), fr_modulus());
        }
        s
    } else {
        let r = big_sub(&s, p);
        proof {
            lemma_fundamental_div_mod_converse(
                big_value(s) as int,
                fr_modulus() as int,
                1,
                big_value(r) as int,
            );
        }
        r
    }
}

} // verus!
