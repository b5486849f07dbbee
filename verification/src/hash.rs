//! The hash primitive and the byte serializations built on it.
//!
//! Candidates and test bases are derived by hashing fixed-width
//! little-endian encodings with SHA-256 and reducing the 32 digest bytes,
//! read as a little-endian number, into the proving field.  The digest
//! itself is named by the uninterpreted function [`sha256_of`]; everything
//! around it - the encodings, the concatenations, the reduction - is
//! verified exactly.

use crate::bigint::{big_div_rem, big_from_bytes_le, big_from_u64, big_to_u64, big_value};
use crate::field::{fp_reduce, fr_modulus};
use num_bigint::BigUint;
use sha2::{Digest, Sha256};
use vstd::arithmetic::div_mod::lemma_div_denominator;
use vstd::arithmetic::power2::{lemma_pow2_adds, lemma_pow2_pos, pow2};
use vstd::prelude::*;

verus! {

/// The SHA-256 digest of a byte sequence.  The digest depends on the input
/// bytes alone, so naming it is sound; nothing else is assumed of it beyond
/// its 32-byte length.
pub uninterp spec fn sha256_of(input: Seq<u8>) -> Seq<u8>;

/// Relies on `sha2::Sha256::digest`: the digest of the input bytes, 32
/// bytes long, a function of the input alone.
#[verifier::external_body]
pub fn sha256_digest(data: &[u8]) -> (r: Vec<u8>)
    ensures
        r@ == sha256_of(data@),
        r@.len() == 32,
{
    Sha256::digest(data).to_vec()
}

/// Digit `i` of the little-endian radix-256 expansion of `v`.
pub open spec fn nat_byte(v: nat, i: nat) -> u8 {
    (((v / pow2(8 * i)) % 256) as u8)
}

/// The 32-byte little-endian encoding of a natural below `2^256`.
pub open spec fn ser32_le(v: nat) -> Seq<u8> {
    Seq::new(32, |i: int| nat_byte(v, i as nat))
}

/// The 8-byte little-endian encoding of a 64-bit value.
pub open spec fn ser8_le(v: nat) -> Seq<u8> {
    Seq::new(8, |i: int| nat_byte(v, i as nat))
}

/// Writes the little-endian radix-256 digits of `a`, `len` of them.
fn serialize_le(a: &BigUint, len: usize) -> (r: Vec<u8>)
    requires
        big_value(*a) < pow2(8 * len as nat),
    ensures
        r@.len() == len,
        forall|j: int| 0 <= j < len ==> r@[j] == nat_byte(big_value(*a), j as nat),
{
    let b256 = big_from_u64(256);
    let mut out: Vec<u8> = Vec::new();
    let mut cur = crate::bigint::big_clone(a);
    let ghost v = big_value(*a);
    let mut i: usize = 0;
    proof {
        lemma_pow2_pos(0);
        assert(big_value(cur) == v / pow2(0)) by {
            assert(pow2(0) == 1) by {
                vstd::arithmetic::power2::lemma2_to64();
            }
        }
    }
    while i < len
        invariant
            i <= len,
            out@.len() == i,
            big_value(b256) == 256,
            big_value(cur) == v / pow2(8 * i as nat),
            forall|j: int| 0 <= j < i ==> out@[j] == nat_byte(v, j as nat),
        decreases len - i,
    {
        let (q, rem) = big_div_rem(&cur, &b256);
        let byte = big_to_u64(&rem) as u8;
        proof {
            lemma_pow2_pos(8 * i as nat);
            lemma_div_denominator(v as int, pow2(8 * i as nat) as int, 256);
            lemma_pow2_adds(8 * i as nat, 8);
            assert(pow2(8) == 256) by {
                vstd::arithmetic::power2::lemma2_to64();
            }
            assert(big_value(q) == v / pow2(8 * (i + 1) as nat));
            assert(byte == nat_byte(v, i as nat));
        }
        out.push(byte);
        cur = q;
        i = i + 1;
    }
    out
}

/// The 32-byte little-endian encoding, as the circuit and the native
/// pipeline both use it for field-sized values.
pub fn serialize_fr_le(a: &BigUint) -> (r: Vec<u8>)
    requires
        big_value(*a) < pow2(256),
    ensures
        r@ == ser32_le(big_value(*a)),
{
    let out = serialize_le(a, 32);
    proof {
        assert(out@ =~= ser32_le(big_value(*a)));
    }
    out
}

/// The 8-byte little-endian encoding of a `u64`.
pub fn serialize_u64_le(x: u64) -> (r: Vec<u8>)
    ensures
        r@ == ser8_le(x as nat),
{
    let big = big_from_u64(x);
    proof {
        assert(pow2(64) == 0x1_0000_0000_0000_0000) by {
            vstd::arithmetic::power2::lemma2_to64();
        }
    }
    let out = serialize_le(&big, 8);
    proof {
        assert(out@ =~= ser8_le(x as nat));
    }
    out
}

/// The derived value `reduce_to_field(sha256(ser32(r) || ser32(index)))`:
/// one test base, before any range adjustment.
pub open spec fn derive_spec(r: nat, index: nat) -> nat {
    crate::bigint::le_bytes_value(sha256_of(ser32_le(r) + ser32_le(index))) % fr_modulus()
}

/// Deterministic base derivation: hash the 32-byte encodings of the
/// randomness and the index, read the digest little-endian, reduce into the
/// field.  Native and circuit pipelines share this one definition, which is
/// what makes them byte-identical.
pub fn derive(randomness: &BigUint, index: u64, p: &BigUint) -> (r: BigUint)
    requires
        big_value(*randomness) < fr_modulus(),
        big_value(*p) == fr_modulus(),
    ensures
        big_value(r) == derive_spec(big_value(*randomness), index as nat),
        big_value(r) < fr_modulus(),
{
    proof {
        lemma_fr_below_pow256();
    }
    let mut buf = serialize_fr_le(randomness);
    let idx_big = big_from_u64(index);
    proof {
        lemma_u64_below_pow256(index);
    }
    let mut idx_bytes = serialize_fr_le(&idx_big);
    buf.append(&mut idx_bytes);
    let digest = sha256_digest(buf.as_slice());
    let raw = big_from_bytes_le(digest.as_slice());
    fp_reduce(&raw, p)
}

/// The field modulus fits in 256 bits.
pub proof fn lemma_fr_below_pow256()
    ensures
        fr_modulus() < pow2(256),
{
    lemma_pow2_adds(128, 128);
    lemma_pow2_adds(64, 64);
    vstd::arithmetic::power2::lemma2_to64();
    assert(pow2(128) == 0x1_0000_0000_0000_0000nat * 0x1_0000_0000_0000_0000nat);
    assert(pow2(128) == 0x1_0000_0000_0000_0000_0000_0000_0000_0000nat);
    assert(pow2(256) == 0x1_0000_0000_0000_0000_0000_0000_0000_0000nat
        * 0x1_0000_0000_0000_0000_0000_0000_0000_0000nat);
}

/// Any 64-bit value fits in 256 bits.
pub proof fn lemma_u64_below_pow256(x: u64)
    ensures
        (x as nat) < pow2(256),
{
    assert(pow2(64) == 0x1_0000_0000_0000_0000) by {
        vstd::arithmetic::power2::lemma2_to64();
    }
    vstd::arithmetic::power2::lemma_pow2_strictly_increases(64, 256);
}

/// The sum of two 64-bit values fits in 256 bits.
pub proof fn lemma_u64_sum_below_pow256(x: u64, y: u64)
    ensures
        (x as nat) + (y as nat) < pow2(256),
{
    assert(pow2(64) == 0x1_0000_0000_0000_0000) by {
        vstd::arithmetic::power2::lemma2_to64();
    }
    vstd::arithmetic::power2::lemma_pow2_adds(64, 1);
    assert(pow2(1) == 2) by {
        vstd::arithmetic::power2::lemma2_to64();
    }
    assert(pow2(65) == pow2(64) * 2);
    vstd::arithmetic::power2::lemma_pow2_strictly_increases(65, 256);
}

} // verus!
