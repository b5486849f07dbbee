use num_bigint::BigUint;
use prime_snarks::field::fr_modulus_big;
use prime_snarks::hash::{serialize_fr_le, serialize_u64_le};
use sha2::{Digest, Sha256};

fn reference_modulus() -> BigUint {
    BigUint::parse_bytes(
        b"73eda753299d7d483339d80809a1d80553bda402fffe5bfeffffffff00000001",
        16,
    )
    .unwrap()
}

// An independent reimplementation of the derivation, written directly
// against sha2 and num-bigint.
fn reference_derive(r: u64, index: u64) -> BigUint {
    let mut input = Vec::new();
    let mut rb = r.to_le_bytes().to_vec();
    rb.resize(32, 0);
    input.extend_from_slice(&rb);
    let mut ib = index.to_le_bytes().to_vec();
    ib.resize(32, 0);
    input.extend_from_slice(&ib);
    let digest = Sha256::digest(&input);
    BigUint::from_bytes_le(&digest) % reference_modulus()
}

#[test]
fn modulus_construction_matches_reference() {
    assert_eq!(fr_modulus_big(), reference_modulus());
}

#[test]
fn serializations_match_reference_layout() {
    let v = BigUint::from(0x0102030405060708u64);
    let ser = serialize_fr_le(&v);
    assert_eq!(ser.len(), 32);
    assert_eq!(&ser[0..8], &[8, 7, 6, 5, 4, 3, 2, 1]);
    assert!(ser[8..].iter().all(|&b| b == 0));
    let ser8 = serialize_u64_le(0x0102030405060708u64);
    assert_eq!(ser8, vec![8, 7, 6, 5, 4, 3, 2, 1]);
}

#[test]
fn derive_matches_reference_once() {
    let p = fr_modulus_big();
    let d = prime_snarks::hash::derive(&BigUint::from(42u64), 7, &p);
    let expected = BigUint::parse_bytes(
        b"18984389801509258186440525436621833812334031285592243567303762089016895242966",
        10,
    )
    .unwrap();
    assert_eq!(d, expected);
    assert_eq!(d, reference_derive(42, 7));
}

#[test]
fn derive_matches_reference_on_thousand_pairs() {
    let p = fr_modulus_big();
    let mut state: u64 = 0x9e3779b97f4a7c15;
    for _ in 0..1000 {
        state = state.wrapping_mul(6364136223846793005).wrapping_add(1442695040888963407);
        let r = state >> 8;
        state = state.wrapping_mul(6364136223846793005).wrapping_add(1442695040888963407);
        let index = state >> 40;
        let native = prime_snarks::hash::derive(&BigUint::from(r), index, &p);
        assert_eq!(native, reference_derive(r, index));
    }
}

#[test]
fn serialize_zero_and_roundtrip() {
    let z = serialize_fr_le(&BigUint::from(0u64));
    assert_eq!(z, vec![0u8; 32]);
    let v = BigUint::parse_bytes(b"123456789abcdef0123456789abcdef012345678", 16).unwrap();
    let ser = serialize_fr_le(&v);
    assert_eq!(BigUint::from_bytes_le(&ser), v);
}
