use num_bigint::BigUint;
use prime_snarks::witness::{get_mod_vals, mod_pow_generate_witnesses};

#[test]
fn get_mod_vals_records_euclidean_reduction() {
    let num = BigUint::from(1234567u64);
    let div = BigUint::from(1000u64);
    let w = get_mod_vals(&num, &div);
    assert_eq!(w.dividend, num);
    assert_eq!(w.divisor, div);
    assert_eq!(w.quotient, BigUint::from(1234u64));
    assert_eq!(w.remainder, BigUint::from(567u64));
}

#[test]
fn generator_matches_independent_modpow_small() {
    let base = BigUint::from(5u64);
    let modulus = BigUint::from(4u64);
    let exp = BigUint::from(3u64);
    let ew = mod_pow_generate_witnesses(&base, &modulus, &exp, 8);
    assert_eq!(ew.result, base.modpow(&exp, &modulus));
}

#[test]
fn generator_matches_independent_modpow_large() {
    // an independent arbitrary-precision reference for the final remainder
    let base = BigUint::parse_bytes(b"123456789123456789123456789123456789", 10).unwrap();
    let modulus = BigUint::parse_bytes(b"987654321987654321987654321987654321", 10).unwrap();
    let exp = BigUint::from(0xdeadbeefcafef00du64);
    let ew = mod_pow_generate_witnesses(&base, &modulus, &exp, 64);
    assert_eq!(ew.result, base.modpow(&exp, &modulus));
}

#[test]
fn generator_zero_exponent_yields_identity() {
    let base = BigUint::from(77u64);
    let modulus = BigUint::from(13u64);
    let exp = BigUint::from(0u64);
    let ew = mod_pow_generate_witnesses(&base, &modulus, &exp, 16);
    assert_eq!(ew.result, BigUint::from(1u64));
    assert!(ew.bits.iter().all(|b| !b));
}

#[test]
fn generator_truncates_high_bits() {
    // exponent 0b1_0011 with width 4 certifies base^0b0011
    let base = BigUint::from(3u64);
    let modulus = BigUint::from(1000u64);
    let exp = BigUint::from(0b10011u64);
    let ew = mod_pow_generate_witnesses(&base, &modulus, &exp, 4);
    assert_eq!(ew.result, BigUint::from(27u64));
}

#[test]
fn every_reduction_witness_holds_its_invariant() {
    let base = BigUint::from(0x1234_5678_9abc_def0u64);
    let modulus = BigUint::from(0xfffffffb_u64);
    let exp = BigUint::from(0xfffffffa_u64);
    let ew = mod_pow_generate_witnesses(&base, &modulus, &exp, 64);
    assert_eq!(ew.result_steps.len(), 64);
    assert_eq!(ew.square_steps.len(), 64);
    for w in ew.result_steps.iter().chain(ew.square_steps.iter()) {
        assert_eq!(&w.divisor * &w.quotient + &w.remainder, w.dividend);
        assert!(w.remainder < w.divisor);
    }
}
