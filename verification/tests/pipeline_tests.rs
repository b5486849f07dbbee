use num_bigint::BigUint;
use prime_snarks::api::prove_prime;
use prime_snarks::circuit::build_prime_circuit;
use prime_snarks::cs::ConstraintSystem;
use prime_snarks::errors::PrimeSnarkError;
use prime_snarks::field::fr_modulus_big;
use prime_snarks::gadget::{modpow_gadget, CircuitConfig};
use prime_snarks::search::{check_if_next_is_prime, search_for_prime};
use prime_snarks::witness::mod_pow_generate_witnesses;

#[test]
fn honest_modpow_trace_satisfies_gadget() {
    // round trip: generate a trace, replay it, the system is satisfied
    let base = BigUint::from(7u64);
    let modulus = BigUint::from(11u64);
    let exp = BigUint::from(10u64);
    let ew = mod_pow_generate_witnesses(&base, &modulus, &exp, 8);
    let mut cs = ConstraintSystem::new();
    let bv = cs.allocate_witness(BigUint::from(7u64));
    let evv = cs.allocate_witness(BigUint::from(10u64));
    let dv = cs.allocate_witness(BigUint::from(11u64));
    let res = modpow_gadget(&mut cs, bv, evv, dv, &ew, 8).unwrap();
    assert_eq!(cs.value_at(res), &BigUint::from(1u64));
    assert!(cs.is_satisfied());
    assert_eq!(cs.num_constraints(), 12 * 8 + 2);
}

#[test]
fn flipping_any_exponent_bit_unsatisfies_gadget() {
    // soundness probe: flip each single bit of the decomposition in turn
    let base = BigUint::from(7u64);
    let modulus = BigUint::from(11u64);
    let exp = BigUint::from(10u64);
    for flip in 0..8usize {
        let mut ew = mod_pow_generate_witnesses(&base, &modulus, &exp, 8);
        ew.bits[flip] = !ew.bits[flip];
        let mut cs = ConstraintSystem::new();
        let bv = cs.allocate_witness(BigUint::from(7u64));
        let evv = cs.allocate_witness(BigUint::from(10u64));
        let dv = cs.allocate_witness(BigUint::from(11u64));
        let _ = modpow_gadget(&mut cs, bv, evv, dv, &ew, 8).unwrap();
        assert!(!cs.is_satisfied(), "flip {} left the system satisfied", flip);
    }
}

#[test]
fn modpow_gadget_rejects_wrong_width() {
    let base = BigUint::from(7u64);
    let modulus = BigUint::from(11u64);
    let exp = BigUint::from(10u64);
    let ew = mod_pow_generate_witnesses(&base, &modulus, &exp, 8);
    let mut cs = ConstraintSystem::new();
    let bv = cs.allocate_witness(BigUint::from(7u64));
    let evv = cs.allocate_witness(BigUint::from(10u64));
    let dv = cs.allocate_witness(BigUint::from(11u64));
    let res = modpow_gadget(&mut cs, bv, evv, dv, &ew, 16);
    assert_eq!(res.err().unwrap(), PrimeSnarkError::ConstraintError);
    assert_eq!(cs.num_constraints(), 0);
}

#[test]
fn end_to_end_search_and_circuit() {
    // seed 23 with round bound 3 and two bases finds the prime at index 3
    let cfg = CircuitConfig { num_bases: 2, bit_width: 64 };
    let (found, cs) = prove_prime(23, 3, cfg).unwrap();
    assert_eq!(found.found_index, 3);
    assert_eq!(found.rejected.len(), 3);
    assert!(found.is_prime);
    assert_eq!(found.winner.reduced, BigUint::from(14815847259470770267u64));
    assert!(cs.is_satisfied());
    // analytically predicted sizes: 32*(i+1)+3 chain and binding constraints
    // plus K*(12*W+8)+4 for the Fermat gadget
    assert_eq!(cs.num_constraints(), 32 * 4 + 3 + 2 * (12 * 64 + 2 + 6) + 4);
    assert_eq!(cs.num_variables(), 3 + 64 * 4 + 5 + 2 * (13 * 64 + 7) + 5);
}

#[test]
fn exhausted_search_reports_not_found() {
    // no candidate of seed 5 within four rounds is prime
    let cfg = CircuitConfig { num_bases: 2, bit_width: 64 };
    let res = search_for_prime(5, 3, cfg);
    assert_eq!(res.err().unwrap(), PrimeSnarkError::NotFoundError);
}

#[test]
fn search_rejects_bad_config() {
    let cfg = CircuitConfig { num_bases: 0, bit_width: 64 };
    assert_eq!(search_for_prime(23, 3, cfg).err().unwrap(), PrimeSnarkError::InputError);
    let cfg = CircuitConfig { num_bases: 2, bit_width: 0 };
    assert_eq!(prove_prime(23, 3, cfg).err().unwrap(), PrimeSnarkError::InputError);
}

#[test]
fn builder_rejects_malformed_result() {
    let cfg = CircuitConfig { num_bases: 2, bit_width: 64 };
    let (mut found, _) = prove_prime(23, 3, cfg).unwrap();
    found.rejected.pop();
    let res = build_prime_circuit(&found, cfg);
    assert_eq!(res.err().unwrap(), PrimeSnarkError::ConstraintError);
}

#[test]
fn tampered_winner_hash_unsatisfies_circuit() {
    // the published chain must bind the real digests
    let cfg = CircuitConfig { num_bases: 2, bit_width: 64 };
    let (mut found, _) = prove_prime(23, 3, cfg).unwrap();
    found.winner.hash_bytes[0] ^= 1;
    let cs = build_prime_circuit(&found, cfg).unwrap();
    assert!(!cs.is_satisfied());
}

#[test]
fn candidate_evaluation_matches_search_winner() {
    let cfg = CircuitConfig { num_bases: 2, bit_width: 64 };
    let p = fr_modulus_big();
    let (rec, _, wit, passes) = check_if_next_is_prime(23, 3, cfg, &p);
    assert!(passes);
    assert_eq!(rec.reduced, BigUint::from(14815847259470770267u64));
    assert_eq!(&wit.divisor * &wit.quotient + &wit.remainder, wit.dividend);
    let (_, _, _, passes0) = check_if_next_is_prime(23, 0, cfg, &p);
    assert!(!passes0);
}
