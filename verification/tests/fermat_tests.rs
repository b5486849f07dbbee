use num_bigint::BigUint;
use prime_snarks::errors::PrimeSnarkError;
use prime_snarks::fermat::{fermat_constructor, fermat_test, get_max_val};
use prime_snarks::field::fr_modulus_big;
use prime_snarks::gadget::CircuitConfig;

#[test]
fn fermat_accepts_all_small_primes() {
    let p = fr_modulus_big();
    let r = BigUint::from(12345u64);
    let primes: [u64; 25] = [
        2, 3, 5, 7, 11, 13, 17, 19, 23, 29, 31, 37, 41, 43, 47, 53, 59, 61, 67, 71, 73, 79, 83,
        89, 97,
    ];
    for q in primes {
        assert!(fermat_test(&BigUint::from(q), &r, 20, 64, &p), "prime rejected: {}", q);
    }
}

#[test]
fn fermat_rejects_carmichael_numbers() {
    // probabilistic in general; deterministic for this fixed randomness
    let p = fr_modulus_big();
    let r = BigUint::from(12345u64);
    for c in [341u64, 561, 1105, 1729, 2465] {
        assert!(!fermat_test(&BigUint::from(c), &r, 20, 64, &p), "composite accepted: {}", c);
    }
}

#[test]
fn fermat_rejects_trivial_values() {
    let p = fr_modulus_big();
    let r = BigUint::from(7u64);
    assert!(!fermat_test(&BigUint::from(0u64), &r, 5, 64, &p));
    assert!(!fermat_test(&BigUint::from(1u64), &r, 5, 64, &p));
    assert!(!fermat_test(&BigUint::from(4u64), &r, 5, 64, &p));
    assert!(!fermat_test(&BigUint::from(100u64), &r, 5, 64, &p));
}

#[test]
fn constructor_rejects_bad_config() {
    let p = fr_modulus_big();
    let r = BigUint::from(5u64);
    let cfg = CircuitConfig { num_bases: 0, bit_width: 64 };
    let res = fermat_constructor(&r, &BigUint::from(11u64), cfg, &p);
    assert_eq!(res.err().unwrap(), PrimeSnarkError::InputError);
    let cfg = CircuitConfig { num_bases: 2, bit_width: 255 };
    let res = fermat_constructor(&r, &BigUint::from(11u64), cfg, &p);
    assert_eq!(res.err().unwrap(), PrimeSnarkError::InputError);
}

#[test]
fn constructor_rejects_small_or_even_modulus() {
    let p = fr_modulus_big();
    let r = BigUint::from(5u64);
    let cfg = CircuitConfig { num_bases: 2, bit_width: 64 };
    for n in [0u64, 1, 2, 3, 4, 100] {
        let res = fermat_constructor(&r, &BigUint::from(n), cfg, &p);
        assert_eq!(res.err().unwrap(), PrimeSnarkError::WitnessError);
    }
}

#[test]
fn constructor_flags_composite_and_prime() {
    let p = fr_modulus_big();
    let r = BigUint::from(12345u64);
    let cfg = CircuitConfig { num_bases: 20, bit_width: 64 };
    let (instances, flag) = fermat_constructor(&r, &BigUint::from(29u64), cfg, &p).unwrap();
    assert!(flag);
    assert_eq!(instances.len(), 20);
    for inst in &instances {
        assert!(inst.result_is_one);
        assert_eq!(&inst.base_derivation.divisor * &inst.base_derivation.quotient
            + &inst.base_derivation.remainder, inst.base_derivation.dividend);
    }
    let (_, flag9) = fermat_constructor(&r, &BigUint::from(9u64), cfg, &p).unwrap();
    assert!(!flag9);
}

#[test]
fn max_val_is_power_of_two() {
    assert_eq!(get_max_val(0), BigUint::from(1u64));
    assert_eq!(get_max_val(10), BigUint::from(1024u64));
    assert_eq!(get_max_val(64), BigUint::from(1u8) << 64);
}
