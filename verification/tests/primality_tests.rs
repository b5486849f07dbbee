use prime_snarks::primality::{is_prime1, mod_exp};

#[test]
fn is_prime1_small_values() {
    assert!(!is_prime1(0));
    assert!(!is_prime1(1));
    assert!(is_prime1(2));
    assert!(is_prime1(3));
    assert!(!is_prime1(4));
    assert!(is_prime1(5));
    assert!(!is_prime1(9));
    assert!(is_prime1(29));
    assert!(!is_prime1(25));
}

#[test]
fn is_prime1_larger_values() {
    assert!(is_prime1(7919));
    assert!(!is_prime1(7917));
    assert!(is_prime1(104729));
    assert!(!is_prime1(104730));
    // Carmichael numbers are composite and must be rejected by trial division.
    assert!(!is_prime1(561));
    assert!(!is_prime1(41041));
}

#[test]
fn is_prime1_squares_of_primes() {
    assert!(!is_prime1(49));
    assert!(!is_prime1(121));
    assert!(!is_prime1(169));
}

#[test]
fn mod_exp_known_values() {
    assert_eq!(mod_exp(4, 13, 497), 445);
    assert_eq!(mod_exp(2, 10, 1000), 24);
    assert_eq!(mod_exp(5, 0, 7), 1);
    assert_eq!(mod_exp(0, 5, 7), 0);
    assert_eq!(mod_exp(10, 1, 1), 0);
}

#[test]
fn mod_exp_fermat_congruence() {
    // a^(p-1) mod p == 1 for prime p and a not divisible by p
    assert_eq!(mod_exp(2, 12, 13), 1);
    assert_eq!(mod_exp(3, 100002, 100003), 1);
}

#[test]
fn mod_exp_large_operands() {
    // values near u32::MAX exercise the widened intermediate products
    assert_eq!(
        mod_exp(4294967295, 3, 4294967291),
        {
            let m = 4294967291u64;
            let b = 4294967295u64 % m;
            ((b * b % m) * b % m) as u32
        }
    );
}
