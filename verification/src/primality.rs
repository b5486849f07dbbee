//! Small-number primality helpers: deterministic trial division and
//! machine-word modular exponentiation.

use vstd::arithmetic::div_mod::{
    lemma_fundamental_div_mod, lemma_mod_bound, lemma_mul_mod_noop_general, lemma_small_mod,
};
use vstd::arithmetic::mul::{lemma_mul_inequality, lemma_mul_is_commutative};
use vstd::arithmetic::power::{lemma_pow0, lemma_pow_mod_noop, lemma_pow_multiplies, lemma_square_is_pow2, pow};
use vstd::calc;
use vstd::prelude::*;

verus! {

/// Primality over the naturals: at least two, and no proper divisor.
pub open spec fn is_prime_nat(n: nat) -> bool {
    n >= 2 && forall|d: nat| 2 <= d < n ==> #[trigger] (n % d) != 0
}

/// Divisibility is transitive: a multiple of `d` is a multiple of every
/// divisor of `d`.
proof fn lemma_divides_transitive(n: nat, d: nat, k: nat)
    requires
        d > 0,
        k > 0,
        n % d == 0,
        d % k == 0,
    ensures
        n % k == 0,
{
    lemma_fundamental_div_mod(n as int, d as int);
    lemma_fundamental_div_mod(d as int, k as int);
    let q1 = n as int / d as int;
    let q2 = d as int / k as int;
    assert(n == d * q1 + 0);
    assert(d == k * q2 + 0);
    assert(n == k * (q2 * q1)) by (nonlinear_arith)
        requires
            n == d * q1,
            d == k * q2,
    ;
    assert((k * (q2 * q1)) % (k as int) == 0) by {
        lemma_mul_is_commutative(k as int, q2 * q1);
        vstd::arithmetic::div_mod::lemma_mod_multiples_basic(q2 * q1, k as int);
    }
}

/// Once trial division has cleared every candidate below `i` and `i * i`
/// exceeds `n`, no proper divisor of `n` exists at all.
proof fn lemma_no_small_factor_suffices(n: nat, i: nat)
    requires
        n >= 2,
        i >= 2,
        i * i > n,
        forall|d: nat| 2 <= d < i ==> #[trigger] (n % d) != 0,
    ensures
        forall|d: nat| 2 <= d < n ==> #[trigger] (n % d) != 0,
{
    assert forall|d: nat| 2 <= d < n implies #[trigger] (n % d) != 0 by {
        if n % d == 0 && d >= i {
            lemma_fundamental_div_mod(n as int, d as int);
            let c = n / d;
            assert(n == d * c);
            assert(c >= 1) by (nonlinear_arith)
                requires
                    n == d * c,
                    n >= 2,
                    d >= 2,
            ;
            assert(c >= 2) by (nonlinear_arith)
                requires
                    n == d * c,
                    d < n,
                    c >= 1,
            ;
            assert(c < i) by (nonlinear_arith)
                requires
                    n == d * c,
                    d >= i,
                    i * i > n,
                    c >= 1,
                    i >= 2,
            ;
            assert(n % c == 0) by {
                lemma_mul_is_commutative(d as int, c as int);
                vstd::arithmetic::div_mod::lemma_mod_multiples_basic(d as int, c as int);
            }
            assert(n % c != 0);
        }
    }
}

/// Deterministic primality by trial division over `6k +- 1` candidates.
pub fn is_prime1(n: u32) -> (r: bool)
    ensures
        r == is_prime_nat(n as nat),
{
    if n <= 1 {
        return false;
    }
    if n <= 3 {
        assert(is_prime_nat(n as nat)) by {
            assert(forall|d: nat| 2 <= d < n ==> #[trigger] ((n as nat) % d) != 0) by {
                assert(n == 2 || n == 3);
                assert(n == 3 ==> 3nat % 2nat == 1);
            }
        }
        return true;
    }
    if n % 2 == 0 {
        assert(!is_prime_nat(n as nat)) by {
            assert(2 <= 2nat < (n as nat) && (n as nat) % 2nat == 0);
        }
        return false;
    }
    if n % 3 == 0 {
        assert(!is_prime_nat(n as nat)) by {
            assert(2 <= 3nat < (n as nat) && (n as nat) % 3nat == 0);
        }
        return false;
    }
    let mut i: u32 = 5;
    proof {
        assert(forall|d: nat| 2 <= d < 5 ==> #[trigger] ((n as nat) % d) != 0) by {
            assert((n as nat) % 2nat != 0);
            assert((n as nat) % 3nat != 0);
            if (n as nat) % 4nat == 0 {
                lemma_divides_transitive(n as nat, 4, 2);
            }
        }
    }
    while i <= n / i
        invariant
            5 <= i,
            i % 6 == 5,
            n > 4,
            (n as nat) % 2nat != 0,
            (n as nat) % 3nat != 0,
            forall|d: nat| 2 <= d < i ==> #[trigger] ((n as nat) % d) != 0,
        decreases n - i,
    {
        proof {
            lemma_fundamental_div_mod(n as int, i as int);
            lemma_mul_inequality(i as int, (n / i) as int, i as int);
            assert((i as nat) * (i as nat) <= n as nat);
            assert(i < n) by (nonlinear_arith)
                requires
                    (i as nat) * (i as nat) <= n as nat,
                    i >= 5,
            ;
            assert(i + 2 < n) by (nonlinear_arith)
                requires
                    (i as nat) * (i as nat) <= n as nat,
                    i >= 5,
            ;
        }
        if n % i == 0 {
            assert(!is_prime_nat(n as nat)) by {
                assert(2 <= (i as nat) < (n as nat) && (n as nat) % (i as nat) == 0);
            }
            return false;
        }
        if n % (i + 2) == 0 {
            assert(!is_prime_nat(n as nat)) by {
                assert(2 <= ((i + 2) as nat) < (n as nat) && (n as nat) % ((i + 2) as nat) == 0);
            }
            return false;
        }
        proof {
            let t = (i as int) / 6;
            lemma_fundamental_div_mod(i as int, 6);
            assert(i == 6 * t + 5);
            assert((i + 1) % 2int == 0 && (i + 3) % 2int == 0 && (i + 5) % 2int == 0
                && (i + 4) % 3int == 0) by (nonlinear_arith)
                requires
                    i == 6 * t + 5,
                    t >= 0,
            ;
            assert forall|d: nat| 2 <= d < i + 6 implies #[trigger] ((n as nat) % d) != 0 by {
                if d >= i as nat {
                    if d == i + 1 || d == i + 3 || d == i + 5 {
                        if (n as nat) % d == 0 {
                            lemma_divides_transitive(n as nat, d, 2);
                        }
                    } else if d == i + 4 {
                        if (n as nat) % d == 0 {
                            lemma_divides_transitive(n as nat, d, 3);
                        }
                    }
                }
            }
        }
        i = i + 6;
    }
    proof {
        lemma_fundamental_div_mod(n as int, i as int);
        lemma_mod_bound(n as int, i as int);
        assert((i as nat) * (i as nat) > n as nat) by (nonlinear_arith)
            requires
                i > n / i,
                i >= 1,
                n as int == (i as int) * ((n / i) as int) + (n as int) % (i as int),
                0 <= (n as int) % (i as int) < i as int,
        ;
        lemma_no_small_factor_suffices(n as nat, i as nat);
    }
    true
}

/// Machine-word modular exponentiation by square and multiply.
pub fn mod_exp(base: u32, exponent: u32, modulus: u32) -> (r: u32)
    requires
        modulus >= 1,
    ensures
        r as int == pow(base as int, exponent as nat) % (modulus as int),
{
    let m: u64 = modulus as u64;
    let mut result: u64 = 1 % m;
    let mut b: u64 = (base as u64) % m;
    let mut e: u32 = exponent;
    proof {
        lemma_mod_bound(1, m as int);
        lemma_mod_bound(base as int, m as int);
        lemma_pow_mod_noop(base as int, exponent as nat, m as int);
        assert((result * pow(b as int, e as nat)) % (m as int) == pow(base as int, exponent as nat)
            % (m as int)) by {
            lemma_mul_mod_noop_general(1, pow(b as int, e as nat), m as int);
            assert(1 * pow(b as int, e as nat) == pow(b as int, e as nat));
        }
    }
    while e > 0
        invariant
            m == modulus,
            1 <= m <= 0xFFFF_FFFFu64,
            result < m,
            b < m,
            (result * pow(b as int, e as nat)) % (m as int) == pow(base as int, exponent as nat)
                % (m as int),
        decreases e,
    {
        let ghost r0 = result as int;
        let ghost b0 = b as int;
        let ghost e0 = e as nat;
        if e % 2 == 1 {
            proof {
                assert(result * b < 0x1_0000_0000_0000_0000) by (nonlinear_arith)
                    requires
                        result < m,
                        b < m,
                        m <= 0xFFFF_FFFFu64,
                ;
            }
            result = (result * b) % m;
            proof {
                lemma_mod_bound((r0 * b0) as int, m as int);
            }
        }
        e = e / 2;
        proof {
            assert(b * b < 0x1_0000_0000_0000_0000) by (nonlinear_arith)
                requires
                    b < m,
                    m <= 0xFFFF_FFFFu64,
            ;
        }
        b = (b * b) % m;
        proof {
            lemma_mod_bound((b0 * b0) as int, m as int);
            lemma_step_preserves(r0, b0, e0, m as int, base as int, exponent as nat);
        }
    }
    proof {
        lemma_pow0(b as int);
        assert(result * 1 == result);
        lemma_small_mod(result as nat, m as nat);
    }
    result as u32
}

/// One square-and-multiply step keeps `result * b^e` fixed modulo `m`.
proof fn lemma_step_preserves(r0: int, b0: int, e0: nat, m: int, base: int, exp: nat)
    requires
        m >= 1,
        0 <= r0 < m,
        0 <= b0 < m,
        e0 > 0,
        (r0 * pow(b0, e0)) % m == pow(base, exp) % m,
    ensures
        ((if e0 % 2 == 1 {
            (r0 * b0) % m
        } else {
            r0
        }) * pow((b0 * b0) % m, e0 / 2)) % m == pow(base, exp) % m,
{
    let b1 = (b0 * b0) % m;
    let e1 = e0 / 2;
    lemma_pow_mod_noop(b0 * b0, e1, m);
    lemma_square_is_pow2(b0);
    lemma_pow_multiplies(b0, 2, e1);
    assert(pow(b0 * b0, e1) == pow(b0, 2 * e1));
    if e0 % 2 == 1 {
        let r1 = (r0 * b0) % m;
        lemma_fundamental_div_mod(e0 as int, 2);
        assert(e0 == 2 * e1 + 1);
        assert(pow(b0, e0) == b0 * pow(b0, 2 * e1)) by {
            vstd::arithmetic::power::lemma_pow1(b0);
            vstd::arithmetic::power::lemma_pow_adds(b0, 1, 2 * e1);
        }
        calc! {
            (==)
            (r1 * pow(b1, e1)) % m; {
                lemma_mul_mod_noop_general(r0 * b0, pow(b1, e1), m);
            }
            ((r0 * b0) * (pow(b1, e1) % m)) % m; {
                lemma_mul_mod_noop_general(r0 * b0, pow(b0, 2 * e1), m);
            }
            ((r0 * b0) * pow(b0, 2 * e1)) % m; {
                assert((r0 * b0) * pow(b0, 2 * e1) == r0 * (b0 * pow(b0, 2 * e1)))
                    by (nonlinear_arith);
            }
            (r0 * pow(b0, e0)) % m; {}
            pow(base, exp) % m;
        }
    } else {
        lemma_fundamental_div_mod(e0 as int, 2);
        assert(e0 == 2 * e1);
        calc! {
            (==)
            (r0 * pow(b1, e1)) % m; {
                lemma_mul_mod_noop_general(r0, pow(b1, e1), m);
            }
            (r0 * (pow(b1, e1) % m)) % m; {
                lemma_mul_mod_noop_general(r0, pow(b0, 2 * e1), m);
            }
            (r0 * pow(b0, e0)) % m; {}
            pow(base, exp) % m;
        }
    }
}

} // verus!
