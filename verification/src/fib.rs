//! The seeded Fibonacci recurrence used by the declarative demo circuit.

use vstd::prelude::*;

verus! {

/// The sequence seeded with `s(0) = a`, `s(1) = b` and
/// `s(n) = s(n-1) + s(n-2)`.
pub open spec fn fib_seq(a: nat, b: nat, n: nat) -> nat
    decreases n,
{
    if n == 0 {
        a
    } else if n == 1 {
        b
    } else {
        fib_seq(a, b, (n - 1) as nat) + fib_seq(a, b, (n - 2) as nat)
    }
}

/// From index 1 on, the sequence never decreases.
pub proof fn lemma_fib_seq_monotonic(a: nat, b: nat, i: nat, j: nat)
    requires
        1 <= i <= j,
    ensures
        fib_seq(a, b, i) <= fib_seq(a, b, j),
    decreases j,
{
    if i < j {
        lemma_fib_seq_monotonic(a, b, i, (j - 1) as nat);
    }
}

/// Runs `num_of_steps` rounds of the recurrence and returns the last value
/// computed; zero rounds compute nothing and yield zero.
pub fn fibonacci(num_of_steps: usize, a: u128, b: u128) -> (r: u128)
    requires
        num_of_steps >= 1 ==> fib_seq(a as nat, b as nat, (num_of_steps + 1) as nat) <= u128::MAX,
    ensures
        num_of_steps == 0 ==> r == 0,
        num_of_steps >= 1 ==> r as nat == fib_seq(a as nat, b as nat, (num_of_steps + 1) as nat),
{
    let mut fi: u128 = 0;
    let mut fi_minus_one: u128 = b;
    let mut fi_minus_two: u128 = a;
    let ghost a0 = a as nat;
    let ghost b0 = b as nat;
    let ghost total = num_of_steps as nat;
    let mut k: usize = 0;
    while k < num_of_steps
        invariant
            k <= num_of_steps,
            total == num_of_steps as nat,
            total >= 1 ==> fib_seq(a0, b0, (total + 1) as nat) <= u128::MAX,
            fi_minus_two as nat == fib_seq(a0, b0, k as nat),
            fi_minus_one as nat == (if k == 0 {
                b0
            } else {
                fib_seq(a0, b0, (k + 1) as nat)
            }),
            k == 0 ==> fi == 0,
            k >= 1 ==> fi as nat == fib_seq(a0, b0, (k + 1) as nat),
        decreases num_of_steps - k,
    {
        proof {
            assert(fib_seq(a0, b0, (k + 2) as nat) == fib_seq(a0, b0, (k + 1) as nat) + fib_seq(
                a0,
                b0,
                k as nat,
            ));
            if k + 2 <= total {
                lemma_fib_seq_monotonic(a0, b0, (k + 2) as nat, (total + 1) as nat);
            }
            assert(fi_minus_one as nat + fi_minus_two as nat == fib_seq(a0, b0, (k + 2) as nat))
                by {
                if k == 0 {
                    assert(fib_seq(a0, b0, 2) == b0 + a0);
                }
            }
        }
        let new_fi = fi_minus_one + fi_minus_two;
        fi_minus_two = fi_minus_one;
        fi_minus_one = new_fi;
        fi = new_fi;
        k = k + 1;
        proof {
            if k == 1 {
                assert(fib_seq(a0, b0, 1) == b0);
            }
        }
    }
    fi
}

} // verus!
