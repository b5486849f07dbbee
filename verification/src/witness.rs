//! Witness generation for modular exponentiation.
//!
//! The generator runs the real square-and-multiply computation natively,
//! over arbitrary-precision naturals, and records one modular-reduction
//! witness per accumulator per bit.  The circuit gadgets never recompute
//! any of this; they only replay the recorded trace.

use crate::bigint::{big_clone, big_div_rem, big_eq, big_from_u64, big_mul, big_value};
use num_bigint::BigUint;
use vstd::arithmetic::div_mod::{
    lemma_div_denominator, lemma_fundamental_div_mod, lemma_fundamental_div_mod_converse,
    lemma_mod_bound, lemma_mul_mod_noop_general, lemma_small_mod,
};
use vstd::arithmetic::power::{lemma_pow0, lemma_pow1, lemma_pow_adds, pow};
use vstd::arithmetic::power2::{lemma_pow2_adds, lemma_pow2_pos, pow2};
use vstd::prelude::*;

verus! {

/// One recorded reduction `dividend = divisor * quotient + remainder`.
pub struct ModularReductionWitness {
    pub dividend: BigUint,
    pub divisor: BigUint,
    pub quotient: BigUint,
    pub remainder: BigUint,
}

impl ModularReductionWitness {
    /// The defining invariant of every reduction witness.
    pub open spec fn wf(self) -> bool {
        &&& big_value(self.divisor) * big_value(self.quotient) + big_value(self.remainder)
            == big_value(self.dividend)
        &&& big_value(self.remainder) < big_value(self.divisor)
    }
}

/// Records the Euclidean reduction of `num` by `div`.
pub fn get_mod_vals(num: &BigUint, div: &BigUint) -> (r: ModularReductionWitness)
    requires
        big_value(*div) > 0,
    ensures
        r.wf(),
        big_value(r.dividend) == big_value(*num),
        big_value(r.divisor) == big_value(*div),
        big_value(r.quotient) == big_value(*num) / big_value(*div),
        big_value(r.remainder) == big_value(*num) % big_value(*div),
{
    let (q, rem) = big_div_rem(num, div);
    proof {
        lemma_fundamental_div_mod(big_value(*num) as int, big_value(*div) as int);
        lemma_mod_bound(big_value(*num) as int, big_value(*div) as int);
    }
    ModularReductionWitness {
        dividend: big_clone(num),
        divisor: big_clone(div),
        quotient: q,
        remainder: rem,
    }
}

/// Bit `j` of the little-endian binary expansion of `e`.
pub open spec fn nat_bit(e: nat, j: nat) -> bool {
    (e / pow2(j)) % 2 == 1
}

/// The number written by the first `i` bits.
pub open spec fn bits_value(bits: Seq<bool>, i: nat) -> nat
    decreases i,
{
    if i == 0 {
        0
    } else {
        bits_value(bits, (i - 1) as nat) + (if bits[i - 1] {
            pow2((i - 1) as nat)
        } else {
            0
        })
    }
}

/// The squared-base accumulator before step `i`: the base itself at step 0,
/// afterwards the previous square reduced by `m`.
pub open spec fn square_acc(b: nat, m: nat, i: nat) -> nat
    decreases i,
{
    if i == 0 {
        b
    } else {
        (square_acc(b, m, (i - 1) as nat) * square_acc(b, m, (i - 1) as nat)) % m
    }
}

/// The multiplex factor of one step: the current squared base when the bit
/// is set, the multiplicative identity otherwise.
pub open spec fn mux(bit: bool, s: nat) -> nat {
    if bit {
        s
    } else {
        1
    }
}

/// The running-result accumulator before step `i`.
pub open spec fn res_acc(b: nat, m: nat, bits: Seq<bool>, i: nat) -> nat
    decreases i,
{
    if i == 0 {
        1
    } else {
        (res_acc(b, m, bits, (i - 1) as nat) * mux(
            bits[i - 1],
            square_acc(b, m, (i - 1) as nat),
        )) % m
    }
}

/// The full recorded trace of one exponentiation.
pub struct ExponentiationWitness {
    pub bits: Vec<bool>,
    pub result_steps: Vec<ModularReductionWitness>,
    pub square_steps: Vec<ModularReductionWitness>,
    pub result: BigUint,
}

impl ExponentiationWitness {
    /// The trace is exactly the honest replay of width-`w` square-and-
    /// multiply for base `b` modulo `m`: every step is a well-formed
    /// reduction of the value the algorithm feeds it.
    pub open spec fn wf_for(self, b: nat, m: nat, w: nat) -> bool {
        &&& self.bits@.len() == w
        &&& self.result_steps@.len() == w
        &&& self.square_steps@.len() == w
        &&& forall|i: int|
            0 <= i < w ==> (#[trigger] self.square_steps@[i]).wf()
                && big_value(self.square_steps@[i].divisor) == m
                && big_value(self.square_steps@[i].dividend) == square_acc(b, m, i as nat)
                    * square_acc(b, m, i as nat)
                && big_value(self.square_steps@[i].remainder) == square_acc(b, m, (i + 1) as nat)
        &&& forall|i: int|
            0 <= i < w ==> (#[trigger] self.result_steps@[i]).wf()
                && big_value(self.result_steps@[i].divisor) == m
                && big_value(self.result_steps@[i].dividend) == res_acc(b, m, self.bits@, i as nat)
                    * mux(self.bits@[i], square_acc(b, m, i as nat))
                && big_value(self.result_steps@[i].remainder) == res_acc(
                b,
                m,
                self.bits@,
                (i + 1) as nat,
            )
        &&& big_value(self.result) == res_acc(b, m, self.bits@, w)
    }
}

/// Generates the witness trace for `base ^ exp mod modulus` with a fixed
/// trace width.  Exponent bits beyond the width are silently treated as
/// zero, so the certified result is `base ^ (exp mod 2^width) mod modulus`.
pub fn mod_pow_generate_witnesses(
    base: &BigUint,
    modulus: &BigUint,
    exp: &BigUint,
    width: usize,
) -> (r: ExponentiationWitness)
    requires
        big_value(*modulus) > 1,
    ensures
        r.wf_for(big_value(*base), big_value(*modulus), width as nat),
        forall|j: int| 0 <= j < width ==> r.bits@[j] == nat_bit(big_value(*exp), j as nat),
        bits_value(r.bits@, width as nat) == big_value(*exp) % pow2(width as nat),
        big_value(r.result) == pow(big_value(*base) as int, (big_value(*exp) % pow2(
            width as nat,
        )) as nat) % (big_value(*modulus) as int),
{
    let one = big_from_u64(1);
    let two = big_from_u64(2);
    let ghost e0 = big_value(*exp);
    let ghost b0 = big_value(*base);
    let ghost m0 = big_value(*modulus);

    // Bit decomposition of the exponent, least-significant first.
    let mut bits: Vec<bool> = Vec::new();
    let mut e = big_clone(exp);
    let mut i: usize = 0;
    proof {
        assert(pow2(0) == 1) by {
            vstd::arithmetic::power2::lemma2_to64();
        }
    }
    while i < width
        invariant
            i <= width,
            bits@.len() == i,
            big_value(one) == 1,
            big_value(two) == 2,
            big_value(e) == e0 / pow2(i as nat),
            forall|j: int| 0 <= j < i ==> bits@[j] == nat_bit(e0, j as nat),
        decreases width - i,
    {
        let (q, rem) = big_div_rem(&e, &two);
        let bit = big_eq(&rem, &one);
        proof {
            assert(big_value(one) == 1);
            lemma_pow2_pos(i as nat);
            lemma_div_denominator(e0 as int, pow2(i as nat) as int, 2);
            lemma_pow2_adds(i as nat, 1);
            assert(pow2(1) == 2) by {
                vstd::arithmetic::power2::lemma2_to64();
            }
            assert(big_value(q) == e0 / pow2((i + 1) as nat));
            assert(bit == nat_bit(e0, i as nat));
        }
        bits.push(bit);
        e = q;
        i = i + 1;
    }

    // The two accumulator chains, one reduction witness each per bit.
    let mut result_steps: Vec<ModularReductionWitness> = Vec::new();
    let mut square_steps: Vec<ModularReductionWitness> = Vec::new();
    let mut res = big_clone(&one);
    let mut cur = big_clone(base);
    let mut k: usize = 0;
    while k < width
        invariant
            k <= width,
            big_value(*modulus) == m0,
            m0 > 1,
            bits@.len() == width,
            big_value(one) == 1,
            result_steps@.len() == k,
            square_steps@.len() == k,
            big_value(res) == res_acc(b0, m0, bits@, k as nat),
            big_value(cur) == square_acc(b0, m0, k as nat),
            forall|i: int|
                0 <= i < k ==> (#[trigger] square_steps@[i]).wf()
                    && big_value(square_steps@[i].divisor) == m0
                    && big_value(square_steps@[i].dividend) == square_acc(b0, m0, i as nat)
                        * square_acc(b0, m0, i as nat)
                    && big_value(square_steps@[i].remainder) == square_acc(b0, m0, (i + 1) as nat),
            forall|i: int|
                0 <= i < k ==> (#[trigger] result_steps@[i]).wf()
                    && big_value(result_steps@[i].divisor) == m0
                    && big_value(result_steps@[i].dividend) == res_acc(b0, m0, bits@, i as nat)
                        * mux(bits@[i], square_acc(b0, m0, i as nat))
                    && big_value(result_steps@[i].remainder) == res_acc(
                    b0,
                    m0,
                    bits@,
                    (i + 1) as nat,
                ),
        decreases width - k,
    {
        let factor = if bits[k] {
            big_clone(&cur)
        } else {
            big_clone(&one)
        };
        assert(big_value(factor) == mux(bits@[k as int], square_acc(b0, m0, k as nat)));
        let prod = big_mul(&res, &factor);
        let w = get_mod_vals(&prod, modulus);
        assert(big_value(w.remainder) == res_acc(b0, m0, bits@, (k + 1) as nat));
        res = big_clone(&w.remainder);
        result_steps.push(w);

        let sq = big_mul(&cur, &cur);
        let w2 = get_mod_vals(&sq, modulus);
        assert(big_value(w2.remainder) == square_acc(b0, m0, (k + 1) as nat));
        cur = big_clone(&w2.remainder);
        square_steps.push(w2);
        k = k + 1;
    }

    proof {
        lemma_bits_value_is_mod(e0, bits@, width as nat);
        lemma_res_acc_is_pow_mod(b0, m0, bits@, width as nat);
    }
    ExponentiationWitness { bits, result_steps, square_steps, result: res }
}

/// The squared-base accumulator stays congruent to `b ^ 2^i`, and is
/// reduced from the first step on.
pub proof fn lemma_square_acc_is_pow_mod(b: nat, m: nat, i: nat)
    requires
        m > 1,
    ensures
        square_acc(b, m, i) % m == pow(b as int, pow2(i)) % (m as int),
        i >= 1 ==> square_acc(b, m, i) < m,
    decreases i,
{
    if i == 0 {
        lemma_pow1(b as int);
        assert(pow2(0) == 1) by {
            vstd::arithmetic::power2::lemma2_to64();
        }
    } else {
        let j = (i - 1) as nat;
        lemma_square_acc_is_pow_mod(b, m, j);
        let s = square_acc(b, m, j);
        let p = pow(b as int, pow2(j));
        lemma_mul_mod_noop_general(s as int, s as int, m as int);
        assert((s * s) % m == ((s % m) * (s % m)) % m);
        lemma_mul_mod_noop_general(p, p, m as int);
        assert(((s % m) * (s % m)) % m == (p * p) % (m as int));
        lemma_pow_adds(b as int, pow2(j), pow2(j));
        lemma_pow2_adds(j, 1);
        assert(pow2(1) == 2) by {
            vstd::arithmetic::power2::lemma2_to64();
        }
        assert(pow2(i) == pow2(j) + pow2(j));
        lemma_mod_bound((s * s) as int, m as int);
        lemma_small_mod(square_acc(b, m, i), m);
    }
}

/// The running-result accumulator equals `b ^ bits_value` reduced by `m`.
pub proof fn lemma_res_acc_is_pow_mod(b: nat, m: nat, bits: Seq<bool>, i: nat)
    requires
        m > 1,
        i <= bits.len(),
    ensures
        res_acc(b, m, bits, i) == pow(b as int, bits_value(bits, i)) % (m as int),
        res_acc(b, m, bits, i) < m,
    decreases i,
{
    if i == 0 {
        lemma_small_mod(1, m);
        lemma_pow0(b as int);
    } else {
        let j = (i - 1) as nat;
        lemma_res_acc_is_pow_mod(b, m, bits, j);
        lemma_square_acc_is_pow_mod(b, m, j);
        let r = res_acc(b, m, bits, j);
        let v = bits_value(bits, j);
        if bits[j as int] {
            let s = square_acc(b, m, j);
            lemma_mul_mod_noop_general(r as int, s as int, m as int);
            lemma_small_mod(r, m);
            assert((r * s) % m == ((pow(b as int, v) % (m as int)) * (pow(b as int, pow2(j)) % (
            m as int))) % (m as int));
            lemma_mul_mod_noop_general(pow(b as int, v), pow(b as int, pow2(j)), m as int);
            lemma_pow_adds(b as int, v, pow2(j));
            assert(res_acc(b, m, bits, i) == pow(b as int, (v + pow2(j)) as nat) % (m as int));
            assert(bits_value(bits, i) == v + pow2(j));
        } else {
            assert(res_acc(b, m, bits, i) == (r * 1) % m);
            assert(r * 1 == r);
            lemma_small_mod(r, m);
            assert(bits_value(bits, i) == v);
        }
        lemma_mod_bound(pow(b as int, bits_value(bits, i)), m as int);
    }
}

/// A faithful bit decomposition reassembles to the exponent reduced by the
/// trace width.
pub proof fn lemma_bits_value_is_mod(e: nat, bits: Seq<bool>, w: nat)
    requires
        bits.len() >= w,
        forall|j: int| 0 <= j < w ==> bits[j] == nat_bit(e, j as nat),
    ensures
        bits_value(bits, w) == e % pow2(w),
        bits_value(bits, w) < pow2(w),
{
    lemma_bits_value_decomposition(e, bits, w);
    lemma_pow2_pos(w);
    assert(pow2(w) * (e / pow2(w)) == (e / pow2(w)) * pow2(w)) by (nonlinear_arith);
    lemma_fundamental_div_mod_converse(
        e as int,
        pow2(w) as int,
        (e / pow2(w)) as int,
        bits_value(bits, w) as int,
    );
}

/// The partial sums satisfy `bits_value(i) + 2^i * (e / 2^i) == e`.
proof fn lemma_bits_value_decomposition(e: nat, bits: Seq<bool>, i: nat)
    requires
        bits.len() >= i,
        forall|j: int| 0 <= j < i ==> bits[j] == nat_bit(e, j as nat),
    ensures
        bits_value(bits, i) + pow2(i) * (e / pow2(i)) == e,
        bits_value(bits, i) < pow2(i),
    decreases i,
{
    if i == 0 {
        assert(pow2(0) == 1) by {
            vstd::arithmetic::power2::lemma2_to64();
        }
    } else {
        let j = (i - 1) as nat;
        lemma_bits_value_decomposition(e, bits, j);
        let q = e / pow2(j);
        lemma_pow2_pos(j);
        lemma_div_denominator(e as int, pow2(j) as int, 2);
        lemma_pow2_adds(j, 1);
        assert(pow2(1) == 2) by {
            vstd::arithmetic::power2::lemma2_to64();
        }
        assert(e / pow2(i) == q / 2);
        lemma_fundamental_div_mod(q as int, 2);
        let bitv: nat = q % 2;
        assert(q == 2 * (q / 2) + bitv);
        assert(bits[j as int] == (bitv == 1));
        assert(bitv == 0 || bitv == 1);
        assert(bits_value(bits, i) == bits_value(bits, j) + bitv * pow2(j)) by {
            if bits[j as int] {
                assert(bitv == 1);
            } else {
                assert(bitv * pow2(j) == 0);
            }
        }
        assert(pow2(j) * q == pow2(j) * (2 * (q / 2)) + pow2(j) * bitv) by (nonlinear_arith)
            requires
                q == 2 * (q / 2) + bitv,
        ;
        assert(pow2(j) * (2 * (q / 2)) == pow2(i) * (q / 2)) by (nonlinear_arith)
            requires
                pow2(i) == pow2(j) * 2,
        ;
        assert(bits_value(bits, i) + pow2(i) * (e / pow2(i)) == e) by {
            assert(bits_value(bits, j) + pow2(j) * q == e);
            assert(bitv * pow2(j) == pow2(j) * bitv) by (nonlinear_arith);
        }
        assert(bits_value(bits, i) < pow2(i)) by {
            assert(bitv * pow2(j) <= pow2(j));
        }
    }
}

/// Exponents within the trace width are certified exactly: no truncation.
pub proof fn lemma_small_exponent_exact(e: nat, w: nat)
    requires
        e < pow2(w),
    ensures
        e % pow2(w) == e,
{
    lemma_small_mod(e, pow2(w));
}

} // verus!
