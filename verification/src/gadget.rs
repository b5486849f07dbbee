//! The modular-exponentiation verification gadget.
//!
//! Given constrained handles for base, exponent, divisor and a recorded
//! [`ExponentiationWitness`], the gadget emits the constraints that replay
//! the square-and-multiply trace over the proving field: bit consistency,
//! per-bit replay of both accumulator chains with the order gadget bounding
//! every remainder, and the final equality against the claimed result.
//! Its contract characterizes satisfiability exactly: the system stays
//! satisfied if and only if it was before and the supplied witness values
//! meet [`modpow_gadget_ok`].

use crate::bigint::{big_clone, big_from_u64, big_value};
use crate::cs::ConstraintSystem;
use crate::errors::PrimeSnarkError;
use crate::field::{fp_add, fp_reduce, fr_modulus};
use crate::witness::{bits_value, ExponentiationWitness};
use num_bigint::BigUint;
use vstd::arithmetic::div_mod::{
    lemma_add_mod_noop, lemma_mod_add_multiples_vanish, lemma_mod_bound, lemma_mod_twice,
    lemma_mul_mod_noop_general, lemma_small_mod,
};
use vstd::arithmetic::power2::pow2;
use vstd::prelude::*;

verus! {

/// The configuration every gadget is parameterized by: the number of test
/// bases and the trace bit width.
#[derive(Clone, Copy, PartialEq, Eq, Structural, Debug)]
pub struct CircuitConfig {
    pub num_bases: usize,
    pub bit_width: usize,
}

/// Reduction into the proving field.
pub open spec fn fr_red(v: nat) -> nat {
    v % fr_modulus()
}

/// The field value of the squared-base chain entering step `i`: the base
/// variable itself at step 0, afterwards the supplied remainder witness.
pub open spec fn gs(b: nat, ew: ExponentiationWitness, i: int) -> nat {
    if i == 0 {
        b
    } else {
        fr_red(big_value(ew.square_steps@[i - 1].remainder))
    }
}

/// The field value of the running-result chain entering step `i`.
pub open spec fn gr(ew: ExponentiationWitness, i: int) -> nat {
    if i == 0 {
        1
    } else {
        fr_red(big_value(ew.result_steps@[i - 1].remainder))
    }
}

/// The multiplex factor over the field.
pub open spec fn fmux(bit: bool, s: nat) -> nat {
    if bit {
        s
    } else {
        1
    }
}

/// The four replay constraints of step `i` that depend on supplied witness
/// values: both `quotient * divisor + remainder` equalities and both order
/// bounds.
pub open spec fn modpow_step_ok(b: nat, d: nat, ew: ExponentiationWitness, i: int) -> bool {
    let q = fr_red(big_value(ew.result_steps@[i].quotient));
    let r = fr_red(big_value(ew.result_steps@[i].remainder));
    let q2 = fr_red(big_value(ew.square_steps@[i].quotient));
    let r2 = fr_red(big_value(ew.square_steps@[i].remainder));
    &&& (q * d + r) % fr_modulus() == (gr(ew, i) * fmux(ew.bits@[i], gs(b, ew, i))) % fr_modulus()
    &&& r < d
    &&& (q2 * d + r2) % fr_modulus() == (gs(b, ew, i) * gs(b, ew, i)) % fr_modulus()
    &&& r2 < d
}

/// Exact satisfiability condition of the modpow gadget for base value `b`,
/// exponent value `e` and divisor value `d`: the bit decomposition sums to
/// the exponent over the field, every step replays, and the final chain
/// value equals the claimed result.
pub open spec fn modpow_gadget_ok(b: nat, e: nat, d: nat, ew: ExponentiationWitness, w: nat) -> bool {
    &&& bits_value(ew.bits@, w) % fr_modulus() == e
    &&& forall|i: int| 0 <= i < w ==> modpow_step_ok(b, d, ew, i)
    &&& gr(ew, w as int) == fr_red(big_value(ew.result))
}

/// Constraints the gadget emits for trace width `w`.
pub open spec fn modpow_constraint_count(w: nat) -> nat {
    12 * w + 2
}

/// Variables the gadget allocates for trace width `w`.
pub open spec fn modpow_var_count(w: nat) -> nat {
    13 * w
}

/// The field bit-sum accumulator after `i` terms, mirroring the emitted
/// `bit * 2^i + acc` chain.
pub open spec fn facc(bits: Seq<bool>, i: nat) -> nat
    decreases i,
{
    if i == 0 {
        0
    } else {
        ((if bits[i - 1] {
            1nat
        } else {
            0nat
        }) * fr_red(pow2((i - 1) as nat)) + facc(bits, (i - 1) as nat)) % fr_modulus()
    }
}

/// The emitted bit-sum chain computes the bit decomposition's value
/// reduced into the field.
pub proof fn lemma_facc_is_bits_value(bits: Seq<bool>, i: nat)
    ensures
        facc(bits, i) == bits_value(bits, i) % fr_modulus(),
    decreases i,
{
    crate::field::lemma_fr_modulus_facts();
    let p = fr_modulus();
    if i == 0 {
        lemma_small_mod(0, p);
    } else {
        let j = (i - 1) as nat;
        lemma_facc_is_bits_value(bits, j);
        let bv = bits_value(bits, j);
        if bits[j as int] {
            assert(facc(bits, i) == (1 * fr_red(pow2(j)) + bv % p) % p);
            assert(1 * fr_red(pow2(j)) == pow2(j) % p);
            lemma_add_mod_noop(pow2(j) as int, bv as int, p as int);
            lemma_mod_twice(pow2(j) as int, p as int);
            lemma_mod_twice(bv as int, p as int);
            assert((pow2(j) % p + bv % p) % p == (pow2(j) + bv) % p);
            assert(bits_value(bits, i) == bv + pow2(j));
        } else {
            assert(facc(bits, i) == (0 * fr_red(pow2(j)) + bv % p) % p);
            assert(0 * fr_red(pow2(j)) == 0);
            lemma_mod_twice(bv as int, p as int);
            assert(bits_value(bits, i) == bv);
        }
    }
}

/// Emits the modpow verification gadget.  Fails fast with
/// `ConstraintError`, leaving the system untouched, exactly when the
/// witness vectors do not match the configured width.
pub fn modpow_gadget(
    cs: &mut ConstraintSystem,
    base: usize,
    exp: usize,
    divisor: usize,
    ew: &ExponentiationWitness,
    width: usize,
) -> (res: Result<usize, PrimeSnarkError>)
    requires
        old(cs).wf(),
        base < old(cs).vals().len(),
        exp < old(cs).vals().len(),
        divisor < old(cs).vals().len(),
        width >= 1,
    ensures
        match res {
            Ok(rv) => {
                &&& final(cs).wf()
                &&& ew.bits@.len() == width
                &&& ew.result_steps@.len() == width
                &&& ew.square_steps@.len() == width
                &&& final(cs).vals().len() == old(cs).vals().len() + modpow_var_count(width as nat)
                &&& rv < final(cs).vals().len()
                &&& final(cs).vals()[rv as int] == fr_red(big_value(ew.result))
                &&& final(cs).constraints@.len() == old(cs).constraints@.len()
                    + modpow_constraint_count(width as nat)
                &&& final(cs).publics@ == old(cs).publics@
                &&& final(cs).modulus == old(cs).modulus
                &&& (forall|j: int|
                    0 <= j < old(cs).vals().len() ==> final(cs).vals()[j] == old(cs).vals()[j])
                &&& (final(cs).satisfied() <==> (old(cs).satisfied() && modpow_gadget_ok(
                    old(cs).vals()[base as int],
                    old(cs).vals()[exp as int],
                    old(cs).vals()[divisor as int],
                    *ew,
                    width as nat,
                )))
            },
            Err(e) => {
                &&& e == PrimeSnarkError::ConstraintError
                &&& *final(cs) == *old(cs)
                &&& !(ew.bits@.len() == width && ew.result_steps@.len() == width
                    && ew.square_steps@.len() == width)
            },
        },
{
    if !(ew.bits.len() == width && ew.result_steps.len() == width && ew.square_steps.len()
        == width) {
        return Err(PrimeSnarkError::ConstraintError);
    }
    let ghost vals0 = old(cs).vals();
    let ghost len0 = old(cs).vals().len();
    let ghost ncons0 = old(cs).constraints@.len();
    let ghost sat0 = old(cs).satisfied();
    let ghost b = vals0[base as int];
    let ghost e = vals0[exp as int];
    let ghost d = vals0[divisor as int];
    let ghost p = fr_modulus();
    let pbig = big_clone(&cs.modulus);
    let one_b = big_from_u64(1);
    let onev = cs.one_var();
    let zerov = cs.zero_var();
    proof {
        crate::field::lemma_fr_modulus_facts();
    }

    // Allocate one boolean-constrained variable per exponent bit.
    let mut bitvars: Vec<usize> = Vec::new();
    let mut i: usize = 0;
    while i < width
        invariant
            old(cs).wf(),
            cs.wf(),
            i <= width,
            width >= 1,
            ew.bits@.len() == width,
            bitvars@.len() == i,
            cs.vals().len() == len0 + i,
            cs.constraints@.len() == ncons0 + i,
            cs.publics@ == old(cs).publics@,
            cs.modulus == old(cs).modulus,
            len0 == vals0.len(),
            forall|j: int| 0 <= j < len0 ==> cs.vals()[j] == vals0[j],
            forall|j: int|
                0 <= j < i ==> (#[trigger] bitvars@[j]) < cs.vals().len() && cs.vals()[bitvars@[j] as int]
                    == (if ew.bits@[j] {
                    1nat
                } else {
                    0nat
                }),
            cs.satisfied() == sat0,
        decreases width - i,
    {
        let bv = if ew.bits[i] {
            cs.allocate_witness(big_from_u64(1))
        } else {
            cs.allocate_witness(big_from_u64(0))
        };
        cs.enforce_boolean(bv);
        bitvars.push(bv);
        i = i + 1;
    }

    // Bit-consistency: accumulate bit_i * 2^i and equate with the exponent.
    let mut pwval = big_clone(&one_b);
    let mut pw = onev;
    let mut acc = zerov;
    let mut i: usize = 0;
    proof {
        lemma_small_mod(1, p);
        assert(pow2(0) == 1) by {
            vstd::arithmetic::power2::lemma2_to64();
        }
    }
    while i < width
        invariant
            old(cs).wf(),
            cs.wf(),
            i <= width,
            width >= 1,
            ew.bits@.len() == width,
            bitvars@.len() == width,
            cs.vals().len() == len0 + width + i + (if i == width {
                (width - 1) as nat
            } else {
                i as nat
            }),
            cs.constraints@.len() == ncons0 + width + i,
            cs.publics@ == old(cs).publics@,
            cs.modulus == old(cs).modulus,
            len0 == vals0.len(),
            forall|j: int| 0 <= j < len0 ==> cs.vals()[j] == vals0[j],
            forall|j: int|
                0 <= j < width ==> (#[trigger] bitvars@[j]) < cs.vals().len()
                    && cs.vals()[bitvars@[j] as int] == (if ew.bits@[j] {
                    1nat
                } else {
                    0nat
                }),
            p == fr_modulus(),
            big_value(pbig) == p,
            pw < cs.vals().len(),
            i < width ==> cs.vals()[pw as int] == fr_red(pow2(i as nat)),
            i < width ==> big_value(pwval) == fr_red(pow2(i as nat)),
            acc < cs.vals().len(),
            cs.vals()[acc as int] == facc(ew.bits@, i as nat),
            cs.satisfied() == sat0,
        decreases width - i,
    {
        let ghost accv = cs.vals()[acc as int];
        let ghost pwv = cs.vals()[pw as int];
        let bit = bitvars[i];
        let newacc = cs.mul_add(bit, pw, acc);
        proof {
            let bv: nat = if ew.bits@[i as int] {
                1
            } else {
                0
            };
            assert(cs.vals()[newacc as int] == (bv * pwv + accv) % p);
            assert(facc(ew.bits@, (i + 1) as nat) == (bv * fr_red(pow2(i as nat)) + facc(
                ew.bits@,
                i as nat,
            )) % p);
        }
        acc = newacc;
        if i + 1 < width {
            let next = fp_add(&pwval, &pwval, &pbig);
            proof {
                lemma_add_mod_noop(pow2(i as nat) as int, pow2(i as nat) as int, p as int);
                lemma_mod_twice(pow2(i as nat) as int, p as int);
                vstd::arithmetic::power2::lemma_pow2_adds(i as nat, 1);
                assert(pow2(1) == 2) by {
                    vstd::arithmetic::power2::lemma2_to64();
                }
                assert(pow2((i + 1) as nat) == pow2(i as nat) + pow2(i as nat));
                assert(big_value(next) == fr_red(pow2((i + 1) as nat)));
            }
            pwval = next;
            pw = cs.allocate_witness(big_clone(&pwval));
        }
        i = i + 1;
    }
    let ghost len_a = cs.vals().len();
    let ghost ncons_a = cs.constraints@.len();
    cs.enforce_equal(acc, exp);
    proof {
        lemma_facc_is_bits_value(ew.bits@, width as nat);
        assert(cs.satisfied() == (sat0 && bits_value(ew.bits@, width as nat) % p == e));
    }
    let ghost sat_a = cs.satisfied();

    // Per-bit replay of both accumulator chains.
    let mut curv = base;
    let mut resv = onev;
    let mut i: usize = 0;
    while i < width
        invariant
            old(cs).wf(),
            cs.wf(),
            i <= width,
            width >= 1,
            ew.bits@.len() == width,
            ew.result_steps@.len() == width,
            ew.square_steps@.len() == width,
            bitvars@.len() == width,
            cs.vals().len() == len_a + 10 * i,
            cs.constraints@.len() == ncons_a + 1 + 10 * i,
            cs.publics@ == old(cs).publics@,
            cs.modulus == old(cs).modulus,
            len0 == vals0.len(),
            len_a >= len0,
            base < len0,
            divisor < len0,
            forall|j: int| 0 <= j < len0 ==> cs.vals()[j] == vals0[j],
            forall|j: int|
                0 <= j < width ==> (#[trigger] bitvars@[j]) < cs.vals().len()
                    && cs.vals()[bitvars@[j] as int] == (if ew.bits@[j] {
                    1nat
                } else {
                    0nat
                }),
            onev == 0,
            zerov == 1,
            curv < cs.vals().len(),
            cs.vals()[curv as int] == gs(b, *ew, i as int),
            resv < cs.vals().len(),
            cs.vals()[resv as int] == gr(*ew, i as int),
            b == vals0[base as int],
            d == vals0[divisor as int],
            p == fr_modulus(),
            big_value(pbig) == p,
            cs.satisfied() == (sat_a && (forall|j: int| 0 <= j < i ==> modpow_step_ok(b, d, *ew, j))),
        decreases width - i,
    {
        let ghost svals = cs.vals();
        let ghost sat_i = cs.satisfied();
        let ghost gsv = cs.vals()[curv as int];
        let ghost grv = cs.vals()[resv as int];
        // Multiplex factor bit * (cur - 1) + 1 as a pure field expression.
        let t1 = cs.sub(curv, onev);
        let t2 = cs.mul_add(bitvars[i], t1, onev);
        proof {
            let bv: nat = if ew.bits@[i as int] {
                1
            } else {
                0
            };
            let t1v = (gsv + p - 1) % (p as int);
            assert(cs.vals()[t2 as int] == (bv * t1v + 1) % (p as int));
            if ew.bits@[i as int] {
                assert((1 * t1v + 1) % (p as int) == gsv) by {
                    assert(1 * t1v == t1v);
                    lemma_add_mod_noop((gsv + p - 1) as int, 1, p as int);
                    lemma_mod_twice((gsv + p - 1) as int, p as int);
                    lemma_small_mod(1, p);
                    assert((t1v + 1) % (p as int) == ((gsv + p) as int) % (p as int));
                    lemma_mod_add_multiples_vanish(gsv as int, p as int);
                    lemma_small_mod(gsv, p);
                }
            } else {
                assert((0 * t1v + 1) % (p as int) == 1) by {
                    lemma_small_mod(1, p);
                }
            }
            assert(cs.vals()[t2 as int] == fmux(ew.bits@[i as int], gsv));
        }
        let prod = cs.mul_add(resv, t2, zerov);
        proof {
            assert(cs.vals()[prod as int] == (grv * fmux(ew.bits@[i as int], gsv) + 0) % p);
        }
        let qv = cs.allocate_witness(fp_reduce(&self_step_q(ew, i), &pbig));
        let rv = cs.allocate_witness(fp_reduce(&self_step_r(ew, i), &pbig));
        let lhs = cs.mul_add(qv, divisor, rv);
        cs.enforce_equal(lhs, prod);
        cs.enforce_order(rv, divisor);
        let sq = cs.mul_add(curv, curv, zerov);
        let q2v = cs.allocate_witness(fp_reduce(&self_sq_q(ew, i), &pbig));
        let r2v = cs.allocate_witness(fp_reduce(&self_sq_r(ew, i), &pbig));
        let lhs2 = cs.mul_add(q2v, divisor, r2v);
        cs.enforce_equal(lhs2, sq);
        cs.enforce_order(r2v, divisor);
        proof {
            let q = fr_red(big_value(ew.result_steps@[i as int].quotient));
            let r = fr_red(big_value(ew.result_steps@[i as int].remainder));
            let q2 = fr_red(big_value(ew.square_steps@[i as int].quotient));
            let r2 = fr_red(big_value(ew.square_steps@[i as int].remainder));
            assert(cs.vals()[lhs as int] == (q * d + r) % p);
            assert(cs.vals()[prod as int] == (grv * fmux(ew.bits@[i as int], gsv)) % p);
            assert(cs.vals()[sq as int] == (gsv * gsv + 0) % p);
            assert(cs.vals()[lhs2 as int] == (q2 * d + r2) % p);
            assert(cs.satisfied() == (sat_i && modpow_step_ok(b, d, *ew, i as int)));
            assert forall|j: int| 0 <= j < i + 1 implies modpow_step_ok(b, d, *ew, j)
                == ((j < i ==> modpow_step_ok(b, d, *ew, j)) && (j == i ==> modpow_step_ok(
                b,
                d,
                *ew,
                i as int,
            ))) by {}
        }
        resv = rv;
        curv = r2v;
        i = i + 1;
        proof {
            assert(cs.vals()[resv as int] == gr(*ew, i as int));
            assert(cs.vals()[curv as int] == gs(b, *ew, i as int));
            assert(cs.satisfied() == (sat_a && (forall|j: int|
                0 <= j < i ==> modpow_step_ok(b, d, *ew, j)))) by {
                if sat_a && (forall|j: int| 0 <= j < i ==> modpow_step_ok(b, d, *ew, j)) {
                    assert(forall|j: int| 0 <= j < i - 1 ==> modpow_step_ok(b, d, *ew, j));
                }
            }
        }
    }

    // Final equality against the claimed result.
    let resfinal = cs.allocate_witness(fp_reduce(&ew.result, &pbig));
    cs.enforce_equal(resv, resfinal);
    proof {
        assert(cs.satisfied() == (sat_a && (forall|j: int|
            0 <= j < width ==> modpow_step_ok(b, d, *ew, j)) && gr(*ew, width as int) == fr_red(
            big_value(ew.result),
        )));
    }
    Ok(resfinal)
}

/// The quotient witness of the result chain at step `i`.
fn self_step_q(ew: &ExponentiationWitness, i: usize) -> (r: &BigUint)
    requires
        i < ew.result_steps@.len(),
    ensures
        big_value(*r) == big_value(ew.result_steps@[i as int].quotient),
{
    &ew.result_steps[i].quotient
}

/// The remainder witness of the result chain at step `i`.
fn self_step_r(ew: &ExponentiationWitness, i: usize) -> (r: &BigUint)
    requires
        i < ew.result_steps@.len(),
    ensures
        big_value(*r) == big_value(ew.result_steps@[i as int].remainder),
{
    &ew.result_steps[i].remainder
}

/// The quotient witness of the squaring chain at step `i`.
fn self_sq_q(ew: &ExponentiationWitness, i: usize) -> (r: &BigUint)
    requires
        i < ew.square_steps@.len(),
    ensures
        big_value(*r) == big_value(ew.square_steps@[i as int].quotient),
{
    &ew.square_steps[i].quotient
}

/// The remainder witness of the squaring chain at step `i`.
fn self_sq_r(ew: &ExponentiationWitness, i: usize) -> (r: &BigUint)
    requires
        i < ew.square_steps@.len(),
    ensures
        big_value(*r) == big_value(ew.square_steps@[i as int].remainder),
{
    &ew.square_steps[i].remainder
}

/// Completeness of the gadget (round-trip law): a trace produced honestly
/// by the witness generator, fed back with the very values it was built
/// from, meets the gadget's satisfiability condition, so the emitted
/// system stays satisfied.
pub proof fn lemma_honest_trace_satisfies(
    b: nat,
    e: nat,
    m: nat,
    ew: ExponentiationWitness,
    w: nat,
)
    requires
        1 < m < fr_modulus(),
        b < fr_modulus(),
        e < fr_modulus(),
        ew.wf_for(b, m, w),
        bits_value(ew.bits@, w) == e,
    ensures
        modpow_gadget_ok(b, e, m, ew, w),
{
    let p = fr_modulus();
    crate::field::lemma_fr_modulus_facts();
    lemma_small_mod(e, p);
    assert forall|i: int| 0 <= i < w implies #[trigger] gs(b, ew, i) == crate::witness::square_acc(
        b,
        m,
        i as nat,
    ) && gr(ew, i) == crate::witness::res_acc(b, m, ew.bits@, i as nat) by {
        if i > 0 {
            assert(big_value(ew.square_steps@[i - 1].remainder) == crate::witness::square_acc(
                b,
                m,
                i as nat,
            ));
            assert(crate::witness::square_acc(b, m, i as nat) < m) by {
                assert(ew.square_steps@[i - 1].wf());
                assert(big_value(ew.square_steps@[i - 1].divisor) == m);
            }
            lemma_small_mod(crate::witness::square_acc(b, m, i as nat), p);
            assert(big_value(ew.result_steps@[i - 1].remainder) == crate::witness::res_acc(
                b,
                m,
                ew.bits@,
                i as nat,
            ));
            assert(crate::witness::res_acc(b, m, ew.bits@, i as nat) < m) by {
                assert(ew.result_steps@[i - 1].wf());
                assert(big_value(ew.result_steps@[i - 1].divisor) == m);
            }
            lemma_small_mod(crate::witness::res_acc(b, m, ew.bits@, i as nat), p);
        } else {
            lemma_small_mod(1, p);
        }
    }
    assert forall|i: int| 0 <= i < w implies #[trigger] modpow_step_ok(b, m, ew, i) by {
        let st = ew.result_steps@[i];
        let sq = ew.square_steps@[i];
        assert(st.wf() && big_value(st.divisor) == m);
        assert(sq.wf() && big_value(sq.divisor) == m);
        let qi = big_value(st.quotient);
        let ri = big_value(st.remainder);
        let q2i = big_value(sq.quotient);
        let r2i = big_value(sq.remainder);
        lemma_small_mod(ri, p);
        lemma_small_mod(r2i, p);
        // result chain equality over the field
        assert((fr_red(qi) * m + ri) % p == (qi * m + ri) % p) by {
            lemma_mul_mod_noop_general(qi as int, m as int, p as int);
            lemma_add_mod_noop((qi % p * m) as int, ri as int, p as int);
            lemma_add_mod_noop((qi * m) as int, ri as int, p as int);
            lemma_mod_twice(ri as int, p as int);
        }
        assert(qi * m == m * qi) by (nonlinear_arith);
        assert(big_value(st.dividend) == crate::witness::res_acc(b, m, ew.bits@, i as nat)
            * crate::witness::mux(ew.bits@[i], crate::witness::square_acc(b, m, i as nat)));
        assert(fmux(ew.bits@[i], gs(b, ew, i)) == crate::witness::mux(
            ew.bits@[i],
            crate::witness::square_acc(b, m, i as nat),
        ));
        // squaring chain equality over the field
        assert((fr_red(q2i) * m + r2i) % p == (q2i * m + r2i) % p) by {
            lemma_mul_mod_noop_general(q2i as int, m as int, p as int);
            lemma_add_mod_noop((q2i % p * m) as int, r2i as int, p as int);
            lemma_add_mod_noop((q2i * m) as int, r2i as int, p as int);
            lemma_mod_twice(r2i as int, p as int);
        }
        assert(q2i * m == m * q2i) by (nonlinear_arith);
        assert(big_value(sq.dividend) == crate::witness::square_acc(b, m, i as nat)
            * crate::witness::square_acc(b, m, i as nat));
    }
    assert(gr(ew, w as int) == fr_red(big_value(ew.result))) by {
        if w == 0 {
            lemma_small_mod(1, p);
        } else {
            assert(big_value(ew.result) == crate::witness::res_acc(b, m, ew.bits@, w));
            assert(big_value(ew.result_steps@[w - 1].remainder) == crate::witness::res_acc(
                b,
                m,
                ew.bits@,
                w,
            ));
            assert(crate::witness::res_acc(b, m, ew.bits@, w) < m) by {
                assert(ew.result_steps@[w - 1].wf());
                assert(big_value(ew.result_steps@[w - 1].divisor) == m);
            }
            lemma_small_mod(crate::witness::res_acc(b, m, ew.bits@, w), p);
        }
    }
}

/// A power of two is never divisible by the odd field modulus.
proof fn lemma_pow2_mod_fr_nonzero(k: nat)
    ensures
        pow2(k) % fr_modulus() != 0,
    decreases k,
{
    let p = fr_modulus();
    crate::field::lemma_fr_modulus_facts();
    if k == 0 {
        assert(pow2(0) == 1) by {
            vstd::arithmetic::power2::lemma2_to64();
        }
        lemma_small_mod(1, p);
    } else {
        lemma_pow2_mod_fr_nonzero((k - 1) as nat);
        let x = pow2((k - 1) as nat) % p;
        lemma_mod_bound(pow2((k - 1) as nat) as int, p as int);
        vstd::arithmetic::power2::lemma_pow2_adds((k - 1) as nat, 1);
        assert(pow2(1) == 2) by {
            vstd::arithmetic::power2::lemma2_to64();
        }
        assert(pow2(k) == pow2((k - 1) as nat) * 2);
        assert(pow2(k) % p == (x * 2) % p) by {
            lemma_mul_mod_noop_general(pow2((k - 1) as nat) as int, 2, p as int);
            lemma_small_mod(2, p);
        }
        if (x * 2) % p == 0 {
            assert(x * 2 == x + x);
            assert(0 < x + x < 2 * p);
            if x + x < p {
                lemma_small_mod((x + x) as nat, p);
                assert(false);
            } else {
                vstd::arithmetic::div_mod::lemma_fundamental_div_mod_converse(
                    (x + x) as int,
                    p as int,
                    1,
                    (x + x - p) as int,
                );
                assert(x + x == p);
                assert(p % 2 == 0) by (nonlinear_arith)
                    requires
                        p == x + x,
                ;
                assert(false);
            }
        }
    }
}

/// Flipping one bit changes the decomposition's value by exactly that
/// bit's weight.
proof fn lemma_bits_value_flip(bits: Seq<bool>, k: int, w: nat)
    requires
        0 <= k < w,
        w <= bits.len(),
    ensures
        bits[k] ==> bits_value(bits.update(k, !bits[k]), w) + pow2(k as nat) == bits_value(
            bits,
            w,
        ),
        !bits[k] ==> bits_value(bits.update(k, !bits[k]), w) == bits_value(bits, w) + pow2(
            k as nat,
        ),
    decreases w,
{
    let upd = bits.update(k, !bits[k]);
    let j = (w - 1) as nat;
    if k == w - 1 {
        assert(bits_value(upd, j) == bits_value(bits, j)) by {
            lemma_bits_value_prefix_eq(bits, upd, j);
        }
        assert(upd[w - 1] == !bits[w - 1]);
    } else {
        lemma_bits_value_flip(bits, k, j);
        assert(upd[w - 1] == bits[w - 1]);
    }
}

/// Two bit vectors that agree below `w` decompose to the same value.
proof fn lemma_bits_value_prefix_eq(xs: Seq<bool>, ys: Seq<bool>, w: nat)
    requires
        w <= xs.len(),
        w <= ys.len(),
        forall|j: int| 0 <= j < w ==> xs[j] == ys[j],
    ensures
        bits_value(xs, w) == bits_value(ys, w),
    decreases w,
{
    if w > 0 {
        lemma_bits_value_prefix_eq(xs, ys, (w - 1) as nat);
    }
}

/// Soundness probe law: take an honest witness trace, flip any single bit
/// of its exponent decomposition and leave everything else untouched; the
/// gadget's satisfiability condition is then violated, so the emitted
/// constraint system is unsatisfied.
pub proof fn lemma_bit_flip_unsatisfiable(
    b: nat,
    e: nat,
    m: nat,
    ew: ExponentiationWitness,
    flipped: ExponentiationWitness,
    w: nat,
    k: int,
)
    requires
        1 < m < fr_modulus(),
        b < fr_modulus(),
        e < fr_modulus(),
        ew.bits@.len() == w,
        bits_value(ew.bits@, w) == e,
        0 <= k < w,
        flipped.bits@ == ew.bits@.update(k, !ew.bits@[k]),
    ensures
        !(bits_value(flipped.bits@, w) % fr_modulus() == e),
        !modpow_gadget_ok(b, e, m, flipped, w),
{
    let p = fr_modulus();
    crate::field::lemma_fr_modulus_facts();
    lemma_small_mod(e, p);
    lemma_bits_value_flip(ew.bits@, k, w);
    lemma_pow2_mod_fr_nonzero(k as nat);
    let fv = bits_value(flipped.bits@, w);
    if fv % p == e {
        if ew.bits@[k] {
            assert(fv + pow2(k as nat) == e);
            assert((fv + pow2(k as nat)) % p == e);
            vstd::arithmetic::div_mod::lemma_mod_equivalence(
                fv as int,
                (fv + pow2(k as nat)) as int,
                p as int,
            );
            assert((fv + pow2(k as nat) - fv) % (p as int) == 0);
            assert(pow2(k as nat) % p == 0);
        } else {
            assert(fv == e + pow2(k as nat));
            vstd::arithmetic::div_mod::lemma_mod_equivalence(
                e as int,
                (e + pow2(k as nat)) as int,
                p as int,
            );
            assert((e + pow2(k as nat) - e) % (p as int) == 0);
            assert(pow2(k as nat) % p == 0);
        }
        assert(false);
    }
}

} // verus!
