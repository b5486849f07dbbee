//! A model of the collaborating constraint system.
//!
//! The proof backend consumes a set of equality constraints over the proving
//! field.  This model holds the variable assignment and the emitted
//! constraints as plain data, so that satisfiability is a spec-level
//! function the gadget contracts can talk about exactly.  Division,
//! comparison and equality tests do not exist natively in the circuit;
//! the `Lt` and `EqBit` constraint forms stand for the collaborator's
//! order-comparison and equality gadgets.
//!
//! Variable 0 always holds the constant one and variable 1 the constant
//! zero; every verified constructor and method preserves [`ConstraintSystem::wf`].

use crate::bigint::{big_add, big_eq, big_from_u64, big_lt, big_mul, big_value};
use crate::field::{fp_reduce, fr_modulus, fr_modulus_big, is_fr};
use num_bigint::BigUint;
use vstd::prelude::*;

verus! {

/// One constraint over variable handles.
#[derive(Clone, Copy)]
pub enum Constraint {
    /// `a * b + c == d` over the field.
    MulAdd { a: usize, b: usize, c: usize, d: usize },
    /// `a == b`.
    Eq { a: usize, b: usize },
    /// `out` is 1 when `a == b` and 0 otherwise: the equality-test gadget.
    EqBit { a: usize, b: usize, out: usize },
    /// `a < b` as naturals: the order-comparison gadget.
    Lt { a: usize, b: usize },
    /// `x` is 0 or 1.
    Boolean { x: usize },
}

/// Whether a constraint only mentions variables below `n`.
pub open spec fn c_wf(c: Constraint, n: nat) -> bool {
    match c {
        Constraint::MulAdd { a, b, c, d } => a < n && b < n && c < n && d < n,
        Constraint::Eq { a, b } => a < n && b < n,
        Constraint::EqBit { a, b, out } => a < n && b < n && out < n,
        Constraint::Lt { a, b } => a < n && b < n,
        Constraint::Boolean { x } => x < n,
    }
}

/// Whether an assignment satisfies one constraint.
pub open spec fn c_holds(vals: Seq<nat>, c: Constraint) -> bool {
    match c {
        Constraint::MulAdd { a, b, c, d } => (vals[a as int] * vals[b as int] + vals[c as int])
            % fr_modulus() == vals[d as int],
        Constraint::Eq { a, b } => vals[a as int] == vals[b as int],
        Constraint::EqBit { a, b, out } => vals[out as int] == (if vals[a as int] == vals[b as int] {
            1nat
        } else {
            0nat
        }),
        Constraint::Lt { a, b } => vals[a as int] < vals[b as int],
        Constraint::Boolean { x } => vals[x as int] == 0 || vals[x as int] == 1,
    }
}

/// A constraint that reads only below the common prefix of two assignments
/// holds in one exactly when it holds in the other.
pub proof fn lemma_c_holds_on_extension(vals: Seq<nat>, ext: Seq<nat>, c: Constraint)
    requires
        c_wf(c, vals.len()),
        ext.len() >= vals.len(),
        forall|j: int| 0 <= j < vals.len() ==> ext[j] == vals[j],
    ensures
        c_holds(ext, c) == c_holds(vals, c),
{
    match c {
        Constraint::MulAdd { a, b, c, d } => {
            assert(ext[a as int] == vals[a as int]);
            assert(ext[b as int] == vals[b as int]);
            assert(ext[c as int] == vals[c as int]);
            assert(ext[d as int] == vals[d as int]);
        },
        Constraint::Eq { a, b } => {
            assert(ext[a as int] == vals[a as int]);
            assert(ext[b as int] == vals[b as int]);
        },
        Constraint::EqBit { a, b, out } => {
            assert(ext[a as int] == vals[a as int]);
            assert(ext[b as int] == vals[b as int]);
            assert(ext[out as int] == vals[out as int]);
        },
        Constraint::Lt { a, b } => {
            assert(ext[a as int] == vals[a as int]);
            assert(ext[b as int] == vals[b as int]);
        },
        Constraint::Boolean { x } => {
            assert(ext[x as int] == vals[x as int]);
        },
    }
}

/// The modelled constraint system: an assignment, the emitted constraints,
/// and which variables were published as public inputs.
pub struct ConstraintSystem {
    pub assignment: Vec<BigUint>,
    pub constraints: Vec<Constraint>,
    pub publics: Vec<usize>,
    pub modulus: BigUint,
}

impl ConstraintSystem {
    /// The assigned values as naturals.
    pub open spec fn vals(self) -> Seq<nat> {
        self.assignment@.map(|i: int, b: BigUint| big_value(b))
    }

    /// Well-formedness: values reduced, constraints in range, the two
    /// pre-allocated constants in place.
    pub open spec fn wf(self) -> bool {
        &&& big_value(self.modulus) == fr_modulus()
        &&& self.vals().len() >= 2
        &&& self.vals()[0] == 1
        &&& self.vals()[1] == 0
        &&& forall|i: int| 0 <= i < self.vals().len() ==> is_fr(#[trigger] self.vals()[i])
        &&& forall|i: int|
            0 <= i < self.constraints@.len() ==> c_wf(
                #[trigger] self.constraints@[i],
                self.vals().len(),
            )
        &&& forall|i: int|
            0 <= i < self.publics@.len() ==> (#[trigger] self.publics@[i]) < self.vals().len()
    }

    /// Whether the recorded assignment satisfies every emitted constraint.
    pub open spec fn satisfied(self) -> bool {
        forall|i: int|
            0 <= i < self.constraints@.len() ==> c_holds(
                self.vals(),
                #[trigger] self.constraints@[i],
            )
    }

    /// A fresh system holding only the constants one and zero.
    pub fn new() -> (cs: ConstraintSystem)
        ensures
            cs.wf(),
            cs.satisfied(),
            cs.vals().len() == 2,
            cs.constraints@.len() == 0,
            cs.publics@.len() == 0,
    {
        let one = big_from_u64(1);
        let zero = big_from_u64(0);
        let modulus = fr_modulus_big();
        let mut assignment: Vec<BigUint> = Vec::new();
        assignment.push(one);
        assignment.push(zero);
        let cs = ConstraintSystem { assignment, constraints: Vec::new(), publics: Vec::new(), modulus };
        proof {
            assert(cs.vals() =~= seq![1nat, 0nat]);
        }
        cs
    }

    /// The handle of the constant one.
    pub fn one_var(&self) -> (r: usize)
        requires
            self.wf(),
        ensures
            r == 1 - 1,
            self.vals()[r as int] == 1,
    {
        0
    }

    /// The handle of the constant zero.
    pub fn zero_var(&self) -> (r: usize)
        requires
            self.wf(),
        ensures
            r == 1,
            self.vals()[r as int] == 0,
    {
        1
    }

    /// How many constraints have been emitted.
    pub fn num_constraints(&self) -> (r: usize)
        ensures
            r == self.constraints@.len(),
    {
        self.constraints.len()
    }

    /// How many variables have been allocated.
    pub fn num_variables(&self) -> (r: usize)
        ensures
            r == self.vals().len(),
    {
        self.assignment.len()
    }

    /// The value a handle holds.
    pub fn value_at(&self, i: usize) -> (r: &BigUint)
        requires
            i < self.vals().len(),
        ensures
            big_value(*r) == self.vals()[i as int],
    {
        &self.assignment[i]
    }

    /// Appends a value to the assignment; no constraint is emitted.
    fn push_value(&mut self, v: BigUint) -> (w: usize)
        requires
            old(self).wf(),
            is_fr(big_value(v)),
        ensures
            final(self).wf(),
            w == old(self).vals().len(),
            final(self).vals() =~= old(self).vals().push(big_value(v)),
            final(self).constraints@ == old(self).constraints@,
            final(self).publics@ == old(self).publics@,
            final(self).modulus == old(self).modulus,
            final(self).satisfied() == old(self).satisfied(),
    {
        let ghost oldself = *old(self);
        let w = self.assignment.len();
        self.assignment.push(v);
        proof {
            assert(self.vals() =~= oldself.vals().push(big_value(v)));
            assert forall|i: int| 0 <= i < self.constraints@.len() implies c_holds(
                self.vals(),
                #[trigger] self.constraints@[i],
            ) == c_holds(oldself.vals(), self.constraints@[i]) by {
                lemma_c_holds_on_extension(oldself.vals(), self.vals(), self.constraints@[i]);
            }
        }
        w
    }

    /// Allocates a witness variable holding `v`.
    pub fn allocate_witness(&mut self, v: BigUint) -> (w: usize)
        requires
            old(self).wf(),
            is_fr(big_value(v)),
        ensures
            final(self).wf(),
            w == old(self).vals().len(),
            final(self).vals() =~= old(self).vals().push(big_value(v)),
            final(self).constraints@ == old(self).constraints@,
            final(self).publics@ == old(self).publics@,
            final(self).modulus == old(self).modulus,
            final(self).satisfied() == old(self).satisfied(),
    {
        self.push_value(v)
    }

    /// Allocates a public-input variable holding `v`.
    pub fn allocate_public_input(&mut self, v: BigUint) -> (w: usize)
        requires
            old(self).wf(),
            is_fr(big_value(v)),
        ensures
            final(self).wf(),
            w == old(self).vals().len(),
            final(self).vals() =~= old(self).vals().push(big_value(v)),
            final(self).constraints@ == old(self).constraints@,
            final(self).publics@ == old(self).publics@.push(w),
            final(self).modulus == old(self).modulus,
            final(self).satisfied() == old(self).satisfied(),
    {
        let w = self.push_value(v);
        self.publics.push(w);
        w
    }

    /// Emits `a * b + c == d_new` with `d_new` freshly allocated to hold the
    /// computed value, so the new constraint is satisfied by construction.
    pub fn mul_add(&mut self, a: usize, b: usize, c: usize) -> (w: usize)
        requires
            old(self).wf(),
            a < old(self).vals().len(),
            b < old(self).vals().len(),
            c < old(self).vals().len(),
        ensures
            final(self).wf(),
            w == old(self).vals().len(),
            final(self).vals() =~= old(self).vals().push(
                (old(self).vals()[a as int] * old(self).vals()[b as int]
                    + old(self).vals()[c as int]) % fr_modulus(),
            ),
            final(self).constraints@ == old(self).constraints@.push(Constraint::MulAdd { a, b, c, d: w }),
            final(self).publics@ == old(self).publics@,
            final(self).modulus == old(self).modulus,
            final(self).satisfied() == old(self).satisfied(),
    {
        let ghost oldself = *old(self);
        let prod = big_mul(&self.assignment[a], &self.assignment[b]);
        let sum = big_add(&prod, &self.assignment[c]);
        let v = fp_reduce(&sum, &self.modulus);
        let w = self.push_value(v);
        self.constraints.push(Constraint::MulAdd { a, b, c, d: w });
        proof {
            let vals = self.vals();
            assert(c_holds(vals, Constraint::MulAdd { a, b, c, d: w }));
            assert(self.satisfied() == oldself.satisfied()) by {
                assert(forall|i: int|
                    0 <= i < oldself.constraints@.len() ==> self.constraints@[i]
                        == oldself.constraints@[i]);
            }
        }
        w
    }

    /// Emits field subtraction: a fresh variable `w` with `b + w == a`, so
    /// `w` holds `a - b` over the field; satisfied by construction.
    pub fn sub(&mut self, a: usize, b: usize) -> (w: usize)
        requires
            old(self).wf(),
            a < old(self).vals().len(),
            b < old(self).vals().len(),
        ensures
            final(self).wf(),
            w == old(self).vals().len(),
            final(self).vals() =~= old(self).vals().push(
                (((old(self).vals()[a as int] + fr_modulus() - old(self).vals()[b as int]) % (
                fr_modulus() as int)) as nat),
            ),
            final(self).constraints@ == old(self).constraints@.push(
                Constraint::MulAdd { a: b, b: 0, c: w, d: a },
            ),
            final(self).publics@ == old(self).publics@,
            final(self).modulus == old(self).modulus,
            final(self).satisfied() == old(self).satisfied(),
    {
        let ghost oldself = *old(self);
        let ghost p = fr_modulus();
        let ghost va = oldself.vals()[a as int];
        let ghost vb = oldself.vals()[b as int];
        let v = crate::field::fp_sub(&self.assignment[a], &self.assignment[b], &self.modulus);
        let w = self.push_value(v);
        self.constraints.push(Constraint::MulAdd { a: b, b: 0, c: w, d: a });
        proof {
            let vals = self.vals();
            let vw = (va + p - vb) % (p as int);
            assert(vals[w as int] == vw);
            assert(c_holds(vals, Constraint::MulAdd { a: b, b: 0, c: w, d: a })) by {
                assert(vals[b as int] == vb && vals[0] == 1 && vals[a as int] == va);
                assert(vb * 1 == vb);
                vstd::arithmetic::div_mod::lemma_add_mod_noop_right(
                    vb as int,
                    (va + p - vb) as int,
                    p as int,
                );
                assert((vb + vw) % (p as int) == (vb + (va + p - vb)) % (p as int));
                assert(vb + (va + p - vb) == va + p);
                vstd::arithmetic::div_mod::lemma_mod_add_multiples_vanish(va as int, p as int);
                vstd::arithmetic::div_mod::lemma_small_mod(va, p);
            }
            assert(self.satisfied() == oldself.satisfied()) by {
                assert(forall|i: int|
                    0 <= i < oldself.constraints@.len() ==> self.constraints@[i]
                        == oldself.constraints@[i]);
            }
        }
        w
    }

    /// Emits the equality constraint `a == b`.
    pub fn enforce_equal(&mut self, a: usize, b: usize)
        requires
            old(self).wf(),
            a < old(self).vals().len(),
            b < old(self).vals().len(),
        ensures
            final(self).wf(),
            final(self).vals() == old(self).vals(),
            final(self).constraints@ == old(self).constraints@.push(Constraint::Eq { a, b }),
            final(self).publics@ == old(self).publics@,
            final(self).modulus == old(self).modulus,
            final(self).satisfied() == (old(self).satisfied() && old(self).vals()[a as int] == old(
                self,
            ).vals()[b as int]),
    {
        self.constraints.push(Constraint::Eq { a, b });
        proof {
            let ghost oldc = old(self).constraints@;
            let ghost vals = self.vals();
            assert(vals == old(self).vals());
            assert(self.constraints@[oldc.len() as int] == (Constraint::Eq { a, b }));
            assert(forall|i: int| 0 <= i < oldc.len() ==> self.constraints@[i] == oldc[i]);
            if old(self).satisfied() && vals[a as int] == vals[b as int] {
                assert forall|i: int| 0 <= i < self.constraints@.len() implies c_holds(
                    vals,
                    #[trigger] self.constraints@[i],
                ) by {
                    if i < oldc.len() {
                        assert(c_holds(vals, oldc[i]));
                    }
                }
            }
            if self.satisfied() {
                assert forall|i: int| 0 <= i < oldc.len() implies c_holds(
                    vals,
                    #[trigger] oldc[i],
                ) by {
                    assert(c_holds(vals, self.constraints@[i]));
                }
                assert(c_holds(vals, self.constraints@[oldc.len() as int]));
            }
        }
    }

    /// Emits the order-gadget constraint `a < b`.
    pub fn enforce_order(&mut self, a: usize, b: usize)
        requires
            old(self).wf(),
            a < old(self).vals().len(),
            b < old(self).vals().len(),
        ensures
            final(self).wf(),
            final(self).vals() == old(self).vals(),
            final(self).constraints@ == old(self).constraints@.push(Constraint::Lt { a, b }),
            final(self).publics@ == old(self).publics@,
            final(self).modulus == old(self).modulus,
            final(self).satisfied() == (old(self).satisfied() && old(self).vals()[a as int] < old(
                self,
            ).vals()[b as int]),
    {
        self.constraints.push(Constraint::Lt { a, b });
        proof {
            let ghost oldc = old(self).constraints@;
            let ghost vals = self.vals();
            assert(vals == old(self).vals());
            assert(self.constraints@[oldc.len() as int] == (Constraint::Lt { a, b }));
            assert(forall|i: int| 0 <= i < oldc.len() ==> self.constraints@[i] == oldc[i]);
            if old(self).satisfied() && vals[a as int] < vals[b as int] {
                assert forall|i: int| 0 <= i < self.constraints@.len() implies c_holds(
                    vals,
                    #[trigger] self.constraints@[i],
                ) by {
                    if i < oldc.len() {
                        assert(c_holds(vals, oldc[i]));
                    }
                }
            }
            if self.satisfied() {
                assert forall|i: int| 0 <= i < oldc.len() implies c_holds(
                    vals,
                    #[trigger] oldc[i],
                ) by {
                    assert(c_holds(vals, self.constraints@[i]));
                }
                assert(c_holds(vals, self.constraints@[oldc.len() as int]));
            }
        }
    }

    /// Emits the booleanity constraint on `x`.
    pub fn enforce_boolean(&mut self, x: usize)
        requires
            old(self).wf(),
            x < old(self).vals().len(),
        ensures
            final(self).wf(),
            final(self).vals() == old(self).vals(),
            final(self).constraints@ == old(self).constraints@.push(Constraint::Boolean { x }),
            final(self).publics@ == old(self).publics@,
            final(self).modulus == old(self).modulus,
            final(self).satisfied() == (old(self).satisfied() && (old(self).vals()[x as int] == 0 || old(
                self,
            ).vals()[x as int] == 1)),
    {
        self.constraints.push(Constraint::Boolean { x });
        proof {
            let ghost oldc = old(self).constraints@;
            let ghost vals = self.vals();
            assert(vals == old(self).vals());
            assert(self.constraints@[oldc.len() as int] == (Constraint::Boolean { x }));
            assert(forall|i: int| 0 <= i < oldc.len() ==> self.constraints@[i] == oldc[i]);
            if old(self).satisfied() && (vals[x as int] == 0 || vals[x as int] == 1) {
                assert forall|i: int| 0 <= i < self.constraints@.len() implies c_holds(
                    vals,
                    #[trigger] self.constraints@[i],
                ) by {
                    if i < oldc.len() {
                        assert(c_holds(vals, oldc[i]));
                    }
                }
            }
            if self.satisfied() {
                assert forall|i: int| 0 <= i < oldc.len() implies c_holds(
                    vals,
                    #[trigger] oldc[i],
                ) by {
                    assert(c_holds(vals, self.constraints@[i]));
                }
                assert(c_holds(vals, self.constraints@[oldc.len() as int]));
            }
        }
    }

    /// Emits the equality-test gadget: a fresh variable holding 1 when
    /// `a == b` and 0 otherwise, satisfied by construction.
    pub fn is_eq(&mut self, a: usize, b: usize) -> (w: usize)
        requires
            old(self).wf(),
            a < old(self).vals().len(),
            b < old(self).vals().len(),
        ensures
            final(self).wf(),
            w == old(self).vals().len(),
            final(self).vals() =~= old(self).vals().push(
                if old(self).vals()[a as int] == old(self).vals()[b as int] {
                    1nat
                } else {
                    0nat
                },
            ),
            final(self).constraints@ == old(self).constraints@.push(Constraint::EqBit { a, b, out: w }),
            final(self).publics@ == old(self).publics@,
            final(self).modulus == old(self).modulus,
            final(self).satisfied() == old(self).satisfied(),
    {
        let ghost oldself = *old(self);
        let bit = big_eq(&self.assignment[a], &self.assignment[b]);
        let v = if bit {
            big_from_u64(1)
        } else {
            big_from_u64(0)
        };
        proof {
            crate::field::lemma_fr_modulus_facts();
        }
        let w = self.push_value(v);
        self.constraints.push(Constraint::EqBit { a, b, out: w });
        proof {
            assert(c_holds(self.vals(), Constraint::EqBit { a, b, out: w }));
            assert(self.satisfied() == oldself.satisfied()) by {
                assert(forall|i: int|
                    0 <= i < oldself.constraints@.len() ==> self.constraints@[i]
                        == oldself.constraints@[i]);
            }
        }
        w
    }

    /// Evaluates one constraint against the recorded assignment.
    fn eval_constraint(&self, c: Constraint) -> (r: bool)
        requires
            self.wf(),
            c_wf(c, self.vals().len()),
        ensures
            r == c_holds(self.vals(), c),
    {
        match c {
            Constraint::MulAdd { a, b, c, d } => {
                let prod = big_mul(&self.assignment[a], &self.assignment[b]);
                let sum = big_add(&prod, &self.assignment[c]);
                let v = fp_reduce(&sum, &self.modulus);
                big_eq(&v, &self.assignment[d])
            },
            Constraint::Eq { a, b } => big_eq(&self.assignment[a], &self.assignment[b]),
            Constraint::EqBit { a, b, out } => {
                let one = big_from_u64(1);
                let zero = big_from_u64(0);
                if big_eq(&self.assignment[a], &self.assignment[b]) {
                    big_eq(&self.assignment[out], &one)
                } else {
                    big_eq(&self.assignment[out], &zero)
                }
            },
            Constraint::Lt { a, b } => big_lt(&self.assignment[a], &self.assignment[b]),
            Constraint::Boolean { x } => {
                let one = big_from_u64(1);
                let zero = big_from_u64(0);
                big_eq(&self.assignment[x], &zero) || big_eq(&self.assignment[x], &one)
            },
        }
    }

    /// Whether the assignment satisfies every constraint.
    pub fn is_satisfied(&self) -> (r: bool)
        requires
            self.wf(),
        ensures
            r == self.satisfied(),
    {
        let mut i: usize = 0;
        let n = self.constraints.len();
        while i < n
            invariant
                self.wf(),
                i <= n,
                n == self.constraints@.len(),
                forall|j: int| 0 <= j < i ==> c_holds(self.vals(), #[trigger] self.constraints@[j]),
            decreases n - i,
        {
            let c = self.constraints[i];
            if !self.eval_constraint(c) {
                return false;
            }
            i = i + 1;
        }
        true
    }
}

} // verus!
