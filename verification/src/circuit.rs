//! The primality gadget and the candidate-chain circuit.
//!
//! The Fermat gadget runs the modpow gadget once per derived base against
//! the tested modulus, binds each base to its range-folding reduction
//! witness, turns each final result into an equality-test bit and combines
//! the bits into the single primality witness by field multiplication.
//! The candidate-chain circuit re-derives the hash chain, publishes every
//! examined digest as public inputs, binds the winning candidate's
//! reduction to the trace range and hands its remainder to the Fermat
//! gadget as the tested modulus.

use crate::bigint::{big_from_u64, big_value};
use crate::cs::ConstraintSystem;
use crate::errors::PrimeSnarkError;
use crate::fermat::{fermat_passes, valid_config, FermatInstance};
use crate::search::{candidate_hash, CandidateRecord, PrimalitySearchResult};
use crate::witness::ModularReductionWitness;
use vstd::arithmetic::power2::pow2;
use crate::field::{fp_reduce, fr_modulus};
use crate::gadget::{
    fr_red, modpow_constraint_count, modpow_gadget, modpow_gadget_ok, modpow_var_count,
    CircuitConfig,
};
use vstd::arithmetic::div_mod::{lemma_mod_bound, lemma_mul_mod_noop_general, lemma_small_mod};
use vstd::prelude::*;

verus! {

/// The supplied-witness clauses of one Fermat instance inside the gadget:
/// the base range-folding replay and the full modpow replay, over the
/// values the circuit variables hold.
pub open spec fn fermat_wires_ok(n: nat, fi: FermatInstance, w: nat) -> bool {
    let p = fr_modulus();
    let a = fr_red(big_value(fi.base_derivation.dividend));
    let q = fr_red(big_value(fi.base_derivation.quotient));
    let rem = fr_red(big_value(fi.base_derivation.remainder));
    let n3 = (((n + p - 3) % (p as int)) as nat);
    let bse = (rem + 2) % p;
    let e = (((n + p - 1) % (p as int)) as nat);
    &&& (q * n3 + rem) % p == a
    &&& rem < n3
    &&& modpow_gadget_ok(bse, e, n, fi.witness, w)
}

/// Spells the wires condition out over its components, for use where the
/// surrounding proof context is heavy.
proof fn lemma_wires_ok_unfold(n: nat, fi: FermatInstance, w: nat)
    ensures
        fermat_wires_ok(n, fi, w) == ((fr_red(big_value(fi.base_derivation.quotient)) * (((n
            + fr_modulus() - 3) % (fr_modulus() as int)) as nat) + fr_red(big_value(
            fi.base_derivation.remainder,
        ))) % fr_modulus() == fr_red(big_value(fi.base_derivation.dividend)) && fr_red(big_value(
            fi.base_derivation.remainder,
        )) < (((n + fr_modulus() - 3) % (fr_modulus() as int)) as nat) && modpow_gadget_ok(
            (fr_red(big_value(fi.base_derivation.remainder)) + 2) % fr_modulus(),
            (((n + fr_modulus() - 1) % (fr_modulus() as int)) as nat),
            n,
            fi.witness,
            w,
        )),
{
}

/// Whether every instance's final modpow result is one over the field.
pub open spec fn all_results_one(fis: Seq<FermatInstance>, kcount: nat) -> bool {
    forall|k: int| 0 <= k < kcount ==> fr_red(big_value(#[trigger] fis[k].witness.result)) == 1
}

/// Exact satisfiability condition of the Fermat gadget for modulus value
/// `n`: every instance's wires replay, and the primality bit equals the
/// conjunction of the per-base checks.
pub open spec fn fermat_gadget_ok(
    n: nat,
    fis: Seq<FermatInstance>,
    isp: bool,
    kcount: nat,
    w: nat,
) -> bool {
    &&& forall|k: int| 0 <= k < kcount ==> fermat_wires_ok(n, #[trigger] fis[k], w)
    &&& (isp <==> all_results_one(fis, kcount))
}

/// Constraints the Fermat gadget emits.
pub open spec fn fermat_constraint_count(kcount: nat, w: nat) -> nat {
    kcount * (modpow_constraint_count(w) + 6) + 4
}

/// Variables the Fermat gadget allocates.
pub open spec fn fermat_var_count(kcount: nat, w: nat) -> nat {
    kcount * (modpow_var_count(w) + 7) + 5
}

/// Whether the instance vectors fit the configuration, so that synthesis
/// can proceed.
pub open spec fn instances_sized(fis: Seq<FermatInstance>, cfg: CircuitConfig) -> bool {
    &&& fis.len() == cfg.num_bases
    &&& forall|k: int|
        0 <= k < fis.len() ==> (#[trigger] fis[k].witness).bits@.len() == cfg.bit_width
            && fis[k].witness.result_steps@.len() == cfg.bit_width
            && fis[k].witness.square_steps@.len() == cfg.bit_width
}

/// Checks the instance vectors against the configuration.
fn check_instances_sized(fis: &Vec<FermatInstance>, cfg: &CircuitConfig) -> (r: bool)
    ensures
        r == instances_sized(fis@, *cfg),
{
    if fis.len() != cfg.num_bases {
        return false;
    }
    let mut k: usize = 0;
    while k < fis.len()
        invariant
            k <= fis@.len(),
            fis@.len() == cfg.num_bases,
            forall|kk: int|
                0 <= kk < k ==> (#[trigger] fis@[kk].witness).bits@.len() == cfg.bit_width
                    && fis@[kk].witness.result_steps@.len() == cfg.bit_width
                    && fis@[kk].witness.square_steps@.len() == cfg.bit_width,
        decreases fis@.len() - k,
    {
        let fi = &fis[k];
        if fi.witness.bits.len() != cfg.bit_width || fi.witness.result_steps.len()
            != cfg.bit_width || fi.witness.square_steps.len() != cfg.bit_width {
            return false;
        }
        k = k + 1;
    }
    true
}

/// Emits the Fermat primality gadget against the modulus held by `n_var`.
/// Returns the handle of the primality bit.  Fails fast with
/// `ConstraintError`, leaving the system untouched, exactly when the
/// instance vectors do not fit the configuration.
#[verifier::rlimit(60)]
pub fn fermat_gadget(
    cs: &mut ConstraintSystem,
    n_var: usize,
    fis: &Vec<FermatInstance>,
    is_prime: bool,
    cfg: CircuitConfig,
) -> (res: Result<usize, PrimeSnarkError>)
    requires
        old(cs).wf(),
        n_var < old(cs).vals().len(),
        valid_config(cfg),
    ensures
        match res {
            Ok(ispvar) => {
                &&& final(cs).wf()
                &&& instances_sized(fis@, cfg)
                &&& final(cs).vals().len() == old(cs).vals().len() + fermat_var_count(
                    cfg.num_bases as nat,
                    cfg.bit_width as nat,
                )
                &&& ispvar < final(cs).vals().len()
                &&& final(cs).vals()[ispvar as int] == (if is_prime {
                    1nat
                } else {
                    0nat
                })
                &&& final(cs).constraints@.len() == old(cs).constraints@.len()
                    + fermat_constraint_count(cfg.num_bases as nat, cfg.bit_width as nat)
                &&& final(cs).publics@ == old(cs).publics@
                &&& (forall|j: int|
                    0 <= j < old(cs).vals().len() ==> final(cs).vals()[j] == old(cs).vals()[j])
                &&& (final(cs).satisfied() <==> (old(cs).satisfied() && fermat_gadget_ok(
                    old(cs).vals()[n_var as int],
                    fis@,
                    is_prime,
                    cfg.num_bases as nat,
                    cfg.bit_width as nat,
                )))
            },
            Err(e) => {
                &&& e == PrimeSnarkError::ConstraintError
                &&& *final(cs) == *old(cs)
                &&& !instances_sized(fis@, cfg)
            },
        },
{
    if !check_instances_sized(fis, &cfg) {
        return Err(PrimeSnarkError::ConstraintError);
    }
    let ghost vals0 = old(cs).vals();
    let ghost len0 = old(cs).vals().len();
    let ghost ncons0 = old(cs).constraints@.len();
    let ghost sat0 = old(cs).satisfied();
    let ghost n = vals0[n_var as int];
    let ghost p = fr_modulus();
    let ghost w = cfg.bit_width as nat;
    let ghost kcount = cfg.num_bases as nat;
    let pbig = crate::bigint::big_clone(&cs.modulus);
    let onev = cs.one_var();
    let zerov = cs.zero_var();
    proof {
        crate::field::lemma_fr_modulus_facts();
        lemma_small_mod(2, p);
        lemma_small_mod(3, p);
    }
    let threev = cs.allocate_witness(big_from_u64(3));
    let twov = cs.allocate_witness(big_from_u64(2));
    let n3v = cs.sub(n_var, threev);
    let ev = cs.sub(n_var, onev);
    let ghost n3val = (((n + p - 3) % (p as int)) as nat);
    let ghost eval = (((n + p - 1) % (p as int)) as nat);
    let ghost len_pre = cs.vals().len();
    let ghost ncons_pre = cs.constraints@.len();
    let mut acc = onev;
    let mut k: usize = 0;
    while k < cfg.num_bases
        invariant
            old(cs).wf(),
            cs.wf(),
            k <= cfg.num_bases,
            valid_config(cfg),
            instances_sized(fis@, cfg),
            w == cfg.bit_width as nat,
            kcount == cfg.num_bases as nat,
            p == fr_modulus(),
            big_value(pbig) == p,
            len0 == vals0.len(),
            n_var < len0,
            n == vals0[n_var as int],
            onev == 0,
            zerov == 1,
            len_pre == len0 + 4,
            ncons_pre == ncons0 + 2,
            threev < len_pre,
            twov < len_pre,
            n3v < len_pre,
            ev < len_pre,
            cs.vals().len() == len_pre + k * (modpow_var_count(w) + 7),
            cs.constraints@.len() == ncons_pre + k * (modpow_constraint_count(w) + 6),
            cs.publics@ == old(cs).publics@,
            cs.modulus == old(cs).modulus,
            forall|j: int| 0 <= j < len0 ==> cs.vals()[j] == vals0[j],
            cs.vals()[threev as int] == 3,
            cs.vals()[twov as int] == 2,
            n3val == (((n + p - 3) % (p as int)) as nat),
            eval == (((n + p - 1) % (p as int)) as nat),
            cs.vals()[n3v as int] == n3val,
            cs.vals()[ev as int] == eval,
            acc < cs.vals().len(),
            cs.vals()[acc as int] == (if all_results_one(fis@.take(k as int), k as nat) {
                1nat
            } else {
                0nat
            }),
            cs.satisfied() == (sat0 && (forall|kk: int|
                0 <= kk < k ==> fermat_wires_ok(n, #[trigger] fis@[kk], w))),
        decreases cfg.num_bases - k,
    {
        let ghost sat_k = cs.satisfied();
        let ghost accv = cs.vals()[acc as int];
        let fi = &fis[k];
        let ghost a = fr_red(big_value(fi.base_derivation.dividend));
        let ghost qg = fr_red(big_value(fi.base_derivation.quotient));
        let ghost remg = fr_red(big_value(fi.base_derivation.remainder));
        let av = cs.allocate_witness(fp_reduce(&fi.base_derivation.dividend, &pbig));
        let qv = cs.allocate_witness(fp_reduce(&fi.base_derivation.quotient, &pbig));
        let remv = cs.allocate_witness(fp_reduce(&fi.base_derivation.remainder, &pbig));
        let lhs = cs.mul_add(qv, n3v, remv);
        proof {
            assert(cs.vals()[lhs as int] == (qg * n3val + remg) % p);
            assert(cs.vals()[av as int] == a);
        }
        cs.enforce_equal(lhs, av);
        cs.enforce_order(remv, n3v);
        let ghost sat_c = cs.satisfied();
        proof {
            assert(sat_c == (sat_k && (qg * n3val + remg) % p == a && remg < n3val));
        }
        let basev = cs.mul_add(remv, onev, twov);
        proof {
            assert(cs.vals()[basev as int] == (remg * 1 + 2) % p);
            assert(remg * 1 == remg);
            assert(cs.vals()[basev as int] == (remg + 2) % p);
            assert(cs.vals()[ev as int] == eval);
            assert(cs.vals()[n_var as int] == n);
            assert(cs.satisfied() == sat_c);
        }
        let resv = match modpow_gadget(cs, basev, ev, n_var, &fi.witness, cfg.bit_width) {
            Ok(v) => v,
            Err(_) => {
                proof {
                    assert(false);
                }
                return Err(PrimeSnarkError::ConstraintError);
            },
        };
        proof {
            assert(cs.satisfied() == (sat_c && modpow_gadget_ok(
                (remg + 2) % p,
                eval,
                n,
                fis@[k as int].witness,
                w,
            )));
        }
        let chk = cs.is_eq(resv, onev);
        let newacc = cs.mul_add(acc, chk, zerov);
        proof {
            let rres = fr_red(big_value(fi.witness.result));
            let chkv: nat = if rres == 1 {
                1
            } else {
                0
            };
            assert(cs.vals()[chk as int] == chkv);
            assert(cs.vals()[newacc as int] == (accv * chkv + 0) % p);
            assert((accv * chkv + 0) % p == (if all_results_one(fis@.take(k + 1), (k + 1) as nat) {
                1nat
            } else {
                0nat
            })) by {
                assert(fis@.take(k + 1)[k as int] == fis@[k as int]);
                assert(forall|kk: int| 0 <= kk < k ==> fis@.take(k + 1)[kk] == fis@[kk]
                    && fis@.take(k as int)[kk] == fis@[kk]);
                if accv == 1 && chkv == 1 {
                    assert(accv * chkv + 0 == 1) by (nonlinear_arith)
                        requires
                            accv == 1,
                            chkv == 1,
                    ;
                    lemma_small_mod(1, p);
                    assert(all_results_one(fis@.take(k + 1), (k + 1) as nat)) by {
                        assert(forall|kk: int|
                            0 <= kk < k ==> fr_red(big_value(
                                #[trigger] fis@.take(k + 1)[kk].witness.result,
                            )) == 1);
                    }
                } else {
                    assert(accv * chkv == 0) by (nonlinear_arith)
                        requires
                            accv == 0 || chkv == 0,
                    ;
                    lemma_small_mod(0, p);
                    if accv == 0 {
                        let bad = choose|kk: int|
                            0 <= kk < k && fr_red(big_value(
                                #[trigger] fis@.take(k as int)[kk].witness.result,
                            )) != 1;
                        assert(fr_red(big_value(fis@.take(k + 1)[bad].witness.result)) != 1);
                        assert(!all_results_one(fis@.take(k + 1), (k + 1) as nat));
                    } else {
                        assert(fr_red(big_value(fis@.take(k + 1)[k as int].witness.result)) != 1);
                        assert(!all_results_one(fis@.take(k + 1), (k + 1) as nat));
                    }
                }
            }
            // the new content clauses equal this step's wires condition
            lemma_wires_ok_unfold(n, fis@[k as int], w);
            assert(cs.satisfied() == (sat_c && modpow_gadget_ok(
                (remg + 2) % p,
                eval,
                n,
                fis@[k as int].witness,
                w,
            )));
            assert(cs.satisfied() == (sat_k && ((qg * n3val + remg) % p == a) && (remg < n3val)
                && modpow_gadget_ok((remg + 2) % p, eval, n, fis@[k as int].witness, w)));
            assert(fermat_wires_ok(n, fis@[k as int], w) == (((qg * n3val + remg) % p == a) && (
            remg < n3val) && modpow_gadget_ok(
                (remg + 2) % p,
                eval,
                n,
                fis@[k as int].witness,
                w,
            )));
            assert(cs.satisfied() == (sat_k && fermat_wires_ok(n, fis@[k as int], w)));
            assert(cs.satisfied() == (sat0 && (forall|kk: int|
                0 <= kk < k + 1 ==> fermat_wires_ok(n, #[trigger] fis@[kk], w)))) by {
                if sat0 && (forall|kk: int| 0 <= kk < k + 1 ==> fermat_wires_ok(
                    n,
                    #[trigger] fis@[kk],
                    w,
                )) {
                    assert(forall|kk: int| 0 <= kk < k ==> fermat_wires_ok(
                        n,
                        #[trigger] fis@[kk],
                        w,
                    ));
                }
            }
        }
        acc = newacc;
        k = k + 1;
        proof {
            assert(k * (modpow_var_count(w) + 7) == (k - 1) * (modpow_var_count(w) + 7) + (
            modpow_var_count(w) + 7)) by (nonlinear_arith);
            assert(k * (modpow_constraint_count(w) + 6) == (k - 1) * (modpow_constraint_count(w)
                + 6) + (modpow_constraint_count(w) + 6)) by (nonlinear_arith);
        }
    }
    let ispv = if is_prime {
        cs.allocate_witness(big_from_u64(1))
    } else {
        cs.allocate_witness(big_from_u64(0))
    };
    cs.enforce_boolean(ispv);
    cs.enforce_equal(ispv, acc);
    proof {
        assert(fis@.take(cfg.num_bases as int) =~= fis@);
        assert(cs.satisfied() == (sat0 && (forall|kk: int|
            0 <= kk < kcount ==> fermat_wires_ok(n, #[trigger] fis@[kk], w)) && ((if is_prime {
            1nat
        } else {
            0nat
        }) == (if all_results_one(fis@, kcount) {
            1nat
        } else {
            0nat
        }))));
    }
    Ok(ispv)
}

/// The published-chain clauses: every examined digest, rejected or
/// winning, equals the digest the circuit re-derives from the seed.
pub open spec fn chain_ok(x: nat, i: nat, rejected: Seq<CandidateRecord>, winner: CandidateRecord) -> bool {
    &&& forall|j: int|
        0 <= j < i ==> (#[trigger] rejected[j]).hash_bytes@ == candidate_hash(x, j as nat)
    &&& winner.hash_bytes@ == candidate_hash(x, i)
}

/// The winner-binding clauses: the supplied reduction witness replays
/// against the packed digest over the field, with the order gadget
/// bounding the remainder by the trace range.
pub open spec fn reduction_ok(h: Seq<u8>, red: ModularReductionWitness, w: nat) -> bool {
    let p = fr_modulus();
    &&& (fr_red(big_value(red.quotient)) * fr_red(pow2(w)) + fr_red(big_value(red.remainder))) % p
        == fr_red(crate::bigint::le_bytes_value(h))
    &&& fr_red(big_value(red.remainder)) < fr_red(pow2(w))
}

/// Exact satisfiability condition of the whole candidate-chain circuit.
pub open spec fn prime_circuit_ok(x: nat, res: PrimalitySearchResult, cfg: CircuitConfig) -> bool {
    let i = res.found_index as nat;
    let w = cfg.bit_width as nat;
    &&& chain_ok(x, i, res.rejected@, res.winner)
    &&& reduction_ok(candidate_hash(x, i), res.winner_reduction, w)
    &&& fermat_gadget_ok(
        fr_red(big_value(res.winner_reduction.remainder)),
        res.instances@,
        res.is_prime,
        cfg.num_bases as nat,
        w,
    )
}

/// Constraints the full circuit holds.
pub open spec fn prime_circuit_constraint_count(i: nat, kcount: nat, w: nat) -> nat {
    32 * (i + 1) + 3 + fermat_constraint_count(kcount, w)
}

/// Variables the full circuit holds.
pub open spec fn prime_circuit_var_count(i: nat, kcount: nat, w: nat) -> nat {
    3 + 64 * (i + 1) + 5 + fermat_var_count(kcount, w)
}

/// Whether a search result is shaped so that synthesis can proceed.
pub open spec fn result_sized(res: PrimalitySearchResult, cfg: CircuitConfig) -> bool {
    &&& res.rejected@.len() == res.found_index
    &&& forall|j: int| 0 <= j < res.rejected@.len() ==> (#[trigger] res.rejected@[j]).hash_bytes@.len() == 32
    &&& res.winner.hash_bytes@.len() == 32
    &&& instances_sized(res.instances@, cfg)
}

/// Checks a search result against the configuration.
fn check_result_sized(res: &PrimalitySearchResult, cfg: &CircuitConfig) -> (r: bool)
    ensures
        r == result_sized(*res, *cfg),
{
    if res.rejected.len() as u64 != res.found_index {
        return false;
    }
    let mut j: usize = 0;
    while j < res.rejected.len()
        invariant
            j <= res.rejected@.len(),
            forall|jj: int|
                0 <= jj < j ==> (#[trigger] res.rejected@[jj]).hash_bytes@.len() == 32,
        decreases res.rejected@.len() - j,
    {
        if res.rejected[j].hash_bytes.len() != 32 {
            return false;
        }
        j = j + 1;
    }
    if res.winner.hash_bytes.len() != 32 {
        return false;
    }
    check_instances_sized(&res.instances, cfg)
}

/// Publishes one examined digest: the circuit re-derives `hash(seed+j)`
/// through the hash collaborator, and each supplied byte is a public
/// input enforced equal to the re-derived byte.
fn publish_digest(
    cs: &mut ConstraintSystem,
    seed: u64,
    j: u64,
    supplied: &Vec<u8>,
) -> (computed: Vec<u8>)
    requires
        old(cs).wf(),
        supplied@.len() == 32,
    ensures
        final(cs).wf(),
        computed@ == candidate_hash(seed as nat, j as nat),
        final(cs).vals().len() == old(cs).vals().len() + 64,
        final(cs).constraints@.len() == old(cs).constraints@.len() + 32,
        final(cs).publics@.len() == old(cs).publics@.len() + 32,
        final(cs).modulus == old(cs).modulus,
        (forall|jj: int|
            0 <= jj < old(cs).vals().len() ==> final(cs).vals()[jj] == old(cs).vals()[jj]),
        (final(cs).satisfied() <==> (old(cs).satisfied() && supplied@ == candidate_hash(
            seed as nat,
            j as nat,
        ))),
{
    let ghost sat0 = old(cs).satisfied();
    let ghost len0 = old(cs).vals().len();
    let ghost ncons0 = old(cs).constraints@.len();
    let ghost npub0 = old(cs).publics@.len();
    proof {
        crate::field::lemma_fr_modulus_facts();
        assert(fr_modulus() > 256) by {
            assert(fr_modulus() > 0x1_0000_0000_0000_0000nat);
        }
    }
    let computed = crate::search::hash_x_plus_i_native(seed, j);
    let mut b: usize = 0;
    while b < 32
        invariant
            cs.wf(),
            b <= 32,
            computed@ == candidate_hash(seed as nat, j as nat),
            computed@.len() == 32,
            supplied@.len() == 32,
            fr_modulus() > 256,
            cs.vals().len() == len0 + 2 * b,
            cs.constraints@.len() == ncons0 + b,
            cs.publics@.len() == npub0 + b,
            cs.modulus == old(cs).modulus,
            (forall|jj: int| 0 <= jj < len0 ==> cs.vals()[jj] == old(cs).vals()[jj]),
            cs.satisfied() == (sat0 && (forall|bb: int|
                0 <= bb < b ==> supplied@[bb] == computed@[bb])),
        decreases 32 - b,
    {
        let ghost sat_b = cs.satisfied();
        let ev = cs.allocate_witness(big_from_u64(computed[b] as u64));
        let pv = cs.allocate_public_input(big_from_u64(supplied[b] as u64));
        cs.enforce_equal(ev, pv);
        proof {
            assert(cs.satisfied() == (sat_b && computed@[b as int] as nat == supplied@[b as int]
                as nat));
            assert((computed@[b as int] as nat == supplied@[b as int] as nat) == (
            computed@[b as int] == supplied@[b as int]));
            assert(cs.satisfied() == (sat0 && (forall|bb: int|
                0 <= bb < b + 1 ==> supplied@[bb] == computed@[bb]))) by {
                if sat0 && (forall|bb: int| 0 <= bb < b + 1 ==> supplied@[bb] == computed@[bb]) {
                    assert(forall|bb: int| 0 <= bb < b ==> supplied@[bb] == computed@[bb]);
                }
            }
        }
        b = b + 1;
    }
    proof {
        assert(((forall|bb: int| 0 <= bb < 32 ==> supplied@[bb] == computed@[bb])) == (supplied@
            == computed@)) by {
            if forall|bb: int| 0 <= bb < 32 ==> supplied@[bb] == computed@[bb] {
                assert(supplied@ =~= computed@);
            }
        }
    }
    computed
}

/// Builds the complete candidate-chain circuit for a search result: the
/// seed as a public input, every examined digest published and re-derived,
/// the winner's reduction into the trace range, and the Fermat gadget on
/// the winning modulus.  `InputError` reports an unusable configuration;
/// `ConstraintError` a result whose vectors do not fit it.  The system is
/// satisfied exactly when the result is honest in the sense of
/// [`prime_circuit_ok`].
#[verifier::rlimit(60)]
pub fn build_prime_circuit(res: &PrimalitySearchResult, cfg: CircuitConfig) -> (out: Result<
    ConstraintSystem,
    PrimeSnarkError,
>)
    ensures
        match out {
            Ok(cs) => {
                &&& valid_config(cfg)
                &&& result_sized(*res, cfg)
                &&& cs.wf()
                &&& cs.constraints@.len() == prime_circuit_constraint_count(
                    res.found_index as nat,
                    cfg.num_bases as nat,
                    cfg.bit_width as nat,
                )
                &&& cs.vals().len() == prime_circuit_var_count(
                    res.found_index as nat,
                    cfg.num_bases as nat,
                    cfg.bit_width as nat,
                )
                &&& cs.publics@.len() == 1 + 32 * (res.found_index as nat + 1)
                &&& (cs.satisfied() <==> prime_circuit_ok(res.seed as nat, *res, cfg))
            },
            Err(e) => {
                &&& (e == PrimeSnarkError::InputError <==> !valid_config(cfg))
                &&& (valid_config(cfg) ==> e == PrimeSnarkError::ConstraintError && !result_sized(
                    *res,
                    cfg,
                ))
            },
        },
{
    if !crate::fermat::check_config(&cfg) {
        return Err(PrimeSnarkError::InputError);
    }
    if !check_result_sized(res, &cfg) {
        return Err(PrimeSnarkError::ConstraintError);
    }
    let ghost x = res.seed as nat;
    let ghost i = res.found_index as nat;
    let ghost w = cfg.bit_width as nat;
    let ghost kcount = cfg.num_bases as nat;
    let mut cs = ConstraintSystem::new();
    let pbig = crate::bigint::big_clone(&cs.modulus);
    proof {
        crate::field::lemma_fr_modulus_facts();
        assert(fr_modulus() > 0x1_0000_0000_0000_0000nat);
    }
    let _xvar = cs.allocate_public_input(big_from_u64(res.seed));
    let mut j: usize = 0;
    while j < res.rejected.len()
        invariant
            cs.wf(),
            j <= res.rejected@.len(),
            res.rejected@.len() == res.found_index,
            x == res.seed as nat,
            forall|jj: int|
                0 <= jj < res.rejected@.len() ==> (#[trigger] res.rejected@[jj]).hash_bytes@.len()
                    == 32,
            cs.vals().len() == 3 + 64 * j,
            cs.constraints@.len() == 32 * j,
            cs.publics@.len() == 1 + 32 * j,
            big_value(cs.modulus) == fr_modulus(),
            big_value(pbig) == fr_modulus(),
            cs.satisfied() == (forall|jj: int|
                0 <= jj < j ==> (#[trigger] res.rejected@[jj]).hash_bytes@ == candidate_hash(
                    x,
                    jj as nat,
                )),
        decreases res.rejected@.len() - j,
    {
        let ghost sat_j = cs.satisfied();
        let rec = &res.rejected[j];
        let _ = publish_digest(&mut cs, res.seed, j as u64, &rec.hash_bytes);
        proof {
            assert(cs.satisfied() == (sat_j && res.rejected@[j as int].hash_bytes@
                == candidate_hash(x, j as nat)));
            assert(cs.satisfied() == (forall|jj: int|
                0 <= jj < j + 1 ==> (#[trigger] res.rejected@[jj]).hash_bytes@ == candidate_hash(
                    x,
                    jj as nat,
                ))) by {
                if cs.satisfied() {
                    assert(forall|jj: int|
                        0 <= jj < j + 1 ==> (#[trigger] res.rejected@[jj]).hash_bytes@
                            == candidate_hash(x, jj as nat)) by {
                        assert(forall|jj: int|
                            0 <= jj < j ==> (#[trigger] res.rejected@[jj]).hash_bytes@
                                == candidate_hash(x, jj as nat));
                    }
                }
                if forall|jj: int|
                    0 <= jj < j + 1 ==> (#[trigger] res.rejected@[jj]).hash_bytes@
                        == candidate_hash(x, jj as nat) {
                    assert(forall|jj: int|
                        0 <= jj < j ==> (#[trigger] res.rejected@[jj]).hash_bytes@
                            == candidate_hash(x, jj as nat));
                    assert(res.rejected@[j as int].hash_bytes@ == candidate_hash(x, j as nat));
                }
            }
        }
        j = j + 1;
    }
    let ghost sat_chain = cs.satisfied();
    let computed = publish_digest(&mut cs, res.seed, res.found_index, &res.winner.hash_bytes);
    proof {
        assert(cs.satisfied() == (sat_chain && res.winner.hash_bytes@ == candidate_hash(x, i)));
        assert(cs.satisfied() == chain_ok(x, i, res.rejected@, res.winner));
    }
    let ghost sat_pub = cs.satisfied();

    // Pack the winning digest and replay its reduction to the trace range.
    let raw = crate::bigint::big_from_bytes_le(computed.as_slice());
    let hv = cs.allocate_witness(fp_reduce(&raw, &pbig));
    let maxraw = crate::fermat::get_max_val(cfg.bit_width);
    let maxv = cs.allocate_witness(fp_reduce(&maxraw, &pbig));
    let qv = cs.allocate_witness(fp_reduce(&res.winner_reduction.quotient, &pbig));
    let remv = cs.allocate_witness(fp_reduce(&res.winner_reduction.remainder, &pbig));
    let lhs = cs.mul_add(qv, maxv, remv);
    proof {
        assert(cs.vals()[lhs as int] == (fr_red(big_value(res.winner_reduction.quotient)) * fr_red(
            pow2(w),
        ) + fr_red(big_value(res.winner_reduction.remainder))) % fr_modulus());
        assert(cs.vals()[hv as int] == fr_red(crate::bigint::le_bytes_value(candidate_hash(x, i))));
    }
    cs.enforce_equal(lhs, hv);
    cs.enforce_order(remv, maxv);
    proof {
        assert(cs.satisfied() == (sat_pub && reduction_ok(
            candidate_hash(x, i),
            res.winner_reduction,
            w,
        )));
    }
    let ghost sat_red = cs.satisfied();
    let ghost nval = fr_red(big_value(res.winner_reduction.remainder));
    match fermat_gadget(&mut cs, remv, &res.instances, res.is_prime, cfg) {
        Ok(_) => {},
        Err(_) => {
            proof {
                assert(false);
            }
            return Err(PrimeSnarkError::ConstraintError);
        },
    }
    proof {
        assert(cs.satisfied() == (sat_red && fermat_gadget_ok(
            nval,
            res.instances@,
            res.is_prime,
            kcount,
            w,
        )));
        assert(cs.satisfied() == prime_circuit_ok(x, *res, cfg));
    }
    Ok(cs)
}

/// Round-trip completeness of the whole pipeline: the circuit built from
/// an honest search result is satisfied.  Together with the builder's
/// exact satisfiability contract this is the system-level round-trip law.
pub proof fn lemma_search_result_satisfies(
    x: nat,
    maxr: nat,
    cfg: CircuitConfig,
    res: PrimalitySearchResult,
)
    requires
        valid_config(cfg),
        res.wf_for(x, maxr, cfg),
    ensures
        prime_circuit_ok(x, res, cfg),
{
    let p = fr_modulus();
    let w = cfg.bit_width as nat;
    let kcount = cfg.num_bases as nat;
    let i = res.found_index as nat;
    let n = crate::search::candidate_value(x, i, w);
    let r = crate::search::search_randomness(x, i);
    crate::field::lemma_fr_modulus_facts();
    crate::field::lemma_fr_range();
    vstd::arithmetic::power2::lemma_pow2_pos(w);
    if w < 254 {
        vstd::arithmetic::power2::lemma_pow2_strictly_increases(w, 254);
    }
    assert(pow2(w) < p);
    lemma_mod_bound(crate::bigint::le_bytes_value(candidate_hash(x, i)) as int, pow2(w) as int);
    assert(n < pow2(w));
    lemma_small_mod(n, p);

    // the published chain is honest
    assert(chain_ok(x, i, res.rejected@, res.winner)) by {
        assert(forall|j: int|
            0 <= j < i ==> (#[trigger] res.rejected@[j]).wf_for(x, j as nat, w));
    }

    // the winner's reduction replays over the field
    let red = res.winner_reduction;
    let hval = crate::bigint::le_bytes_value(candidate_hash(x, i));
    assert(reduction_ok(candidate_hash(x, i), red, w)) by {
        lemma_small_mod(pow2(w), p);
        lemma_small_mod(big_value(red.remainder), p);
        assert(pow2(w) * big_value(red.quotient) + big_value(red.remainder) == hval);
        let q = big_value(red.quotient);
        let rem = big_value(red.remainder);
        assert((fr_red(q) * pow2(w) + rem) % p == hval % p) by {
            lemma_mul_mod_noop_general(q as int, pow2(w) as int, p as int);
            vstd::arithmetic::div_mod::lemma_add_mod_noop((q % p * pow2(w)) as int, rem as int, p as int);
            vstd::arithmetic::div_mod::lemma_add_mod_noop((q * pow2(w)) as int, rem as int, p as int);
            vstd::arithmetic::div_mod::lemma_mod_twice(rem as int, p as int);
            assert(q * pow2(w) == pow2(w) * q) by (nonlinear_arith);
        }
    }

    // every Fermat instance's wires replay, and all results are one
    assert(fr_red(big_value(red.remainder)) == n);
    let n3val = (((n + p - 3) % (p as int)) as nat);
    let eval = (((n + p - 1) % (p as int)) as nat);
    assert(n3val == n - 3) by {
        vstd::arithmetic::div_mod::lemma_mod_add_multiples_vanish((n - 3) as int, p as int);
        lemma_small_mod((n - 3) as nat, p);
    }
    assert(eval == n - 1) by {
        vstd::arithmetic::div_mod::lemma_mod_add_multiples_vanish((n - 1) as int, p as int);
        lemma_small_mod((n - 1) as nat, p);
    }
    assert(fermat_passes(n, r, kcount));
    assert(n > 4 && n % 2 == 1);
    assert(forall|k: nat| k < kcount ==> crate::fermat::fermat_base_passes(n, r, k));
    assert forall|k: int| 0 <= k < kcount implies fermat_wires_ok(n, #[trigger] res.instances@[k], w)
        && fr_red(big_value(res.instances@[k].witness.result)) == 1 by {
        let fi = res.instances@[k];
        assert(fi.wf_for(n, r, k as nat, w));
        let bse = crate::fermat::base_value(r, k as nat, n);
        let dq = big_value(fi.base_derivation.quotient);
        let drem = big_value(fi.base_derivation.remainder);
        let dval = crate::hash::derive_spec(r, k as nat);
        lemma_wires_ok_unfold(n, fi, w);
        // base range-folding clause
        assert(drem < n - 3);
        lemma_small_mod(drem, p);
        lemma_small_mod(dval, p);
        assert((n - 3) * dq + drem == dval);
        assert((fr_red(dq) * n3val + drem) % p == dval % p) by {
            lemma_mul_mod_noop_general(dq as int, (n - 3) as int, p as int);
            vstd::arithmetic::div_mod::lemma_add_mod_noop(
                (dq % p * (n - 3)) as int,
                drem as int,
                p as int,
            );
            vstd::arithmetic::div_mod::lemma_add_mod_noop((dq * (n - 3)) as int, drem as int, p as int);
            vstd::arithmetic::div_mod::lemma_mod_twice(drem as int, p as int);
            assert(dq * (n - 3) == (n - 3) * dq) by (nonlinear_arith);
        }
        // modpow replay clause
        assert(drem + 2 == bse) by {
            assert(dval % ((n - 3) as nat) == drem) by {
                vstd::arithmetic::div_mod::lemma_fundamental_div_mod_converse(
                    dval as int,
                    (n - 3) as int,
                    dq as int,
                    drem as int,
                );
            }
        }
        lemma_small_mod(bse, p);
        assert(((fr_red(drem) + 2) % p) == bse);
        assert(bse < n);
        lemma_small_mod((n - 1) as nat, pow2(w));
        assert(crate::witness::bits_value(fi.witness.bits@, w) == (n - 1) as nat);
        crate::gadget::lemma_honest_trace_satisfies(bse, (n - 1) as nat, n, fi.witness, w);
        // the recorded result is one
        assert(crate::fermat::fermat_base_passes(n, r, k as nat));
        assert(big_value(fi.witness.result) == vstd::arithmetic::power::pow(bse as int, (n
            - 1) as nat) % (n as int)) by {
            crate::witness::lemma_res_acc_is_pow_mod(bse, n, fi.witness.bits@, w);
        }
        assert(big_value(fi.witness.result) == 1);
        lemma_small_mod(1, p);
    }
    assert(all_results_one(res.instances@, kcount));
    assert(res.is_prime);
}

} // verus!
