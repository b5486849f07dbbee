//! The hash-chain candidate search.
//!
//! Candidates are `hash(seed + j)` reduced to the trace range, for `j = 0,
//! 1, 2, ...`.  The search runs the cheap native Fermat check on each
//! candidate and stops at the first one that passes, recording every
//! rejected candidate; only the winner gets the expensive witness
//! construction.  Exhausting the round bound is a distinct terminal
//! outcome, reported as `NotFoundError` and never as an empty success.

use crate::bigint::{
    big_add, big_clone, big_from_bytes_le, big_from_u64, big_lt, big_value, le_bytes_value,
};
use crate::errors::PrimeSnarkError;
use crate::fermat::{
    fermat_constructor, fermat_passes, fermat_test, get_max_val, valid_config, FermatInstance,
};
use crate::field::{fp_reduce, fr_modulus, fr_modulus_big};
use crate::gadget::CircuitConfig;
use crate::hash::{
    ser32_le, ser8_le, serialize_fr_le, serialize_u64_le, sha256_digest, sha256_of,
};
use crate::witness::{get_mod_vals, ModularReductionWitness};
use num_bigint::BigUint;
use vstd::arithmetic::div_mod::lemma_mod_bound;
use vstd::arithmetic::power2::{lemma_pow2_pos, pow2};
use vstd::prelude::*;

verus! {

/// The digest of candidate `j` for seed `x`.
pub open spec fn candidate_hash(x: nat, j: nat) -> Seq<u8> {
    sha256_of(ser32_le(x + j))
}

/// The candidate number: the digest read little-endian, reduced to the
/// trace range.
pub open spec fn candidate_value(x: nat, j: nat, w: nat) -> nat {
    le_bytes_value(candidate_hash(x, j)) % pow2(w)
}

/// The per-candidate randomness: the digest of `ser32(x+j) || hash(x+j)
/// || ser8(j)` reduced into the field.
pub open spec fn search_randomness(x: nat, j: nat) -> nat {
    le_bytes_value(sha256_of(ser32_le(x + j) + candidate_hash(x, j) + ser8_le(j))) % fr_modulus()
}

/// Whether candidate `j` passes the native multi-base Fermat check.
pub open spec fn candidate_passes(x: nat, j: nat, kcount: nat, w: nat) -> bool {
    fermat_passes(candidate_value(x, j, w), search_randomness(x, j), kcount)
}

/// One examined candidate: its index, raw digest bytes, and reduction.
pub struct CandidateRecord {
    pub index: u64,
    pub hash_bytes: Vec<u8>,
    pub reduced: BigUint,
}

impl CandidateRecord {
    /// The record is the honest evaluation of candidate `j` for seed `x`.
    pub open spec fn wf_for(self, x: nat, j: nat, w: nat) -> bool {
        &&& self.index as nat == j
        &&& self.hash_bytes@.len() == 32
        &&& self.hash_bytes@ == candidate_hash(x, j)
        &&& big_value(self.reduced) == candidate_value(x, j, w)
    }
}

/// Everything the circuit-building phase reads: the winning index, the
/// rejected chain, the winner's reduction witness, the per-candidate
/// randomness, and the Fermat instances of the winner.
pub struct PrimalitySearchResult {
    pub seed: u64,
    pub max_rounds: u64,
    pub found_index: u64,
    pub rejected: Vec<CandidateRecord>,
    pub winner: CandidateRecord,
    pub winner_reduction: ModularReductionWitness,
    pub randomness: BigUint,
    pub instances: Vec<FermatInstance>,
    pub is_prime: bool,
}

impl PrimalitySearchResult {
    /// The result records an honest, minimal-index successful search.
    pub open spec fn wf_for(self, x: nat, maxr: nat, cfg: CircuitConfig) -> bool {
        let w = cfg.bit_width as nat;
        let kcount = cfg.num_bases as nat;
        let j = self.found_index as nat;
        let n = candidate_value(x, j, w);
        &&& self.seed as nat == x
        &&& self.max_rounds as nat == maxr
        &&& j <= maxr
        &&& candidate_passes(x, j, kcount, w)
        &&& forall|i: int| 0 <= i < j ==> !(#[trigger] candidate_passes(x, i as nat, kcount, w))
        &&& self.rejected@.len() == j
        &&& forall|i: int| 0 <= i < j ==> (#[trigger] self.rejected@[i]).wf_for(x, i as nat, w)
        &&& self.winner.wf_for(x, j, w)
        &&& self.winner_reduction.wf()
        &&& big_value(self.winner_reduction.dividend) == le_bytes_value(candidate_hash(x, j))
        &&& big_value(self.winner_reduction.divisor) == pow2(w)
        &&& big_value(self.winner_reduction.remainder) == n
        &&& big_value(self.randomness) == search_randomness(x, j)
        &&& n >= 5
        &&& n % 2 == 1
        &&& self.instances@.len() == kcount
        &&& forall|k: int|
            0 <= k < kcount ==> (#[trigger] self.instances@[k]).wf_for(
                n,
                search_randomness(x, j),
                k as nat,
                w,
            )
        &&& self.is_prime
    }
}

/// The digest of `seed + i`: one link of the hash chain, natively.
pub fn hash_x_plus_i_native(x: u64, i: u64) -> (r: Vec<u8>)
    ensures
        r@ == candidate_hash(x as nat, i as nat),
        r@.len() == 32,
{
    let xb = big_from_u64(x);
    let ib = big_from_u64(i);
    let xi = big_add(&xb, &ib);
    proof {
        crate::hash::lemma_u64_sum_below_pow256(x, i);
    }
    let ser = serialize_fr_le(&xi);
    sha256_digest(ser.as_slice())
}

/// Derives the per-candidate randomness from the candidate context: the
/// digest of `ser32(x+i) || a_i || ser8(i)`, reduced into the field.
pub fn init_randomness(x_plus_i: &BigUint, a_i: &Vec<u8>, i: u64, p: &BigUint) -> (r: BigUint)
    requires
        big_value(*x_plus_i) < pow2(256),
        big_value(*p) == fr_modulus(),
    ensures
        big_value(r) == le_bytes_value(
            sha256_of(ser32_le(big_value(*x_plus_i)) + a_i@ + ser8_le(i as nat)),
        ) % fr_modulus(),
        big_value(r) < fr_modulus(),
{
    let mut buf = serialize_fr_le(x_plus_i);
    let mut hcopy: Vec<u8> = Vec::new();
    let mut bi: usize = 0;
    while bi < a_i.len()
        invariant
            bi <= a_i@.len(),
            hcopy@ == a_i@.subrange(0, bi as int),
        decreases a_i@.len() - bi,
    {
        hcopy.push(a_i[bi]);
        proof {
            assert(hcopy@ =~= a_i@.subrange(0, bi + 1));
        }
        bi = bi + 1;
    }
    proof {
        assert(hcopy@ =~= a_i@);
    }
    buf.append(&mut hcopy);
    let mut iser = serialize_u64_le(i);
    buf.append(&mut iser);
    let rh = sha256_digest(buf.as_slice());
    let rraw = big_from_bytes_le(rh.as_slice());
    fp_reduce(&rraw, p)
}

/// Evaluates candidate `j`: its record, randomness, reduction witness and
/// the native primality decision.
pub fn check_if_next_is_prime(
    x: u64,
    j: u64,
    cfg: CircuitConfig,
    p: &BigUint,
) -> (r: (CandidateRecord, BigUint, ModularReductionWitness, bool))
    requires
        valid_config(cfg),
        big_value(*p) == fr_modulus(),
    ensures
        r.0.wf_for(x as nat, j as nat, cfg.bit_width as nat),
        big_value(r.1) == search_randomness(x as nat, j as nat),
        r.2.wf(),
        big_value(r.2.dividend) == le_bytes_value(candidate_hash(x as nat, j as nat)),
        big_value(r.2.divisor) == pow2(cfg.bit_width as nat),
        big_value(r.2.remainder) == candidate_value(x as nat, j as nat, cfg.bit_width as nat),
        r.3 == candidate_passes(x as nat, j as nat, cfg.num_bases as nat, cfg.bit_width as nat),
{
    let ghost xv = x as nat;
    let ghost jv = j as nat;
    let xb = big_from_u64(x);
    let jb = big_from_u64(j);
    let xj = big_add(&xb, &jb);
    proof {
        crate::hash::lemma_u64_sum_below_pow256(x, j);
    }
    let h = hash_x_plus_i_native(x, j);
    let raw = big_from_bytes_le(h.as_slice());
    let maxval = get_max_val(cfg.bit_width);
    proof {
        lemma_pow2_pos(cfg.bit_width as nat);
    }
    let wit = get_mod_vals(&raw, &maxval);
    let n = big_clone(&wit.remainder);
    let randomness = init_randomness(&xj, &h, j, p);

    proof {
        lemma_mod_bound(
            le_bytes_value(candidate_hash(xv, jv)) as int,
            pow2(cfg.bit_width as nat) as int,
        );
    }
    let passes = fermat_test(&n, &randomness, cfg.num_bases, cfg.bit_width, p);
    let rec = CandidateRecord { index: j, hash_bytes: h, reduced: n };
    (rec, randomness, wit, passes)
}

/// Runs the bounded search.  Succeeds with the first passing candidate
/// and its full witness set; reports `InputError` on an unusable
/// configuration, `NotFoundError` when no candidate within the bound
/// passes, and `WitnessError` in the degenerate case where the first
/// passing candidate is too small to carry a Fermat witness.
pub fn search_for_prime(seed: u64, max_rounds: u64, cfg: CircuitConfig) -> (res: Result<
    PrimalitySearchResult,
    PrimeSnarkError,
>)
    ensures
        match res {
            Ok(r) => valid_config(cfg) && r.wf_for(seed as nat, max_rounds as nat, cfg),
            Err(e) => {
                &&& (e == PrimeSnarkError::InputError <==> !valid_config(cfg))
                &&& (valid_config(cfg) ==> (e == PrimeSnarkError::NotFoundError <==> forall|
                    j: nat,
                |
                    j <= max_rounds as nat ==> !candidate_passes(
                        seed as nat,
                        j,
                        cfg.num_bases as nat,
                        cfg.bit_width as nat,
                    )))
                &&& (e == PrimeSnarkError::WitnessError ==> valid_config(cfg) && exists|j: nat|
                    j <= max_rounds as nat && #[trigger] candidate_passes(
                        seed as nat,
                        j,
                        cfg.num_bases as nat,
                        cfg.bit_width as nat,
                    ) && candidate_value(seed as nat, j, cfg.bit_width as nat) <= 3)
                &&& (e == PrimeSnarkError::InputError || e == PrimeSnarkError::NotFoundError || e
                    == PrimeSnarkError::WitnessError)
            },
        },
{
    let ghost xv = seed as nat;
    let ghost w = cfg.bit_width as nat;
    let ghost kcount = cfg.num_bases as nat;
    if !crate::fermat::check_config(&cfg) {
        return Err(PrimeSnarkError::InputError);
    }
    let p = fr_modulus_big();
    let five = big_from_u64(5);
    let mut rejected: Vec<CandidateRecord> = Vec::new();
    let mut j: u64 = 0;
    loop
        invariant
            valid_config(cfg),
            w == cfg.bit_width as nat,
            kcount == cfg.num_bases as nat,
            xv == seed as nat,
            big_value(p) == fr_modulus(),
            big_value(five) == 5,
            j <= max_rounds,
            rejected@.len() == j,
            forall|i: nat| i < j as nat ==> !(#[trigger] candidate_passes(xv, i, kcount, w)),
            forall|i: int| 0 <= i < j ==> (#[trigger] rejected@[i]).wf_for(xv, i as nat, w),
        decreases max_rounds - j,
    {
        let (rec, randomness, wit, passes) = check_if_next_is_prime(seed, j, cfg, &p);
        if passes {
            if big_lt(&rec.reduced, &five) {
                proof {
                    assert(candidate_passes(xv, j as nat, kcount, w));
                    assert(candidate_value(xv, j as nat, w) <= 3) by {
                        let n = candidate_value(xv, j as nat, w);
                        if n == 4 {
                            assert(4nat % 2nat == 0);
                            assert(!fermat_passes(n, search_randomness(xv, j as nat), kcount));
                        }
                    }
                }
                return Err(PrimeSnarkError::WitnessError);
            }
            proof {
                let n = candidate_value(xv, j as nat, w);
                assert(n >= 5);
                assert(n % 2 == 1) by {
                    if n % 2 != 1 {
                        assert(n % 2 == 0 || n % 2 == 1) by {
                            assert(n % 2 < 2);
                        }
                        assert(!fermat_passes(n, search_randomness(xv, j as nat), kcount));
                    }
                }
                lemma_mod_bound(le_bytes_value(candidate_hash(xv, j as nat)) as int, pow2(w) as int);
            }
            match fermat_constructor(&randomness, &rec.reduced, cfg, &p) {
                Ok((instances, flag)) => {
                    proof {
                        assert(flag == fermat_passes(
                            candidate_value(xv, j as nat, w),
                            search_randomness(xv, j as nat),
                            kcount,
                        ));
                    }
                    return Ok(
                        PrimalitySearchResult {
                            seed,
                            max_rounds,
                            found_index: j,
                            rejected,
                            winner: rec,
                            winner_reduction: wit,
                            randomness,
                            instances,
                            is_prime: flag,
                        },
                    );
                },
                Err(_) => {
                    proof {
                        assert(false);
                    }
                    return Err(PrimeSnarkError::WitnessError);
                },
            }
        }
        rejected.push(rec);
        if j == max_rounds {
            return Err(PrimeSnarkError::NotFoundError);
        }
        j = j + 1;
    }
}

} // verus!
