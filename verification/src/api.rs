//! Request shapes and the top-level compute pipeline.
//!
//! The structs here mirror the JSON request bodies the service accepts;
//! they carry plain values only.  The pipeline functions do everything
//! that can be decided without the proof backend: run the search, build
//! the witness set and synthesize the constraint system.  Key setup,
//! proving and verification belong to the backend collaborator and happen
//! outside this crate.

use crate::circuit::{build_prime_circuit, prime_circuit_constraint_count, prime_circuit_ok, prime_circuit_var_count};
use crate::cs::ConstraintSystem;
use crate::errors::PrimeSnarkError;
use crate::fermat::valid_config;
use crate::gadget::CircuitConfig;
use crate::search::{search_for_prime, PrimalitySearchResult};
use vstd::prelude::*;

verus! {

/// A generate request: the seed and the round bound.
pub struct InputData {
    pub x: u64,
    pub num_of_rounds: u64,
}

/// A prove request for the prime pipeline.
pub struct ProveInput {
    pub x: u64,
    pub i: u64,
}

/// A verify request: the claimed index, the seed, and the encoded proof
/// artifacts.
pub struct VerifyInput {
    pub j: u64,
    pub x: u64,
    pub proof: String,
    pub pvk: String,
}

/// A prove request for the machine-word pipeline.
pub struct ProvePayload {
    pub n: u32,
    pub num_of_rounds: u32,
}

/// A verify request carrying encoded artifacts only.
pub struct VerifyPayload {
    pub proof: String,
    pub vkey: String,
}

/// A Fibonacci prove request.
pub struct InputDataFib {
    pub a: u64,
    pub b: u64,
    pub num_of_rounds: usize,
}

/// A Fibonacci verify request.
pub struct InputDataFibVer {
    pub proof: String,
    pub pvk: String,
    pub fib_number: u128,
    pub a: u64,
    pub b: u64,
}

/// Runs the whole compute phase of a prove request: search the hash chain,
/// record the winner's witnesses, and synthesize the satisfied circuit.
/// The backend then only needs setup, prove and verify on the returned
/// system.
pub fn prove_prime(x: u64, num_of_rounds: u64, cfg: CircuitConfig) -> (res: Result<
    (PrimalitySearchResult, ConstraintSystem),
    PrimeSnarkError,
>)
    ensures
        match res {
            Ok(out) => {
                &&& valid_config(cfg)
                &&& out.0.wf_for(x as nat, num_of_rounds as nat, cfg)
                &&& out.1.wf()
                &&& out.1.satisfied()
                &&& out.1.constraints@.len() == prime_circuit_constraint_count(
                    out.0.found_index as nat,
                    cfg.num_bases as nat,
                    cfg.bit_width as nat,
                )
                &&& out.1.vals().len() == prime_circuit_var_count(
                    out.0.found_index as nat,
                    cfg.num_bases as nat,
                    cfg.bit_width as nat,
                )
                &&& out.1.publics@.len() == 1 + 32 * (out.0.found_index as nat + 1)
            },
            Err(e) => {
                &&& (e == PrimeSnarkError::InputError <==> !valid_config(cfg))
                &&& (valid_config(cfg) ==> (e == PrimeSnarkError::NotFoundError <==> forall|
                    j: nat,
                |
                    j <= num_of_rounds as nat ==> !crate::search::candidate_passes(
                        x as nat,
                        j,
                        cfg.num_bases as nat,
                        cfg.bit_width as nat,
                    )))
                &&& (e == PrimeSnarkError::InputError || e == PrimeSnarkError::NotFoundError || e
                    == PrimeSnarkError::WitnessError)
            },
        },
{
    let found = match search_for_prime(x, num_of_rounds, cfg) {
        Ok(r) => r,
        Err(e) => {
            return Err(e);
        },
    };
    proof {
        crate::circuit::lemma_search_result_satisfies(
            x as nat,
            num_of_rounds as nat,
            cfg,
            found,
        );
        assert(crate::circuit::result_sized(found, cfg)) by {
            assert(forall|j: int|
                0 <= j < found.rejected@.len() ==> (#[trigger] found.rejected@[j]).wf_for(
                    x as nat,
                    j as nat,
                    cfg.bit_width as nat,
                ));
        }
    }
    match build_prime_circuit(&found, cfg) {
        Ok(cs) => {
            proof {
                assert(cs.satisfied());
            }
            Ok((found, cs))
        },
        Err(_) => {
            proof {
                assert(false);
            }
            Err(PrimeSnarkError::ConstraintError)
        },
    }
}

} // verus!
