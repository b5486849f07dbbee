//! The error taxonomy of the proving pipeline.

use vstd::prelude::*;

verus! {

/// Every failure class the pipeline distinguishes.  Exhaustion of the
/// search bound is a legitimate terminal outcome and is reported as
/// `NotFoundError`, never as an empty success.
#[derive(Clone, Copy, PartialEq, Eq, Structural, Debug)]
pub enum PrimeSnarkError {
    /// Malformed request values: a zero base count or bit width.
    InputError,
    /// Native witness computation cannot proceed, e.g. a modulus so small
    /// that no test base range exists.
    WitnessError,
    /// Circuit synthesis was handed a malformed or missing witness.
    ConstraintError,
    /// Key setup, proving or verification failed in the proof backend.
    BackendError,
    /// The search exhausted its round bound without finding a prime.
    NotFoundError,
}

} // verus!
