//! Zero-knowledge primality search: witness generation, circuit gadgets and
//! the hash-chain candidate search.
//!
//! The crate proves, over a model of an arithmetic constraint system, that a
//! publicly seeded search "hash the seed, hash seed+1, ..." locates a value
//! that passes a multi-base Fermat primality test, and that the test itself
//! was executed correctly.  The real computation happens once, natively, in a
//! witness-generation pre-pass; the circuit gadgets only replay the recorded
//! trace with field arithmetic and equality constraints.

pub mod api;
pub mod bigint;
pub mod circuit;
pub mod cs;
pub mod errors;
pub mod gadget;
pub mod fermat;
pub mod fib;
pub mod field;
pub mod hash;
pub mod primality;
pub mod search;
pub mod witness;

pub use bigint::big_value;
