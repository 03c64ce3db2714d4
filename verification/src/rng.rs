//! Randomness source threaded through the sharing operations.
//!
//! The schemes take an explicit generator rather than a process-wide one so
//! that runs are reproducible under test. The generator itself comes from the
//! `rand` crate and is opaque to the proofs: nothing is ever assumed about
//! the values it yields beyond what the drawing wrappers state.

use vstd::prelude::*;
use rand::SeedableRng;

verus! {

#[verifier::external_type_specification]
#[verifier::external_body]
pub struct ExStdRng(rand::rngs::StdRng);

/// A deterministic random-number generator handed to the sharing operations.
pub struct MpcRng {
    pub(crate) inner: rand::rngs::StdRng,
}

impl MpcRng {
    /// Relies on `rand::rngs::StdRng::seed_from_u64`: a generator seeded
    /// deterministically from the given word.
    #[verifier::external_body]
    pub fn from_seed(seed: u64) -> (r: MpcRng) {
        MpcRng { inner: rand::rngs::StdRng::seed_from_u64(seed) }
    }
}

} // verus!
