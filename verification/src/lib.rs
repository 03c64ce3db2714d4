//! Verified core of a secret-sharing based multi-party computation testbed.
//!
//! The library covers three layers: secret-sharing schemes (Shamir and
//! additive) over the BLS12-381 scalar field, a gate executor that runs
//! arithmetic-circuit gates over shares, and operation modes that govern the
//! communication budget of a gate sequence and expose a cost model.

use vstd::prelude::*;

pub mod evaluation;
pub mod executor;
pub mod field;
pub mod interpolation;
pub mod laws;
pub mod modes;
pub mod rng;
pub mod secret_sharing;
