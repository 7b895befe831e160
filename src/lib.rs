//! Monte Carlo estimation of the chance of collecting new distinct outcomes
//! when drawing uniformly from a six-sided outcome space.
use vstd::prelude::*;

pub mod estimate;
pub mod grid;
mod random;
pub mod trial;
pub mod validity;

verus! {

/// Number of distinct outcomes a single draw can produce.
pub const OUTCOMES: usize = 6;

/// Largest number of draws in the result grid.
pub const MAX_DRAWS: usize = 6;

/// Number of trials the estimator runs for each case.
pub const SAMPLES: usize = 100000;

} // verus!
