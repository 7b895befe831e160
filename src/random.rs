//! The randomness source: rand's per-thread generator.
use vstd::prelude::*;

use rand::rngs::ThreadRng;
use rand::Rng;

verus! {

/// rand's per-thread generator, carried through as an opaque handle.
#[verifier::external_type_specification]
#[verifier::external_body]
pub struct ExThreadRng(ThreadRng);

/// Relies on rand::thread_rng: returns a handle to the calling thread's
/// generator; nothing is known of its state.
pub assume_specification[ rand::thread_rng ]() -> ThreadRng;

/// Relies on rand::Rng::gen_range(low, high): a value in `[low, high)`; it
/// panics when `low >= high`, which `requires` rules out.
#[verifier::external_body]
pub(crate) fn draw_below(rng: &mut ThreadRng, bound: usize) -> (r: usize)
    requires
        bound > 0,
    ensures
        r < bound,
{
    rng.gen_range(0, bound)
}

} // verus!
