//! Which (draws, have, need) triples are meaningful queries.
use vstd::prelude::*;

use crate::OUTCOMES;

verus! {

/// A triple is a meaningful query unless nothing is drawn, nothing is
/// needed, more is needed than drawn, or owned plus needed exceeds the
/// outcome space.
pub open spec fn valid_case(draws: nat, have: nat, need: nat) -> bool {
    !(draws == 0 || need == 0 || need > draws || need + have > OUTCOMES)
}

/// Decides whether the triple is worth estimating and reporting.
pub fn is_valid_case(draws: usize, have: usize, need: usize) -> (r: bool)
    ensures
        r == valid_case(draws as nat, have as nat, need as nat),
{
    !(draws == 0 || need == 0 || need > draws || need > OUTCOMES || have > OUTCOMES - need)
}

/// The predicate depends on its three arguments alone: any two evaluations
/// on the same triple agree, whatever was asked before.
pub proof fn lemma_valid_case_deterministic(
    draws: usize,
    have: usize,
    need: usize,
    first: bool,
    second: bool,
)
    requires
        first == valid_case(draws as nat, have as nat, need as nat),
        second == valid_case(draws as nat, have as nat, need as nat),
    ensures
        first == second,
{
}

} // verus!
