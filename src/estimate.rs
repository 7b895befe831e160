//! The Monte Carlo estimator: repeated trials and their win count.
use vstd::prelude::*;

use crate::trial::{
    do_draws,
    lemma_more_draws_never_hurt,
    lemma_success_limits,
    trial_succeeds,
    trial_success,
    within_space,
};
use crate::OUTCOMES;

verus! {

/// How many of the trials succeed.
pub open spec fn successes(trials: Seq<Seq<usize>>, have: nat, need: nat) -> nat
    decreases trials.len(),
{
    if trials.len() == 0 {
        0
    } else {
        successes(trials.drop_last(), have, need) + if trial_success(trials.last(), have, need) {
            1nat
        } else {
            0nat
        }
    }
}

/// Every trial drew exactly `draws` outcomes of the space.
pub open spec fn all_drew(trials: Seq<Seq<usize>>, draws: nat) -> bool {
    forall|i: int| 0 <= i < trials.len() ==> #[trigger] trials[i].len() == draws && within_space(trials[i])
}

/// `wins` is the win count of some run of `count` trials of `draws` draws.
pub open spec fn possible_wins(wins: nat, draws: nat, have: nat, need: nat, count: nat) -> bool {
    exists|trials: Seq<Seq<usize>>|
        trials.len() == count && all_drew(trials, draws) && wins == #[trigger] successes(
            trials,
            have,
            need,
        )
}

/// What the outcomes held by vectors are.
pub open spec fn drawn_outcomes(trials: Seq<Vec<usize>>) -> Seq<Seq<usize>> {
    trials.map_values(|t: Vec<usize>| t@)
}

/// The win count never exceeds the number of trials, so the estimated
/// probability `wins / trials` lies between zero and one.
pub proof fn lemma_wins_bounded(trials: Seq<Seq<usize>>, have: nat, need: nat)
    ensures
        successes(trials, have, need) <= trials.len(),
    decreases trials.len(),
{
    if trials.len() > 0 {
        lemma_wins_bounded(trials.drop_last(), have, need);
    }
}

/// On the same trials, raising the need never raises the win count.
pub proof fn lemma_wins_monotone_in_need(trials: Seq<Seq<usize>>, have: nat, need: nat, higher: nat)
    requires
        need <= higher,
    ensures
        successes(trials, have, higher) <= successes(trials, have, need),
    decreases trials.len(),
{
    if trials.len() > 0 {
        lemma_wins_monotone_in_need(trials.drop_last(), have, need, higher);
    }
}

/// Continuing every trial with further draws never lowers the win count.
pub proof fn lemma_wins_monotone_in_draws(
    trials: Seq<Seq<usize>>,
    longer: Seq<Seq<usize>>,
    have: nat,
    need: nat,
)
    requires
        trials.len() == longer.len(),
        forall|i: int| 0 <= i < trials.len() ==> #[trigger] trials[i].is_prefix_of(longer[i]),
    ensures
        successes(trials, have, need) <= successes(longer, have, need),
    decreases trials.len(),
{
    if trials.len() > 0 {
        let last = trials.len() - 1;
        let short = trials[last];
        let long = longer[last];
        assert(short.is_prefix_of(long));
        assert forall|i: int| 0 <= i < trials.drop_last().len() implies #[trigger] trials.drop_last()[i].is_prefix_of(longer.drop_last()[i]) by {
            assert(trials[i].is_prefix_of(longer[i]));
        }
        lemma_wins_monotone_in_draws(trials.drop_last(), longer.drop_last(), have, need);
        if trial_success(short, have, need) {
            let extra = long.subrange(short.len() as int, long.len() as int);
            assert(short + extra =~= long);
            lemma_more_draws_never_hurt(short, extra, have, need);
        }
    }
}

/// Counts the successful trials among outcomes already drawn: the estimator
/// on a fixed, reproducible set of trials.
pub fn count_wins_over(trials: &Vec<Vec<usize>>, have: usize, need: usize) -> (wins: usize)
    requires
        forall|i: int| 0 <= i < trials@.len() ==> within_space(#[trigger] trials@[i]@),
    ensures
        wins == successes(drawn_outcomes(trials@), have as nat, need as nat),
{
    let mut wins: usize = 0;
    let n = trials.len();
    for t in 0..n
        invariant
            n == trials@.len(),
            forall|i: int| 0 <= i < trials@.len() ==> within_space(#[trigger] trials@[i]@),
            wins == successes(drawn_outcomes(trials@.subrange(0, t as int)), have as nat, need as nat),
            wins <= t,
    {
        let ghost before = drawn_outcomes(trials@.subrange(0, t as int));
        let ghost after = drawn_outcomes(trials@.subrange(0, t + 1));
        assert(after.drop_last() == before);
        if trial_succeeds(&trials[t], have, need) {
            wins = wins + 1;
        }
    }
    assert(trials@.subrange(0, n as int) == trials@);
    wins
}

/// Runs `count` fresh trials of `draws` draws and returns how many succeeded.
/// Whatever was drawn, the result is the win count of `count` such trials;
/// it is every trial when nothing is needed, and none when more is needed
/// than drawn or than the outcomes left unowned.
pub fn count_wins(draws: usize, have: usize, need: usize, count: usize) -> (wins: usize)
    ensures
        possible_wins(wins as nat, draws as nat, have as nat, need as nat, count as nat),
        wins <= count,
        need == 0 ==> wins == count,
        need > draws || (need > 0 && need + have > OUTCOMES) ==> wins == 0,
{
    let ghost mut drawn: Seq<Seq<usize>> = Seq::empty();
    let mut wins: usize = 0;
    for t in 0..count
        invariant
            drawn.len() == t,
            all_drew(drawn, draws as nat),
            wins == successes(drawn, have as nat, need as nat),
            wins <= t,
            need == 0 ==> wins == t,
            need > draws || (need > 0 && need + have > OUTCOMES) ==> wins == 0,
    {
        let won = do_draws(draws, have, need);
        proof {
            let samples = choose|samples: Seq<usize>|
                samples.len() == draws && within_space(samples) && won == trial_success(
                    samples,
                    have as nat,
                    need as nat,
                );
            lemma_success_limits(samples, have as nat, need as nat);
            assert(drawn.push(samples).drop_last() == drawn);
            drawn = drawn.push(samples);
        }
        if won {
            wins = wins + 1;
        }
    }
    wins
}

} // verus!
