//! One simulated trial: draw, tally, and count the new outcomes obtained.
use vstd::prelude::*;

use crate::random::draw_below;
use crate::OUTCOMES;

verus! {

/// How many of the samples are equal to outcome `o`.
pub open spec fn occurrences(samples: Seq<usize>, o: nat) -> nat
    decreases samples.len(),
{
    if samples.len() == 0 {
        0
    } else {
        occurrences(samples.drop_last(), o) + if samples.last() == o {
            1nat
        } else {
            0nat
        }
    }
}

/// Every sample names an outcome of the space.
pub open spec fn within_space(samples: Seq<usize>) -> bool {
    forall|k: int| 0 <= k < samples.len() ==> samples[k] < OUTCOMES
}

proof fn lemma_occurrences_bounded(samples: Seq<usize>, o: nat)
    ensures
        occurrences(samples, o) <= samples.len(),
    decreases samples.len(),
{
    if samples.len() > 0 {
        lemma_occurrences_bounded(samples.drop_last(), o);
    }
}

/// Counts, for each outcome, how often it was drawn.
pub fn tally(samples: &Vec<usize>) -> (hits: [usize; OUTCOMES])
    requires
        within_space(samples@),
    ensures
        forall|o: int| 0 <= o < OUTCOMES ==> hits[o] == occurrences(samples@, o as nat),
{
    let mut hits: [usize; OUTCOMES] = [0; OUTCOMES];
    let n = samples.len();
    for i in 0..n
        invariant
            n == samples@.len(),
            within_space(samples@),
            forall|o: int|
                0 <= o < OUTCOMES ==> hits[o] == occurrences(samples@.subrange(0, i as int), o as nat),
    {
        let ghost before = samples@.subrange(0, i as int);
        let ghost after = samples@.subrange(0, i + 1);
        assert(after.drop_last() == before);
        let d = samples[i];
        proof {
            lemma_occurrences_bounded(before, d as nat);
        }
        hits[d] = hits[d] + 1;
    }
    assert(samples@.subrange(0, n as int) == samples@);
    hits
}

/// How many outcomes from `lo` to the end of the space appear at least once
/// among the samples.
pub open spec fn new_outcomes(samples: Seq<usize>, lo: nat) -> nat
    decreases OUTCOMES - lo,
{
    if lo >= OUTCOMES {
        0
    } else {
        (if samples.contains(lo as usize) {
            1nat
        } else {
            0nat
        }) + new_outcomes(samples, lo + 1)
    }
}

/// A trial succeeds when at least `need` outcomes not already owned (those
/// at index `have` and above) were drawn.
pub open spec fn trial_success(samples: Seq<usize>, have: nat, need: nat) -> bool {
    new_outcomes(samples, have) >= need
}

proof fn lemma_occurrences_positive(samples: Seq<usize>, o: usize)
    ensures
        occurrences(samples, o as nat) > 0 <==> samples.contains(o),
    decreases samples.len(),
{
    if samples.len() > 0 {
        let rest = samples.drop_last();
        lemma_occurrences_positive(rest, o);
        if rest.contains(o) {
            let k = choose|k: int| 0 <= k < rest.len() && rest[k] == o;
            assert(samples[k] == o);
        }
        if samples.contains(o) && samples.last() != o {
            let k = choose|k: int| 0 <= k < samples.len() && samples[k] == o;
            assert(rest[k] == o);
        }
    }
}

/// Runs the verdict of one trial on the outcomes it drew: success iff at
/// least `need` distinct outcomes at index `have` or above were drawn.
pub fn trial_succeeds(samples: &Vec<usize>, have: usize, need: usize) -> (r: bool)
    requires
        within_space(samples@),
    ensures
        r == trial_success(samples@, have as nat, need as nat),
{
    let hits = tally(samples);
    let mut good_count: usize = 0;
    let mut i: usize = have;
    while i < OUTCOMES
        invariant
            have <= i,
            i <= OUTCOMES || i == have,
            good_count <= i - have,
            good_count + new_outcomes(samples@, i as nat) == new_outcomes(samples@, have as nat),
            forall|o: int| 0 <= o < OUTCOMES ==> hits[o] == occurrences(samples@, o as nat),
        decreases OUTCOMES - i,
    {
        proof {
            lemma_occurrences_positive(samples@, i);
        }
        if hits[i] > 0 {
            good_count = good_count + 1;
        }
        i = i + 1;
    }
    good_count >= need
}

/// Draws `draws` outcomes, each uniformly from the space, with a fresh
/// handle to the thread's generator.
pub fn draw_samples(draws: usize) -> (samples: Vec<usize>)
    ensures
        samples@.len() == draws,
        within_space(samples@),
{
    let mut rng = rand::thread_rng();
    let mut samples: Vec<usize> = Vec::with_capacity(draws);
    for k in 0..draws
        invariant
            within_space(samples@),
            samples@.len() == k,
    {
        let draw = draw_below(&mut rng, OUTCOMES);
        samples.push(draw);
    }
    samples
}

/// Draws `draws` outcomes uniformly from the space and judges the trial.
/// Whatever the generator produced, the verdict is that of `draws` outcomes
/// of the space; in particular nothing needed means success, and success
/// means no more was needed than was drawn, nor (when something was needed)
/// more than was left unowned.
pub fn do_draws(draws: usize, have: usize, need: usize) -> (r: bool)
    ensures
        exists|samples: Seq<usize>|
            samples.len() == draws && within_space(samples) && r == trial_success(
                samples,
                have as nat,
                need as nat,
            ),
        need == 0 ==> r,
        r ==> need <= draws,
        r && need > 0 ==> need + have <= OUTCOMES,
{
    let samples = draw_samples(draws);
    let r = trial_succeeds(&samples, have, need);
    proof {
        lemma_success_limits(samples@, have as nat, need as nat);
    }
    r
}

proof fn lemma_contains_push(samples: Seq<usize>, x: usize, o: usize)
    ensures
        samples.push(x).contains(o) <==> samples.contains(o) || o == x,
{
    let longer = samples.push(x);
    if samples.contains(o) {
        let k = choose|k: int| 0 <= k < samples.len() && samples[k] == o;
        assert(longer[k] == o);
    }
    if o == x {
        assert(longer[samples.len() as int] == o);
    }
    if longer.contains(o) && o != x {
        let k = choose|k: int| 0 <= k < longer.len() && longer[k] == o;
        assert(samples[k] == o);
    }
}

/// Drawing one more outcome adds one new outcome exactly when it lies in
/// range and was not drawn before.
proof fn lemma_new_outcomes_push(samples: Seq<usize>, x: usize, lo: nat)
    ensures
        new_outcomes(samples.push(x), lo) == new_outcomes(samples, lo) + if lo <= x < OUTCOMES
            && !samples.contains(x) {
            1nat
        } else {
            0nat
        },
    decreases OUTCOMES - lo,
{
    if lo < OUTCOMES {
        lemma_contains_push(samples, x, lo as usize);
        lemma_new_outcomes_push(samples, x, lo + 1);
    }
}

proof fn lemma_new_outcomes_none_drawn(samples: Seq<usize>, lo: nat)
    requires
        samples.len() == 0,
    ensures
        new_outcomes(samples, lo) == 0,
    decreases OUTCOMES - lo,
{
    if lo < OUTCOMES {
        lemma_new_outcomes_none_drawn(samples, lo + 1);
    }
}

proof fn lemma_new_outcomes_bounded(samples: Seq<usize>, lo: nat)
    ensures
        new_outcomes(samples, lo) <= samples.len(),
    decreases samples.len(),
{
    if samples.len() == 0 {
        lemma_new_outcomes_none_drawn(samples, lo);
    } else {
        let rest = samples.drop_last();
        assert(rest.push(samples.last()) == samples);
        lemma_new_outcomes_bounded(rest, lo);
        lemma_new_outcomes_push(rest, samples.last(), lo);
    }
}

proof fn lemma_new_outcomes_within_space(samples: Seq<usize>, lo: nat)
    ensures
        new_outcomes(samples, lo) + lo <= OUTCOMES || new_outcomes(samples, lo) == 0,
    decreases OUTCOMES - lo,
{
    if lo < OUTCOMES {
        lemma_new_outcomes_within_space(samples, lo + 1);
    }
}

/// What no draw can change: needing nothing always succeeds, and success
/// needs no more than was drawn, nor (when something is needed) more than
/// the outcomes left unowned.
pub proof fn lemma_success_limits(samples: Seq<usize>, have: nat, need: nat)
    ensures
        need == 0 ==> trial_success(samples, have, need),
        trial_success(samples, have, need) ==> need <= samples.len(),
        trial_success(samples, have, need) && need > 0 ==> need + have <= OUTCOMES,
{
    lemma_new_outcomes_bounded(samples, have);
    lemma_new_outcomes_within_space(samples, have);
}

/// More draws never hurt: a trial that succeeded still succeeds when further
/// outcomes are drawn after it.
pub proof fn lemma_more_draws_never_hurt(samples: Seq<usize>, extra: Seq<usize>, have: nat, need: nat)
    requires
        trial_success(samples, have, need),
    ensures
        trial_success(samples + extra, have, need),
    decreases extra.len(),
{
    if extra.len() > 0 {
        let front = extra.drop_last();
        lemma_more_draws_never_hurt(samples, front, have, need);
        assert(samples + extra == (samples + front).push(extra.last()));
        lemma_new_outcomes_push(samples + front, extra.last(), have);
    }
}

/// Needing more never makes a trial easier: success at a higher need implies
/// success at every lower one.
pub proof fn lemma_higher_need_never_easier(samples: Seq<usize>, have: nat, need: nat, higher: nat)
    requires
        need <= higher,
        trial_success(samples, have, higher),
    ensures
        trial_success(samples, have, need),
{
}

/// With nothing owned, needing every drawn outcome to be new succeeds exactly
/// when no outcome was drawn twice.
pub proof fn lemma_all_new_iff_distinct(samples: Seq<usize>)
    requires
        within_space(samples),
    ensures
        trial_success(samples, 0, samples.len()) <==> samples.no_duplicates(),
    decreases samples.len(),
{
    if samples.len() == 0 {
        lemma_new_outcomes_none_drawn(samples, 0);
    } else {
        let rest = samples.drop_last();
        let x = samples.last();
        assert(rest.push(x) == samples);
        lemma_all_new_iff_distinct(rest);
        lemma_new_outcomes_bounded(rest, 0);
        lemma_new_outcomes_push(rest, x, 0);
        if samples.no_duplicates() {
            assert(rest.no_duplicates()) by {
                assert forall|i: int, j: int|
                    0 <= i < rest.len() && 0 <= j < rest.len() && i != j implies rest[i]
                    != rest[j] by {
                    assert(samples[i] == rest[i] && samples[j] == rest[j]);
                }
            }
            if rest.contains(x) {
                let k = choose|k: int| 0 <= k < rest.len() && rest[k] == x;
                assert(samples[k] == samples[rest.len() as int]);
            }
        }
        if rest.no_duplicates() && !rest.contains(x) {
            assert forall|i: int, j: int|
                0 <= i < samples.len() && 0 <= j < samples.len() && i != j implies samples[i]
                != samples[j] by {
                if i < rest.len() && j < rest.len() {
                    assert(samples[i] == rest[i] && samples[j] == rest[j]);
                } else if i < rest.len() {
                    assert(samples[i] == rest[i]);
                } else if j < rest.len() {
                    assert(samples[j] == rest[j]);
                }
            }
        }
    }
}

} // verus!
