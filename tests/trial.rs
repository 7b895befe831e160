use coupon_odds::trial::{do_draws, draw_samples, tally, trial_succeeds};

#[test]
fn tally_counts_each_outcome() {
    let hits = tally(&vec![0, 3, 3, 5, 0, 3]);
    assert_eq!(hits, [2, 0, 0, 3, 0, 1]);
}

#[test]
fn tally_of_no_samples_is_zero() {
    assert_eq!(tally(&vec![]), [0; 6]);
}

#[test]
fn two_distinct_outcomes_meet_need_two() {
    assert!(trial_succeeds(&vec![0, 1], 0, 2));
}

#[test]
fn repeated_outcome_misses_need_two() {
    assert!(!trial_succeeds(&vec![4, 4], 0, 2));
}

#[test]
fn owned_outcomes_do_not_count() {
    assert!(!trial_succeeds(&vec![0, 1], 1, 2));
    assert!(trial_succeeds(&vec![0, 1], 1, 1));
    assert!(!trial_succeeds(&vec![0, 1, 2], 3, 1));
}

#[test]
fn all_six_collected() {
    assert!(trial_succeeds(&vec![5, 4, 3, 2, 1, 0], 0, 6));
    assert!(!trial_succeeds(&vec![5, 4, 3, 2, 1, 1], 0, 6));
}

#[test]
fn needing_nothing_always_succeeds() {
    assert!(trial_succeeds(&vec![], 0, 0));
    assert!(trial_succeeds(&vec![], 9, 0));
}

#[test]
fn have_beyond_space_finds_nothing_new() {
    assert!(!trial_succeeds(&vec![0, 1, 2, 3, 4, 5], 6, 1));
    assert!(!trial_succeeds(&vec![0, 1, 2, 3, 4, 5], 8, 1));
}

#[test]
fn extra_draws_keep_a_success() {
    let short = vec![2, 5];
    let long = vec![2, 5, 5, 0];
    assert!(trial_succeeds(&short, 1, 2));
    assert!(trial_succeeds(&long, 1, 2));
}

#[test]
fn drawn_samples_have_requested_length_and_lie_in_space() {
    for draws in 0..7usize {
        let samples = draw_samples(draws);
        assert_eq!(samples.len(), draws);
        assert!(samples.iter().all(|&s| s < 6));
    }
}

#[test]
fn every_outcome_gets_drawn() {
    let samples = draw_samples(600);
    for o in 0..6usize {
        assert!(samples.contains(&o), "outcome {} never drawn", o);
    }
}

#[test]
fn single_draw_always_brings_something_new_when_nothing_owned() {
    for _ in 0..200 {
        assert!(do_draws(1, 0, 1));
    }
}

#[test]
fn need_above_draws_never_succeeds() {
    for _ in 0..200 {
        assert!(!do_draws(2, 0, 3));
        assert!(do_draws(2, 0, 0));
    }
}
