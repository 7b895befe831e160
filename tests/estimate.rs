use coupon_odds::estimate::{count_wins, count_wins_over};
use coupon_odds::SAMPLES;

fn fraction(wins: usize, count: usize) -> f64 {
    wins as f64 / count as f64
}

#[test]
fn wins_over_fixed_trials() {
    let trials = vec![vec![0, 1], vec![3, 3], vec![5, 2], vec![0, 0]];
    assert_eq!(count_wins_over(&trials, 0, 2), 2);
    assert_eq!(count_wins_over(&trials, 0, 1), 4);
    assert_eq!(count_wins_over(&trials, 1, 1), 3);
    assert_eq!(count_wins_over(&trials, 4, 1), 1);
    assert_eq!(count_wins_over(&vec![], 0, 1), 0);
}

#[test]
fn higher_need_on_same_trials_never_wins_more() {
    let trials = vec![vec![0, 1, 2], vec![3, 3, 4], vec![5, 5, 5], vec![1, 2, 2]];
    let mut previous = count_wins_over(&trials, 0, 0);
    for need in 1..5usize {
        let wins = count_wins_over(&trials, 0, need);
        assert!(wins <= previous);
        previous = wins;
    }
}

#[test]
fn estimate_is_a_probability() {
    for draws in 1..7usize {
        for need in 1..=draws.min(6) {
            let wins = count_wins(draws, 0, need, 2000);
            assert!(wins <= 2000);
            let p = fraction(wins, 2000);
            assert!((0.0..=1.0).contains(&p));
        }
    }
}

#[test]
fn needing_nothing_wins_every_trial() {
    assert_eq!(count_wins(3, 2, 0, 500), 500);
}

#[test]
fn impossible_need_wins_nothing() {
    assert_eq!(count_wins(2, 0, 3, 500), 0);
    assert_eq!(count_wins(6, 3, 4, 500), 0);
}

#[test]
fn zero_trials_win_nothing() {
    assert_eq!(count_wins(4, 0, 2, 0), 0);
}

#[test]
fn two_draws_both_new_near_five_sixths() {
    let p = fraction(count_wins(2, 0, 2, SAMPLES), SAMPLES);
    assert!((p - 5.0 / 6.0).abs() < 0.01, "estimate {}", p);
}

#[test]
fn three_draws_all_new_near_exact_value() {
    let exact = 6.0 * 5.0 * 4.0 / 216.0;
    let p = fraction(count_wins(3, 0, 3, SAMPLES), SAMPLES);
    assert!((p - exact).abs() < 0.01, "estimate {}", p);
}

#[test]
fn six_draws_collect_all_six_near_coupon_value() {
    let exact = 720.0 / 46656.0;
    let p = fraction(count_wins(6, 0, 6, SAMPLES), SAMPLES);
    assert!((p - exact).abs() < 0.004, "estimate {}", p);
}

#[test]
fn more_draws_do_not_lower_the_estimate() {
    let mut previous = 0.0;
    for draws in 2..7usize {
        let p = fraction(count_wins(draws, 1, 2, 20000), 20000);
        assert!(p + 0.02 >= previous, "draws {} estimate {} after {}", draws, p, previous);
        previous = p;
    }
}

#[test]
fn higher_need_does_not_raise_the_estimate() {
    let mut previous = 1.0;
    for need in 1..6usize {
        let p = fraction(count_wins(6, 0, need, 20000), 20000);
        assert!(p <= previous + 0.02, "need {} estimate {} after {}", need, p, previous);
        previous = p;
    }
}
