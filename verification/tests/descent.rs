use norm_fit::descent::{monty_carlo_descent, Descent, MAX_TRIALS};
use norm_fit::objective::eval;
use norm_fit::search::{Best, SearchConfig};
use norm_fit::stats::ErrorStats;

const ONE: i64 = 1_000_000;

fn config(stages: usize, trials: usize, iter: (i64, i64, usize), strict_fidelity: bool) -> SearchConfig {
    SearchConfig {
        param_min: -ONE,
        param_max: ONE,
        param_steps: stages,
        param_sub_steps: trials,
        iter_min: iter.0,
        iter_max: iter.1,
        iter_steps: iter.2,
        strict_fidelity,
    }
}

fn stats(total: i128, max_e: i128, min_e: i128, max_p: i128, min_p: i128) -> ErrorStats {
    ErrorStats {
        total_error: total,
        max_error: Some(max_e),
        min_error: Some(min_e),
        max_percent_error: Some(max_p),
        min_percent_error: Some(min_p),
    }
}

#[test]
fn standard_descent_configuration() {
    for strict in [false, true] {
        let cfg = SearchConfig::descent(strict);
        assert_eq!(cfg, config(20, 100, (-ONE, ONE, 100), strict));
        assert!(cfg.fits_descent());
    }
}

#[test]
fn descent_takes_bounds_in_either_order() {
    let mut cfg = config(3, 3, (-ONE, ONE, 3), false);
    cfg.param_min = ONE;
    cfg.param_max = -ONE;
    assert!(cfg.fits_descent());
    let state = Descent::start(&cfg);
    assert_eq!((state.a, state.b, state.delta), (-500_000, -500_000, ONE));
    assert_eq!(monty_carlo_descent(&cfg).delta, 125_000);
}

#[test]
fn radius_starts_at_half_the_sum_of_the_magnitudes() {
    let mut cfg = config(1, 1, (0, ONE, 2), false);
    for &(min, max, delta) in &[(-ONE, ONE, ONE), (ONE, 3 * ONE, 2 * ONE), (-3 * ONE, -ONE, 2 * ONE), (0, 0, 0), (-1, 2, 1)] {
        cfg.param_min = min;
        cfg.param_max = max;
        assert_eq!(Descent::start(&cfg).delta, delta);
    }
}

#[test]
fn descent_limits_the_trials_of_a_stage() {
    assert!(config(3, 1_000_000, (-ONE, ONE, 3), false).fits_descent());
    assert!(!config(3, 1_000_001, (-ONE, ONE, 3), false).fits_descent());
    assert!(!config(3, usize::MAX, (-ONE, ONE, 3), false).fits_descent());
    assert_eq!(MAX_TRIALS, 1_000_000);
}

#[test]
fn descent_needs_a_valid_configuration() {
    let mut cfg = config(3, 5, (-ONE, ONE, 3), false);
    cfg.param_max = 1_000_000_001;
    assert!(!cfg.fits_descent());
    cfg.param_max = 1_000_000_000;
    cfg.param_min = 1_000_000_000;
    assert!(cfg.fits_descent());
    let state = monty_carlo_descent(&cfg);
    assert_eq!(state.delta, 125_000_000);
    assert!(state.a.abs() <= 1_500_000_000 + 2 * 5 * 1_000_000_000);
}

#[test]
fn search_starts_at_the_upper_bound_plus_half_the_lower() {
    let state = Descent::start(&config(20, 100, (-ONE, ONE, 100), false));
    assert_eq!(state, Descent { a: 500_000, b: 500_000, delta: ONE, improvements: vec![] });
    assert_eq!(state.best(), None);
    let mut cfg = config(1, 1, (-ONE, ONE, 3), false);
    cfg.param_min = -3;
    cfg.param_max = 10;
    let state = Descent::start(&cfg);
    assert_eq!((state.a, state.b, state.delta), (9, 9, 6));
}

#[test]
fn first_trial_is_accepted() {
    let cfg = config(1, 1, (0, ONE, 10), false);
    let mut state = Descent::start(&cfg);
    assert!(state.trial(&cfg, 460_000, -220_000));
    let found = Best { a: 960_000, b: 280_000, stats: stats(15_811_613, 720_000, 12, 99_998_500, 27_999_900) };
    assert_eq!(state, Descent { a: 960_000, b: 280_000, delta: ONE, improvements: vec![found] });
    assert_eq!(state.best(), Some(found.stats));
}

#[test]
fn worse_trial_changes_nothing() {
    let cfg = config(1, 1, (0, ONE, 10), false);
    let mut state = Descent::start(&cfg);
    state.trial(&cfg, 460_000, -220_000);
    let before = Descent { a: state.a, b: state.b, delta: state.delta, improvements: state.improvements.clone() };
    assert!(!state.trial(&cfg, -960_000, -280_000));
    assert_eq!(state, before);
    assert!(!state.trial(&cfg, 0, 0));
    assert_eq!(state, before);
}

#[test]
fn better_trial_moves_the_point() {
    let cfg = config(1, 1, (0, ONE, 10), false);
    let mut state = Descent::start(&cfg);
    state.trial(&cfg, 460_000, -220_000);
    assert!(state.trial(&cfg, -250_000, 425_000));
    assert_eq!((state.a, state.b), (710_000, 705_000));
    assert_eq!(state.improvements.len(), 2);
    assert_eq!(
        state.improvements[1],
        Best { a: 710_000, b: 705_000, stats: stats(7_069_489, 295_000, -787, 100_056_000, 70_499_700) }
    );
    assert_eq!(state.best(), Some(state.improvements[1].stats));
}

#[test]
fn strict_fidelity_moves_both_coefficients_to_the_second() {
    let cfg = config(1, 1, (0, ONE, 10), true);
    let mut state = Descent::start(&cfg);
    assert!(state.trial(&cfg, 460_000, -220_000));
    assert_eq!((state.a, state.b), (280_000, 280_000));
    assert_eq!(state.improvements[0].a, 960_000);
    assert_eq!(state.improvements[0].b, 280_000);
    assert!(state.trial(&cfg, 430_000, 425_000));
    assert_eq!((state.a, state.b), (705_000, 705_000));
    assert_eq!(
        state.improvements[1],
        Best { a: 710_000, b: 705_000, stats: stats(7_069_489, 295_000, -787, 100_056_000, 70_499_700) }
    );
}

#[test]
fn strict_fidelity_replaces_a_perfect_incumbent() {
    for strict in [false, true] {
        let cfg = config(1, 1, (ONE, ONE, 1), strict);
        let mut state = Descent::start(&cfg);
        assert!(state.trial(&cfg, -500_000, 914_213));
        assert_eq!(state.best().unwrap().total_error, 0);
        assert_eq!(state.trial(&cfg, 3, 3), strict);
        assert_eq!(state.improvements.len(), if strict { 2 } else { 1 });
    }
}

#[test]
fn cooling_halves_the_radius() {
    let mut state = Descent { a: 1, b: 2, delta: ONE, improvements: vec![] };
    let mut expected = ONE;
    for _ in 0..25 {
        state.cool();
        expected /= 2;
        assert_eq!(state, Descent { a: 1, b: 2, delta: expected, improvements: vec![] });
    }
    assert_eq!(state.delta, 0);
}

#[test]
fn radius_after_each_stage_is_the_initial_radius_over_a_power_of_two() {
    for stages in 0..=8usize {
        let state = monty_carlo_descent(&config(stages, 2, (0, ONE, 3), false));
        assert_eq!(state.delta, ONE / (1i64 << stages));
    }
    assert_eq!(monty_carlo_descent(&config(5, 1, (0, ONE, 2), true)).delta, 31_250);
    assert_eq!(monty_carlo_descent(&config(20, 1, (0, ONE, 2), true)).delta, 0);
    assert_eq!(monty_carlo_descent(&config(40, 0, (0, ONE, 2), true)).delta, 0);
}

#[test]
fn radius_never_increases() {
    let mut state = Descent::start(&config(1, 1, (0, ONE, 2), false));
    let mut last = state.delta;
    for _ in 0..30 {
        state.cool();
        assert!(0 <= state.delta && state.delta <= last);
        last = state.delta;
    }
}

#[test]
fn without_trials_nothing_is_found() {
    let cfg = config(0, 5, (0, ONE, 5), false);
    assert_eq!(monty_carlo_descent(&cfg), Descent::start(&cfg));
    let state = monty_carlo_descent(&config(4, 0, (0, ONE, 5), false));
    assert_eq!(state, Descent { a: 500_000, b: 500_000, delta: 62_500, improvements: vec![] });
}

#[test]
fn search_records_each_improvement_with_its_evaluation() {
    for strict in [false, true] {
        let cfg = config(6, 12, (0, ONE, 8), strict);
        let state = monty_carlo_descent(&cfg);
        assert!(!state.improvements.is_empty());
        let mut last: Option<i128> = None;
        for found in &state.improvements {
            assert_eq!(found.stats, eval(found.a, found.b, 0, ONE, 8));
            if let Some(total) = last {
                assert!(found.stats.total_error < total || (strict && total == 0));
            }
            last = Some(found.stats.total_error);
        }
        let newest = state.improvements[state.improvements.len() - 1];
        assert_eq!(state.best(), Some(newest.stats));
        assert_eq!(state.b, newest.b);
        assert_eq!(state.a, if strict { newest.b } else { newest.a });
        assert_eq!(state.delta, ONE / 64);
    }
}

#[test]
fn standard_search_runs_to_the_end() {
    for strict in [false, true] {
        let cfg = SearchConfig::descent(strict);
        let state = monty_carlo_descent(&cfg);
        assert_eq!(state.delta, 0);
        assert!(!state.improvements.is_empty());
        let newest = state.improvements[state.improvements.len() - 1];
        assert_eq!(newest.stats, eval(newest.a, newest.b, -ONE, ONE, 100));
        assert_eq!(state.best(), Some(newest.stats));
        assert_eq!((state.a, state.b), (if strict { newest.b } else { newest.a }, newest.b));
        for pair in state.improvements.windows(2) {
            assert!(pair[1].stats.total_error < pair[0].stats.total_error);
        }
    }
}

#[test]
fn search_improves_on_its_first_candidate() {
    let cfg = config(8, 25, (0, ONE, 8), false);
    let state = monty_carlo_descent(&cfg);
    let first = state.improvements[0].stats.total_error;
    let best = state.best().unwrap().total_error;
    assert!(best <= first);
    assert!(best < eval(0, 0, 0, ONE, 8).total_error);
}

#[test]
fn candidates_stay_within_reach_of_the_start() {
    let cfg = config(5, 10, (0, ONE, 4), false);
    let state = monty_carlo_descent(&cfg);
    for found in &state.improvements {
        assert!((found.a - 500_000).abs() <= 2 * 10 * ONE);
        assert!((found.b - 500_000).abs() <= 2 * 10 * ONE);
    }
}

#[test]
fn offsets_are_drawn_and_not_the_radius_itself() {
    let cfg = config(1, 1, (0, ONE, 4), false);
    let mut moved = 0;
    for _ in 0..20 {
        let state = monty_carlo_descent(&cfg);
        let first = state.improvements[0];
        assert!((first.a - 500_000).abs() <= ONE);
        assert!((first.b - 500_000).abs() <= ONE);
        if (first.a, first.b) != (1_500_000, 1_500_000) {
            moved += 1;
        }
    }
    assert!(moved >= 19);
}

#[test]
fn offsets_differ_between_runs() {
    let cfg = config(1, 1, (0, ONE, 4), false);
    let first = monty_carlo_descent(&cfg).improvements[0];
    let mut different = false;
    for _ in 0..20 {
        let again = monty_carlo_descent(&cfg).improvements[0];
        if (again.a, again.b) != (first.a, first.b) {
            different = true;
        }
    }
    assert!(different);
}
