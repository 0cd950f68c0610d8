use norm_fit::brute_force::brute_force_search;
use norm_fit::objective::eval;
use norm_fit::sampling::linspace;
use norm_fit::search::{improves, Best, SearchConfig};
use norm_fit::stats::ErrorStats;

const ONE: i64 = 1_000_000;

fn config(param: (i64, i64, usize), iter: (i64, i64, usize), strict_fidelity: bool) -> SearchConfig {
    SearchConfig {
        param_min: param.0,
        param_max: param.1,
        param_steps: param.2,
        param_sub_steps: 0,
        iter_min: iter.0,
        iter_max: iter.1,
        iter_steps: iter.2,
        strict_fidelity,
    }
}

fn stats(total: i128, max_e: i128, min_e: i128, max_p: i128, min_p: i128) -> ErrorStats {
    ErrorStats {
        total_error: total,
        max_error: Some(max_e),
        min_error: Some(min_e),
        max_percent_error: Some(max_p),
        min_percent_error: Some(min_p),
    }
}

#[test]
fn standard_configuration() {
    for strict in [false, true] {
        let cfg = SearchConfig::brute_force(strict);
        assert_eq!(cfg, config((-ONE, ONE, 100), (-ONE, ONE, 100), strict));
        assert!(cfg.is_valid());
    }
}

#[test]
fn grid_points_are_the_steps_squared() {
    assert_eq!(SearchConfig::brute_force(false).total_iters(), 10_000);
    assert_eq!(config((0, 1, 1), (0, 1, 0), false).total_iters(), 0);
    assert_eq!(config((0, 1, 1), (0, 1, 4_294_967_295), false).total_iters(), 18_446_744_065_119_617_025);
}

#[test]
fn average_error_of_a_winner() {
    let cfg = config((-ONE, ONE, 5), (0, ONE, 10), false);
    let best = brute_force_search(&cfg).unwrap();
    assert_eq!(best.stats.average_error(cfg.total_iters()), Some(99_275));
}

#[test]
fn configuration_out_of_range_is_not_valid() {
    assert!(!config((-1_000_000_001, ONE, 3), (-ONE, ONE, 3), false).is_valid());
    assert!(!config((-ONE, ONE, 3), (-ONE, 1_000_000_001, 3), false).is_valid());
    assert!(config((-1_000_000_000, 1_000_000_000, 3), (ONE, -ONE, 0), true).is_valid());
}

#[test]
fn first_candidate_is_always_taken() {
    for strict in [false, true] {
        assert!(improves(None, 0, strict));
        assert!(improves(None, i128::MAX, strict));
    }
}

#[test]
fn only_a_strictly_lower_total_replaces_the_incumbent() {
    for strict in [false, true] {
        assert!(improves(Some(10), 9, strict));
        assert!(!improves(Some(10), 10, strict));
        assert!(!improves(Some(10), 11, strict));
    }
}

#[test]
fn zero_incumbent_counts_as_none_under_strict_fidelity_only() {
    assert!(improves(Some(0), 5, true));
    assert!(improves(Some(0), 0, true));
    assert!(!improves(Some(0), 5, false));
    assert!(!improves(Some(0), 0, false));
}

#[test]
fn no_candidates_no_winner() {
    for strict in [false, true] {
        assert_eq!(brute_force_search(&config((-ONE, ONE, 0), (-ONE, ONE, 5), strict)), None);
    }
}

#[test]
fn single_candidate_wins() {
    for strict in [false, true] {
        let best = brute_force_search(&config((-ONE, ONE, 1), (-ONE, ONE, 5), strict));
        assert_eq!(
            best,
            Some(Best {
                a: -ONE,
                b: -ONE,
                stats: stats(26_714_770, 3_414_213, -585_787, 141_421_500, -141_421_500),
            })
        );
    }
}

#[test]
fn winner_on_the_symmetric_square() {
    for strict in [false, true] {
        let best = brute_force_search(&config((-ONE, ONE, 10), (-ONE, ONE, 20), strict));
        assert_eq!(
            best,
            Some(Best {
                a: -777_778,
                b: -555_556,
                stats: stats(321_884_919, 2_747_547, 4_256, 95_581_400, -95_581_400),
            })
        );
    }
}

#[test]
fn winner_on_the_first_quadrant() {
    for strict in [false, true] {
        let best = brute_force_search(&config((-ONE, ONE, 5), (0, ONE, 10), strict));
        assert_eq!(
            best,
            Some(Best {
                a: 500_000,
                b: ONE,
                stats: stats(9_927_504, 500_000, -133_819, 111_803_500, 49_999_500),
            })
        );
    }
}

#[test]
fn winner_is_no_worse_than_any_candidate() {
    for &(param, iter) in &[((-ONE, ONE, 10usize), (-ONE, ONE, 20usize)), ((-ONE, ONE, 7), (0, ONE, 10)), ((0, 2 * ONE, 6), (-ONE, 3 * ONE, 9))] {
        let cfg = config(param, iter, false);
        let best = brute_force_search(&cfg).unwrap();
        let candidates = linspace(param.0, param.1, param.2);
        assert!(candidates.contains(&best.a) && candidates.contains(&best.b));
        assert_eq!(best.stats, eval(best.a, best.b, iter.0, iter.1, iter.2));
        for &a in &candidates {
            for &b in &candidates {
                assert!(best.stats.total_error <= eval(a, b, iter.0, iter.1, iter.2).total_error);
            }
        }
    }
}

#[test]
fn winner_is_no_worse_than_the_zero_coefficients() {
    let cfg = config((-ONE, ONE, 10), (-ONE, ONE, 20), false);
    let best = brute_force_search(&cfg).unwrap();
    let baseline = eval(0, 0, -ONE, ONE, 20);
    assert_eq!(baseline.total_error, 321_885_197);
    assert!(best.stats.total_error <= baseline.total_error);
    let cfg = config((-ONE, ONE, 5), (0, ONE, 10), false);
    let best = brute_force_search(&cfg).unwrap();
    assert!(best.stats.total_error <= eval(0, 0, 0, ONE, 10).total_error);
}

#[test]
fn winner_among_fifty_by_fifty_candidates() {
    let cfg = config((-ONE, ONE, 50), (-ONE, ONE, 50), false);
    let best = brute_force_search(&cfg).unwrap();
    assert_eq!(
        best,
        Best {
            a: -714_286,
            b: -673_470,
            stats: stats(1_951_730_180, 2_801_969, 540, 98_171_500, -98_171_500),
        }
    );
    let baseline = eval(0, 0, -ONE, ONE, 50);
    assert_eq!(baseline.total_error, 1_951_731_847);
    assert!(best.stats.total_error <= baseline.total_error);
}

#[test]
fn winner_among_a_hundred_by_a_hundred_candidates() {
    for strict in [false, true] {
        let cfg = SearchConfig::brute_force(strict);
        let best = brute_force_search(&cfg).unwrap();
        assert_eq!(
            best,
            Best {
                a: -797_980,
                b: -595_960,
                stats: stats(7_728_941_341, 2_808_153, 205, 99_596_200, -99_596_200),
            }
        );
        let baseline = eval(0, 0, -ONE, ONE, 100);
        assert_eq!(baseline.total_error, 7_728_948_155);
        assert!(best.stats.total_error <= baseline.total_error);
        assert!(best.stats.total_error <= eval(960_000, 280_000, -ONE, ONE, 100).total_error);
        assert_eq!(best.stats.average_error(cfg.total_iters()), Some(772_894));
    }
}

#[test]
fn of_equal_candidates_the_first_stays() {
    let best = brute_force_search(&config((-ONE, ONE, 3), (0, 0, 1), false)).unwrap();
    assert_eq!(best, Best { a: -ONE, b: -ONE, stats: ErrorStats::default() });
}

#[test]
fn under_strict_fidelity_a_zero_total_is_replaced() {
    let best = brute_force_search(&config((-ONE, ONE, 3), (0, 0, 1), true)).unwrap();
    assert_eq!(best, Best { a: ONE, b: ONE, stats: ErrorStats::default() });
}

#[test]
fn perfect_candidate_is_kept_without_strict_fidelity() {
    let best = brute_force_search(&config((0, 1_414_213, 2), (ONE, ONE, 1), false)).unwrap();
    assert_eq!(best, Best { a: 0, b: 1_414_213, stats: stats(0, 0, 0, 100_000_000, 100_000_000) });
}

#[test]
fn perfect_candidate_is_lost_under_strict_fidelity() {
    let best = brute_force_search(&config((0, 1_414_213, 2), (ONE, ONE, 1), true)).unwrap();
    assert_eq!(
        best,
        Best {
            a: 1_414_213,
            b: 1_414_213,
            stats: stats(1_414_213, -1_414_213, -1_414_213, 200_000_000, 200_000_000),
        }
    );
}
