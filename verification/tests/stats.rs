use norm_fit::stats::ErrorStats;

#[test]
fn default_has_no_extrema() {
    let stats = ErrorStats::default();
    assert_eq!(stats.total_error, 0);
    assert_eq!(stats.max_error, None);
    assert_eq!(stats.min_error, None);
    assert_eq!(stats.max_percent_error, None);
    assert_eq!(stats.min_percent_error, None);
}

#[test]
fn first_point_sets_every_extremum() {
    let mut stats = ErrorStats::default();
    stats.record(-5, 7);
    assert_eq!(
        stats,
        ErrorStats {
            total_error: 5,
            max_error: Some(-5),
            min_error: Some(-5),
            max_percent_error: Some(7),
            min_percent_error: Some(7),
        }
    );
}

#[test]
fn later_points_move_the_extrema_they_exceed() {
    let mut stats = ErrorStats::default();
    stats.record(-5, 7);
    stats.record(3, 9);
    stats.record(1, -2);
    assert_eq!(
        stats,
        ErrorStats {
            total_error: 9,
            max_error: Some(3),
            min_error: Some(-5),
            max_percent_error: Some(9),
            min_percent_error: Some(-2),
        }
    );
}

#[test]
fn total_error_never_decreases() {
    let mut stats = ErrorStats::default();
    let mut last = stats.total_error;
    for error in [4i128, -4, 0, 17, -1, 0, 250_000, -3] {
        stats.record(error, 1_000_000);
        assert!(stats.total_error >= last);
        assert!(stats.total_error >= 0);
        assert_eq!(stats.total_error, last + error.abs());
        last = stats.total_error;
    }
}

#[test]
fn maxima_stay_above_minima() {
    let mut stats = ErrorStats::default();
    for (error, ratio) in [(4i128, -8i128), (-4, 12), (0, 0), (17, 3), (-30, 5)] {
        stats.record(error, ratio);
        assert!(stats.max_error.unwrap() >= stats.min_error.unwrap());
        assert!(stats.max_percent_error.unwrap() >= stats.min_percent_error.unwrap());
    }
}

#[test]
fn percent_scales_the_ratios_only() {
    let mut stats = ErrorStats::default();
    stats.record(-5, 960_000);
    stats.record(3, -280_000);
    stats.to_percent();
    assert_eq!(
        stats,
        ErrorStats {
            total_error: 8,
            max_error: Some(3),
            min_error: Some(-5),
            max_percent_error: Some(96_000_000),
            min_percent_error: Some(-28_000_000),
        }
    );
}

#[test]
fn percent_of_nothing_is_nothing() {
    let mut stats = ErrorStats::default();
    stats.to_percent();
    assert_eq!(stats, ErrorStats::default());
}

#[test]
fn average_divides_the_total() {
    let mut stats = ErrorStats::default();
    stats.record(10, 0);
    stats.record(-5, 0);
    assert_eq!(stats.average_error(2), Some(7));
    assert_eq!(stats.average_error(15), Some(1));
    assert_eq!(stats.average_error(16), Some(0));
}

#[test]
fn average_of_no_points_is_none() {
    let stats = ErrorStats::default();
    assert_eq!(stats.average_error(0), None);
    assert_eq!(stats.average_error(4), Some(0));
}

#[test]
fn clone_keeps_every_field() {
    let mut stats = ErrorStats::default();
    stats.record(-5, 7);
    let copy = stats.clone();
    assert_eq!(copy, stats);
}
