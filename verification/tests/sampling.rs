use itertools_num::linspace as float_linspace;
use norm_fit::sampling::{linspace, MAX_STEPS};

#[test]
fn no_samples() {
    assert_eq!(linspace(-1_000_000, 1_000_000, 0), Vec::<i64>::new());
}

#[test]
fn one_sample_is_the_start() {
    assert_eq!(linspace(-1_000_000, 1_000_000, 1), vec![-1_000_000]);
    assert_eq!(linspace(7, -3, 1), vec![7]);
}

#[test]
fn two_samples_are_the_ends() {
    assert_eq!(linspace(-1_000_000, 1_000_000, 2), vec![-1_000_000, 1_000_000]);
    assert_eq!(linspace(5, -9, 2), vec![5, -9]);
}

#[test]
fn five_samples_of_the_unit_interval() {
    assert_eq!(linspace(0, 1_000_000, 5), vec![0, 250_000, 500_000, 750_000, 1_000_000]);
}

#[test]
fn steps_round_toward_the_start() {
    assert_eq!(linspace(0, 10, 4), vec![0, 3, 6, 10]);
    assert_eq!(linspace(10, 0, 4), vec![10, 7, 4, 0]);
    assert_eq!(linspace(-1_000_000, 1_000_000, 4), vec![-1_000_000, -333_334, 333_333, 1_000_000]);
    assert_eq!(linspace(1_000_000, -1_000_000, 4), vec![1_000_000, 333_334, -333_333, -1_000_000]);
}

#[test]
fn a_hundred_samples_of_the_symmetric_interval() {
    let v = linspace(-1_000_000, 1_000_000, 100);
    assert_eq!(v.len(), 100);
    assert_eq!(&v[..4], &[-1_000_000, -979_798, -959_596, -939_394]);
    assert_eq!(&v[97..], &[959_595, 979_797, 1_000_000]);
}

#[test]
fn an_empty_interval_repeats_its_point() {
    assert_eq!(linspace(42, 42, 3), vec![42, 42, 42]);
}

#[test]
fn samples_are_ordered_and_within_the_ends() {
    for n in 1..40usize {
        let up = linspace(-123_456, 987_654, n);
        let down = linspace(987_654, -123_456, n);
        assert_eq!(up.len(), n);
        for k in 0..n {
            assert!(-123_456 <= up[k] && up[k] <= 987_654);
            assert!(-123_456 <= down[k] && down[k] <= 987_654);
            if k > 0 {
                assert!(up[k - 1] <= up[k]);
                assert!(down[k - 1] >= down[k]);
            }
        }
        assert_eq!(up[0], -123_456);
        assert_eq!(down[0], 987_654);
        if n >= 2 {
            assert_eq!(up[n - 1], 987_654);
            assert_eq!(down[n - 1], -123_456);
        }
    }
}

#[test]
fn samples_follow_the_floating_point_sequence() {
    for &(min, max, n) in &[(-1.0f64, 1.0f64, 100usize), (0.0, 1.0, 7), (2.5, -0.75, 33), (-3.0, -3.0, 4)] {
        let fixed = linspace((min * 1e6) as i64, (max * 1e6) as i64, n);
        let floats: Vec<f64> = float_linspace::<f64>(min, max, n).collect();
        assert_eq!(fixed.len(), floats.len());
        for k in 0..n {
            assert!((fixed[k] as f64 - floats[k] * 1e6).abs() <= 1.0, "sample {} of {}", k, n);
        }
    }
}

#[test]
fn the_step_limit_is_the_largest_32_bit_number() {
    assert_eq!(MAX_STEPS as u64, u32::MAX as u64);
}
