use norm_fit::fixed::{isqrt, MAX_MAGNITUDE, SCALE};

#[test]
fn scale_is_one_million() {
    assert_eq!(SCALE, 1_000_000);
    assert_eq!(MAX_MAGNITUDE, 1_000 * SCALE);
}

#[test]
fn isqrt_of_small_numbers() {
    let expected: [u64; 18] = [0, 1, 1, 1, 2, 2, 2, 2, 2, 3, 3, 3, 3, 3, 3, 3, 4, 4];
    for n in 0..18u64 {
        assert_eq!(isqrt(n), expected[n as usize], "isqrt({})", n);
    }
}

#[test]
fn isqrt_around_perfect_squares() {
    for r in [5u64, 1_000, 65_535, 65_536, 1_414_213, 1_000_000_000, 4_294_967_295] {
        assert_eq!(isqrt(r * r), r);
        assert_eq!(isqrt(r * r - 1), r - 1);
        if r < 4_294_967_295 {
            assert_eq!(isqrt(r * r + 1), r);
            assert_eq!(isqrt(r * r + 2 * r), r);
        }
    }
}

#[test]
fn isqrt_of_the_largest_number() {
    assert_eq!(isqrt(u64::MAX), 4_294_967_295);
}

#[test]
fn isqrt_of_two_units_squared() {
    assert_eq!(isqrt(2_000_000_000_000), 1_414_213);
    assert_eq!(isqrt(2_000_000_000_000_000_000), 1_414_213_562);
}

#[test]
fn isqrt_is_the_largest_number_whose_square_fits() {
    let mut samples: Vec<u64> = (0..70_000).collect();
    let mut n: u64 = 3;
    while n < u64::MAX / 3 {
        samples.extend_from_slice(&[n - 1, n, n + 1]);
        n = n * 3 - n / 5;
    }
    for shift in 0..64 {
        let power = 1u64 << shift;
        samples.extend_from_slice(&[power - 1, power, power + 1]);
    }
    for &n in &samples {
        let r = isqrt(n) as u128;
        assert!(r * r <= n as u128 && (n as u128) < (r + 1) * (r + 1), "isqrt({})", n);
    }
}
