//! The norm, its linear approximation, and the evaluation of a pair of
//! coefficients over a square grid of sample points.

use vstd::prelude::*;
use crate::fixed::{
    abs, coefficient_in_range, floor_sqrt, in_range, isqrt, lemma_floor_sqrt_at_most,
    lemma_floor_sqrt_zero, lemma_trunc_div_bounds, trunc_div, SCALE,
};
use crate::sampling::{lemma_sample_between, linspace, sample, MAX_STEPS};
use crate::stats::{ErrorStats, StatsModel};

verus! {

/// The largest value of the norm on coordinates in range.
pub const MAX_NORM: i64 = 1_414_213_563;

/// The largest magnitude of the approximation on arguments in range.
pub const MAX_APPROXIMATION: i64 = 8_000_000_000_000_000_000;

/// The largest magnitude of the ratio of approximation to norm.
pub const MAX_RATIO: i128 = 8_000_000_000_000_000_000_000_000;

/// The largest magnitude of the error at one point.
pub const MAX_ERROR: i128 = 8_000_000_001_414_213_563;

/// The Euclidean norm of `(x, y)`, rounded down.
pub open spec fn f_spec(x: int, y: int) -> int {
    floor_sqrt(x * x + y * y)
}

/// The linear form `a*x + b*y`, rounded toward zero.
pub open spec fn f_approximation_spec(x: int, y: int, a: int, b: int) -> int {
    trunc_div(a * x + b * y, SCALE as int)
}

/// The signed error of the approximation at `(x, y)`: norm minus approximation.
pub open spec fn error_at(x: int, y: int, a: int, b: int) -> int {
    f_spec(x, y) - f_approximation_spec(x, y, a, b)
}

/// The ratio of approximation to norm at `(x, y)`, rounded toward zero.
pub open spec fn ratio_at(x: int, y: int, a: int, b: int) -> int {
    trunc_div(f_approximation_spec(x, y, a, b) * SCALE, f_spec(x, y))
}

/// The norm is symmetric in its coordinates, never negative, and zero at the
/// origin and nowhere else.
pub proof fn lemma_norm(x: int, y: int)
    ensures
        f_spec(x, y) >= 0,
        f_spec(x, y) == 0 <==> (x == 0 && y == 0),
        f_spec(x, y) == f_spec(y, x),
{
    let n = x * x + y * y;
    assert(n >= 0 && (n == 0 <==> (x == 0 && y == 0))) by (nonlinear_arith)
        requires
            n == x * x + y * y,
    ;
    assert(y * y + x * x == n);
    lemma_floor_sqrt_zero(n);
}

/// On coordinates in range the sum of the squares and the norm are bounded.
pub proof fn lemma_norm_bounded(x: int, y: int)
    requires
        in_range(x),
        in_range(y),
    ensures
        0 <= x * x + y * y <= 2_000_000_000_000_000_000,
        f_spec(x, y) <= MAX_NORM,
{
    let n = x * x + y * y;
    assert(0 <= n <= 2_000_000_000_000_000_000) by (nonlinear_arith)
        requires
            n == x * x + y * y,
            -1_000_000_000 <= x <= 1_000_000_000,
            -1_000_000_000 <= y <= 1_000_000_000,
    ;
    assert(2_000_000_000_000_000_000 <= MAX_NORM * MAX_NORM) by (nonlinear_arith)
        requires
            MAX_NORM == 1_414_213_563,
    ;
    lemma_floor_sqrt_at_most(n, MAX_NORM as int);
}

/// On arguments in range the linear form, the approximation, the error and
/// the ratio are bounded.
pub proof fn lemma_approximation(x: int, y: int, a: int, b: int)
    requires
        in_range(x),
        in_range(y),
        coefficient_in_range(a),
        coefficient_in_range(b),
    ensures
        abs(a * x + b * y) <= MAX_APPROXIMATION * SCALE,
        abs(f_approximation_spec(x, y, a, b)) <= MAX_APPROXIMATION,
        abs(error_at(x, y, a, b)) <= MAX_ERROR,
        f_spec(x, y) > 0 ==> abs(ratio_at(x, y, a, b)) <= MAX_RATIO,
{
    let n = a * x + b * y;
    assert(abs(n) <= 8_000_000_000_000_000_000_000_000) by (nonlinear_arith)
        requires
            n == a * x + b * y,
            -1_000_000_000 <= x <= 1_000_000_000,
            -1_000_000_000 <= y <= 1_000_000_000,
            -4_000_000_000_000_000 <= a <= 4_000_000_000_000_000,
            -4_000_000_000_000_000 <= b <= 4_000_000_000_000_000,
    {
        assert(-4_000_000_000_000_000_000_000_000 <= a * x <= 4_000_000_000_000_000_000_000_000);
        assert(-4_000_000_000_000_000_000_000_000 <= b * y <= 4_000_000_000_000_000_000_000_000);
    }
    lemma_trunc_div_bounds(n, SCALE as int, MAX_APPROXIMATION as int);
    lemma_norm(x, y);
    lemma_norm_bounded(x, y);
    let approx = f_approximation_spec(x, y, a, b);
    let norm = f_spec(x, y);
    if norm > 0 {
        assert(abs(approx * SCALE) <= MAX_RATIO * norm) by (nonlinear_arith)
            requires
                abs(approx) <= 8_000_000_000_000_000_000,
                SCALE == 1_000_000,
                MAX_RATIO == 8_000_000_000_000_000_000_000_000,
                norm >= 1,
        ;
        lemma_trunc_div_bounds(approx * SCALE, norm, MAX_RATIO as int);
    }
}

/// The Euclidean norm of `(x, y)`, rounded down. It is zero at the origin only.
pub fn f(x: i64, y: i64) -> (norm: i64)
    requires
        in_range(x as int),
        in_range(y as int),
    ensures
        norm == f_spec(x as int, y as int),
        0 <= norm <= MAX_NORM,
        norm == 0 <==> (x == 0 && y == 0),
{
    proof {
        lemma_norm(x as int, y as int);
        lemma_norm_bounded(x as int, y as int);
        assert(0 <= x * x <= 1_000_000_000_000_000_000) by (nonlinear_arith)
            requires
                -1_000_000_000 <= x <= 1_000_000_000,
        ;
        assert(0 <= y * y <= 1_000_000_000_000_000_000) by (nonlinear_arith)
            requires
                -1_000_000_000 <= y <= 1_000_000_000,
        ;
    }
    let squares: i64 = x * x + y * y;
    isqrt(squares as u64) as i64
}

/// The linear form `a*x + b*y`, rounded toward zero.
pub fn f_approximation(x: i64, y: i64, a: i64, b: i64) -> (approx: i64)
    requires
        in_range(x as int),
        in_range(y as int),
        coefficient_in_range(a as int),
        coefficient_in_range(b as int),
    ensures
        approx == f_approximation_spec(x as int, y as int, a as int, b as int),
        abs(approx as int) <= MAX_APPROXIMATION,
{
    proof {
        lemma_approximation(x as int, y as int, a as int, b as int);
        assert(abs(a * x) <= 4_000_000_000_000_000_000_000_000) by (nonlinear_arith)
            requires
                -1_000_000_000 <= x <= 1_000_000_000,
                -4_000_000_000_000_000 <= a <= 4_000_000_000_000_000,
        ;
        assert(abs(b * y) <= 4_000_000_000_000_000_000_000_000) by (nonlinear_arith)
            requires
                -1_000_000_000 <= y <= 1_000_000_000,
                -4_000_000_000_000_000 <= b <= 4_000_000_000_000_000,
        ;
    }
    let form: i128 = (a as i128) * (x as i128) + (b as i128) * (y as i128);
    (form / (SCALE as i128)) as i64
}

/// Whether the sweep leaves the point `(x, y)` out: it does so at the origin,
/// where the norm is zero, and nowhere else.
pub open spec fn skipped(x: int, y: int) -> bool {
    x == 0 && y == 0
}

/// The statistics `acc` with the point `(x, y)` added, unless it is skipped.
pub open spec fn with_point(acc: StatsModel, x: int, y: int, a: int, b: int) -> StatsModel {
    if skipped(x, y) {
        acc
    } else {
        acc.record(error_at(x, y, a, b), ratio_at(x, y, a, b))
    }
}

/// The statistics `acc` with the first `count` points of the row at `x` added.
pub open spec fn row_stats(
    acc: StatsModel,
    a: int,
    b: int,
    x: int,
    min: int,
    max: int,
    n: int,
    count: int,
) -> StatsModel
    decreases count,
{
    if count <= 0 {
        acc
    } else {
        with_point(
            row_stats(acc, a, b, x, min, max, n, count - 1),
            x,
            sample(min, max, n, count - 1),
            a,
            b,
        )
    }
}

/// The statistics of the first `rows` rows of the `n` by `n` grid, ratios not
/// yet in percent.
pub open spec fn grid_stats(a: int, b: int, min: int, max: int, n: int, rows: int) -> StatsModel
    decreases rows,
{
    if rows <= 0 {
        StatsModel::empty()
    } else {
        row_stats(
            grid_stats(a, b, min, max, n, rows - 1),
            a,
            b,
            sample(min, max, n, rows - 1),
            min,
            max,
            n,
            n,
        )
    }
}

/// The statistics of the coefficients `(a, b)` over the grid of `n` by `n`
/// evenly spaced points of the square from `min` to `max`.
pub open spec fn eval_spec(a: int, b: int, min: int, max: int, n: int) -> StatsModel {
    grid_stats(a, b, min, max, n, n).in_percent()
}

/// Whether the ratio extrema of `stats` are small enough to become percentages.
pub open spec fn ratios_bounded(stats: StatsModel) -> bool {
    &&& stats.max_percent_error matches Some(v) ==> abs(v) <= MAX_RATIO
    &&& stats.min_percent_error matches Some(v) ==> abs(v) <= MAX_RATIO
}

/// Adding a point in range keeps the statistics well formed and bounded.
pub proof fn lemma_with_point(acc: StatsModel, x: int, y: int, a: int, b: int)
    requires
        acc.well_formed(),
        ratios_bounded(acc),
        in_range(x),
        in_range(y),
        coefficient_in_range(a),
        coefficient_in_range(b),
    ensures
        with_point(acc, x, y, a, b).well_formed(),
        ratios_bounded(with_point(acc, x, y, a, b)),
        acc.total_error <= with_point(acc, x, y, a, b).total_error <= acc.total_error + MAX_ERROR,
        acc.sampled() ==> with_point(acc, x, y, a, b).sampled(),
{
    lemma_norm(x, y);
    lemma_approximation(x, y, a, b);
    acc.lemma_record(error_at(x, y, a, b), ratio_at(x, y, a, b));
}

/// Evaluates the coefficients `(a, b)`: sweeps the grid of `iter_step` by
/// `iter_step` evenly spaced points of the square from `iter_min` to
/// `iter_max`, leaves out the origin, and records at every other point the
/// error and the ratio of the approximation. The ratio extrema come out as
/// percentages.
pub fn eval(a: i64, b: i64, iter_min: i64, iter_max: i64, iter_step: usize) -> (stats: ErrorStats)
    requires
        coefficient_in_range(a as int),
        coefficient_in_range(b as int),
        in_range(iter_min as int),
        in_range(iter_max as int),
        iter_step <= MAX_STEPS,
    ensures
        stats@ == eval_spec(a as int, b as int, iter_min as int, iter_max as int, iter_step as int),
        stats@.well_formed(),
{
    let samples = linspace(iter_min, iter_max, iter_step);
    let mut error_stats = ErrorStats::default();
    let ghost mut done: int = 0;
    let mut i: usize = 0;
    while i < iter_step
        invariant
            i <= iter_step <= MAX_STEPS,
            coefficient_in_range(a as int),
            coefficient_in_range(b as int),
            in_range(iter_min as int),
            in_range(iter_max as int),
            samples@.len() == iter_step,
            forall|k: int|
                0 <= k < iter_step ==> #[trigger] samples@[k] == sample(
                    iter_min as int,
                    iter_max as int,
                    iter_step as int,
                    k,
                ),
            error_stats@ == grid_stats(
                a as int,
                b as int,
                iter_min as int,
                iter_max as int,
                iter_step as int,
                i as int,
            ),
            error_stats@.well_formed(),
            ratios_bounded(error_stats@),
            done == i * iter_step,
            error_stats.total_error <= done * MAX_ERROR,
        decreases iter_step - i,
    {
        let x = samples[i];
        let ghost base = error_stats@;
        let mut j: usize = 0;
        proof {
            lemma_sample_between(iter_min as int, iter_max as int, iter_step as int, i as int);
            assert(0 <= done <= 4_294_967_295 * 4_294_967_295) by (nonlinear_arith)
                requires
                    done == i * iter_step,
                    0 <= i <= iter_step <= 4_294_967_295,
            ;
        }
        while j < iter_step
            invariant
                j <= iter_step <= MAX_STEPS,
                coefficient_in_range(a as int),
                coefficient_in_range(b as int),
                in_range(iter_min as int),
                in_range(iter_max as int),
                in_range(x as int),
                samples@.len() == iter_step,
                forall|k: int|
                    0 <= k < iter_step ==> #[trigger] samples@[k] == sample(
                        iter_min as int,
                        iter_max as int,
                        iter_step as int,
                        k,
                    ),
                error_stats@ == row_stats(
                    base,
                    a as int,
                    b as int,
                    x as int,
                    iter_min as int,
                    iter_max as int,
                    iter_step as int,
                    j as int,
                ),
                error_stats@.well_formed(),
                ratios_bounded(error_stats@),
                0 <= done <= 4_294_967_295 * 4_294_967_295,
                error_stats.total_error <= (done + j) * MAX_ERROR,
            decreases iter_step - j,
        {
            let y = samples[j];
            proof {
                lemma_sample_between(iter_min as int, iter_max as int, iter_step as int, j as int);
                lemma_with_point(error_stats@, x as int, y as int, a as int, b as int);
                lemma_approximation(x as int, y as int, a as int, b as int);
            }
            let true_output = f(x, y);
            let approx_output = f_approximation(x, y, a, b);
            if true_output != 0 {
                let error: i64 = true_output - approx_output;
                let percent_error: i128 = (approx_output as i128 * SCALE as i128)
                    / true_output as i128;
                error_stats.record(error as i128, percent_error);
            }
            j += 1;
        }
        proof {
            done = done + iter_step;
            assert((i + 1) * iter_step == i * iter_step + iter_step) by (nonlinear_arith);
        }
        i += 1;
    }
    proof {
        error_stats@.lemma_in_percent();
    }
    error_stats.to_percent();
    error_stats
}

} // verus!
