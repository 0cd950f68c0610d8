//! The total error of an evaluation as a sum over the grid, and what follows
//! from that: it never decreases as points are added, and it is the same when
//! the two coefficients change places.

use vstd::prelude::*;
use crate::fixed::abs;
use crate::objective::{
    error_at, eval_spec, grid_stats, lemma_norm, row_stats, skipped, with_point,
};
use crate::sampling::sample;
use crate::stats::StatsModel;

verus! {

/// What the point `(x, y)` adds to the total error: nothing at the origin,
/// elsewhere the magnitude of the error.
pub open spec fn point_error(x: int, y: int, a: int, b: int) -> int {
    if skipped(x, y) {
        0
    } else {
        abs(error_at(x, y, a, b))
    }
}

/// The sum of `point_error` over the first `count` points of the row at `x`.
pub open spec fn row_sum(a: int, b: int, x: int, min: int, max: int, n: int, count: int) -> int
    decreases count,
{
    if count <= 0 {
        0
    } else {
        row_sum(a, b, x, min, max, n, count - 1) + point_error(
            x,
            sample(min, max, n, count - 1),
            a,
            b,
        )
    }
}

/// The sum of `point_error` over the first `count` points of the column at `y`.
pub open spec fn column_sum(a: int, b: int, y: int, min: int, max: int, n: int, count: int) -> int
    decreases count,
{
    if count <= 0 {
        0
    } else {
        column_sum(a, b, y, min, max, n, count - 1) + point_error(
            sample(min, max, n, count - 1),
            y,
            a,
            b,
        )
    }
}

/// The sum of `point_error` over the first `cols` points of each of the first
/// `rows` rows.
pub open spec fn block_sum(a: int, b: int, min: int, max: int, n: int, rows: int, cols: int) -> int
    decreases rows,
{
    if rows <= 0 {
        0
    } else {
        block_sum(a, b, min, max, n, rows - 1, cols) + row_sum(
            a,
            b,
            sample(min, max, n, rows - 1),
            min,
            max,
            n,
            cols,
        )
    }
}

/// A point adds the same to the total when the coordinates change places
/// together with the coefficients.
pub proof fn lemma_point_error_symmetric(x: int, y: int, a: int, b: int)
    ensures
        point_error(x, y, a, b) == point_error(y, x, b, a),
        point_error(x, y, a, b) >= 0,
{
    lemma_norm(x, y);
    assert(a * x + b * y == b * y + a * x);
}

/// A sweep along a row adds the row's sum to the total.
pub proof fn lemma_row_total(
    acc: StatsModel,
    a: int,
    b: int,
    x: int,
    min: int,
    max: int,
    n: int,
    count: int,
)
    ensures
        row_stats(acc, a, b, x, min, max, n, count).total_error == acc.total_error + row_sum(
            a,
            b,
            x,
            min,
            max,
            n,
            count,
        ),
    decreases count,
{
    if count > 0 {
        lemma_row_total(acc, a, b, x, min, max, n, count - 1);
    }
}

/// The total error after `rows` rows is the sum of `point_error` over their
/// points: the origin adds nothing, every other point its absolute error.
pub proof fn lemma_grid_total(a: int, b: int, min: int, max: int, n: int, rows: int)
    ensures
        grid_stats(a, b, min, max, n, rows).total_error == block_sum(a, b, min, max, n, rows, n),
    decreases rows,
{
    if rows > 0 {
        lemma_grid_total(a, b, min, max, n, rows - 1);
        lemma_row_total(
            grid_stats(a, b, min, max, n, rows - 1),
            a,
            b,
            sample(min, max, n, rows - 1),
            min,
            max,
            n,
            n,
        );
    }
}

/// The total error of an evaluation is the sum of `point_error` over the grid.
pub proof fn lemma_eval_total(a: int, b: int, min: int, max: int, n: int)
    ensures
        eval_spec(a, b, min, max, n).total_error == block_sum(a, b, min, max, n, n, n),
{
    lemma_grid_total(a, b, min, max, n, n);
}

/// The sum along a row is not negative and does not decrease as points are
/// added.
pub proof fn lemma_row_sum_grows(
    a: int,
    b: int,
    x: int,
    min: int,
    max: int,
    n: int,
    fewer: int,
    more: int,
)
    requires
        fewer <= more,
    ensures
        0 <= row_sum(a, b, x, min, max, n, fewer) <= row_sum(a, b, x, min, max, n, more),
    decreases more,
{
    if more > 0 {
        lemma_point_error_symmetric(x, sample(min, max, n, more - 1), a, b);
        if fewer < more {
            lemma_row_sum_grows(a, b, x, min, max, n, fewer, more - 1);
        } else {
            lemma_row_sum_grows(a, b, x, min, max, n, fewer - 1, more - 1);
        }
    }
}

/// The total error is never negative, and it does not decrease as points are
/// added along a row.
pub proof fn lemma_total_error_grows_along_row(
    acc: StatsModel,
    a: int,
    b: int,
    x: int,
    min: int,
    max: int,
    n: int,
    fewer: int,
    more: int,
)
    requires
        acc.total_error >= 0,
        fewer <= more,
    ensures
        0 <= acc.total_error <= row_stats(acc, a, b, x, min, max, n, fewer).total_error
            <= row_stats(acc, a, b, x, min, max, n, more).total_error,
{
    lemma_row_total(acc, a, b, x, min, max, n, fewer);
    lemma_row_total(acc, a, b, x, min, max, n, more);
    lemma_row_sum_grows(a, b, x, min, max, n, fewer, more);
}

/// The total error is never negative, and it does not decrease as rows are
/// added.
pub proof fn lemma_total_error_grows(
    a: int,
    b: int,
    min: int,
    max: int,
    n: int,
    fewer: int,
    more: int,
)
    requires
        fewer <= more,
    ensures
        0 <= grid_stats(a, b, min, max, n, fewer).total_error <= grid_stats(
            a,
            b,
            min,
            max,
            n,
            more,
        ).total_error,
    decreases more,
{
    if more > 0 {
        if fewer < more {
            lemma_total_error_grows(a, b, min, max, n, fewer, more - 1);
        } else {
            lemma_total_error_grows(a, b, min, max, n, fewer - 1, more - 1);
        }
        lemma_total_error_grows_along_row(
            grid_stats(a, b, min, max, n, more - 1),
            a,
            b,
            sample(min, max, n, more - 1),
            min,
            max,
            n,
            if n < 0 {
                n
            } else {
                0
            },
            n,
        );
    }
}

/// The sum down a column is the sum along the row of the same coordinate
/// with the coefficients exchanged.
proof fn lemma_column_is_row(a: int, b: int, y: int, min: int, max: int, n: int, count: int)
    ensures
        column_sum(a, b, y, min, max, n, count) == row_sum(b, a, y, min, max, n, count),
    decreases count,
{
    if count > 0 {
        lemma_column_is_row(a, b, y, min, max, n, count - 1);
        lemma_point_error_symmetric(sample(min, max, n, count - 1), y, a, b);
    }
}

/// A block with one more column is the narrower block plus that column.
proof fn lemma_block_by_columns(
    a: int,
    b: int,
    min: int,
    max: int,
    n: int,
    rows: int,
    cols: int,
)
    requires
        cols >= 1,
    ensures
        block_sum(a, b, min, max, n, rows, cols) == block_sum(a, b, min, max, n, rows, cols - 1)
            + column_sum(a, b, sample(min, max, n, cols - 1), min, max, n, rows),
    decreases rows,
{
    if rows > 0 {
        lemma_block_by_columns(a, b, min, max, n, rows - 1, cols);
    }
}

/// The sum over a block is the sum over the transposed block with the
/// coefficients exchanged.
pub proof fn lemma_block_transposed(
    a: int,
    b: int,
    min: int,
    max: int,
    n: int,
    rows: int,
    cols: int,
)
    ensures
        block_sum(a, b, min, max, n, rows, cols) == block_sum(b, a, min, max, n, cols, rows),
    decreases cols,
{
    if cols <= 0 {
        lemma_block_without_columns(a, b, min, max, n, rows, cols);
    } else {
        lemma_block_by_columns(a, b, min, max, n, rows, cols);
        lemma_block_transposed(a, b, min, max, n, rows, cols - 1);
        lemma_column_is_row(a, b, sample(min, max, n, cols - 1), min, max, n, rows);
    }
}

/// A block without columns sums to nothing.
proof fn lemma_block_without_columns(a: int, b: int, min: int, max: int, n: int, rows: int, cols: int)
    requires
        cols <= 0,
    ensures
        block_sum(a, b, min, max, n, rows, cols) == 0,
    decreases rows,
{
    if rows > 0 {
        lemma_block_without_columns(a, b, min, max, n, rows - 1, cols);
    }
}

/// The total error of an evaluation is the same when the two coefficients
/// change places: the norm is symmetric in its coordinates, and both run
/// over the same samples.
pub proof fn lemma_total_error_symmetric(a: int, b: int, min: int, max: int, n: int)
    ensures
        eval_spec(a, b, min, max, n).total_error == eval_spec(b, a, min, max, n).total_error,
{
    lemma_eval_total(a, b, min, max, n);
    lemma_eval_total(b, a, min, max, n);
    lemma_block_transposed(a, b, min, max, n, n, n);
}

} // verus!
