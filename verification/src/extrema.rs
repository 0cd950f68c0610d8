//! The extrema of an evaluation, said directly: they are set as soon as one
//! point other than the origin lies on the grid, every such point lies
//! between them, and each of them is the value at one such point.

use vstd::prelude::*;
use crate::objective::{
    error_at, eval_spec, grid_stats, lemma_norm, ratio_at, row_stats, skipped, with_point,
};
use crate::sampling::sample;
use crate::stats::StatsModel;
use crate::total_error::lemma_total_error_symmetric;

verus! {

/// Whether the extrema of `stats` are set and `error` and `ratio` lie
/// between them.
pub open spec fn encloses(stats: StatsModel, error: int, ratio: int) -> bool {
    &&& stats.max_error matches Some(v) && v >= error
    &&& stats.min_error matches Some(v) && v <= error
    &&& stats.max_percent_error matches Some(v) && v >= ratio
    &&& stats.min_percent_error matches Some(v) && v <= ratio
}

/// Whether `later` has every extremum set that `earlier` has, and no
/// narrower.
pub open spec fn extends(later: StatsModel, earlier: StatsModel) -> bool {
    &&& earlier.max_error matches Some(v) ==> later.max_error matches Some(w) && w >= v
    &&& earlier.min_error matches Some(v) ==> later.min_error matches Some(w) && w <= v
    &&& earlier.max_percent_error matches Some(v) ==> later.max_percent_error matches Some(w) && w
        >= v
    &&& earlier.min_percent_error matches Some(v) ==> later.min_percent_error matches Some(w) && w
        <= v
}

/// The error at the grid point with the indices `(i, j)`.
pub open spec fn error_on_grid(a: int, b: int, min: int, max: int, n: int, i: int, j: int) -> int {
    error_at(sample(min, max, n, i), sample(min, max, n, j), a, b)
}

/// The ratio at the grid point with the indices `(i, j)`.
pub open spec fn ratio_on_grid(a: int, b: int, min: int, max: int, n: int, i: int, j: int) -> int {
    ratio_at(sample(min, max, n, i), sample(min, max, n, j), a, b)
}

/// Whether the grid point with the indices `(i, j)` exists and is not the
/// origin.
pub open spec fn counted(min: int, max: int, n: int, i: int, j: int) -> bool {
    0 <= i < n && 0 <= j < n && !skipped(sample(min, max, n, i), sample(min, max, n, j))
}

/// Whether `v` is the error at a counted grid point.
pub open spec fn error_occurs(a: int, b: int, min: int, max: int, n: int, v: int) -> bool {
    exists|i: int, j: int|
        counted(min, max, n, i, j) && #[trigger] error_on_grid(a, b, min, max, n, i, j) == v
}

/// Whether `v` is the ratio at a counted grid point.
pub open spec fn ratio_occurs(a: int, b: int, min: int, max: int, n: int, v: int) -> bool {
    exists|i: int, j: int|
        counted(min, max, n, i, j) && #[trigger] ratio_on_grid(a, b, min, max, n, i, j) == v
}

/// Whether each extremum that is set in `stats` is the value at a counted
/// grid point.
pub open spec fn attained(stats: StatsModel, a: int, b: int, min: int, max: int, n: int) -> bool {
    &&& stats.max_error matches Some(v) ==> error_occurs(a, b, min, max, n, v)
    &&& stats.min_error matches Some(v) ==> error_occurs(a, b, min, max, n, v)
    &&& stats.max_percent_error matches Some(v) ==> ratio_occurs(a, b, min, max, n, v)
    &&& stats.min_percent_error matches Some(v) ==> ratio_occurs(a, b, min, max, n, v)
}

/// Along row `i` the statistics stay well formed, keep what they enclosed,
/// enclose every counted point passed, and take their extrema from the grid.
pub proof fn lemma_row_extrema(
    acc: StatsModel,
    a: int,
    b: int,
    min: int,
    max: int,
    n: int,
    i: int,
    count: int,
)
    requires
        acc.well_formed(),
        0 <= i < n,
        count <= n,
    ensures
        row_stats(acc, a, b, sample(min, max, n, i), min, max, n, count).well_formed(),
        extends(row_stats(acc, a, b, sample(min, max, n, i), min, max, n, count), acc),
        forall|j: int|
            0 <= j < count && counted(min, max, n, i, j) ==> encloses(
                row_stats(acc, a, b, sample(min, max, n, i), min, max, n, count),
                #[trigger] error_on_grid(a, b, min, max, n, i, j),
                ratio_on_grid(a, b, min, max, n, i, j),
            ),
        attained(acc, a, b, min, max, n) ==> attained(
            row_stats(acc, a, b, sample(min, max, n, i), min, max, n, count),
            a,
            b,
            min,
            max,
            n,
        ),
        (forall|j: int| 0 <= j < count ==> !counted(min, max, n, i, j)) ==> row_stats(
            acc,
            a,
            b,
            sample(min, max, n, i),
            min,
            max,
            n,
            count,
        ) == acc,
    decreases count,
{
    if count > 0 {
        lemma_row_extrema(acc, a, b, min, max, n, i, count - 1);
        let x = sample(min, max, n, i);
        let y = sample(min, max, n, count - 1);
        let before = row_stats(acc, a, b, x, min, max, n, count - 1);
        let after = row_stats(acc, a, b, x, min, max, n, count);
        assert(after == with_point(before, x, y, a, b));
        if counted(min, max, n, i, count - 1) {
            let e = error_on_grid(a, b, min, max, n, i, count - 1);
            let r = ratio_on_grid(a, b, min, max, n, i, count - 1);
            before.lemma_record(e, r);
            assert(error_occurs(a, b, min, max, n, e));
            assert(ratio_occurs(a, b, min, max, n, r));
        } else {
            assert(after == before);
        }
        assert forall|j: int| 0 <= j < count && counted(min, max, n, i, j) implies encloses(
            after,
            #[trigger] error_on_grid(a, b, min, max, n, i, j),
            ratio_on_grid(a, b, min, max, n, i, j),
        ) by {
            if j < count - 1 {
                assert(encloses(
                    before,
                    error_on_grid(a, b, min, max, n, i, j),
                    ratio_on_grid(a, b, min, max, n, i, j),
                ));
            }
        }
        if forall|j: int| 0 <= j < count ==> !counted(min, max, n, i, j) {
            assert(!counted(min, max, n, i, count - 1));
        }
    }
}

/// Over the first `rows` rows the statistics are well formed, enclose every
/// counted point, take their extrema from the grid, and are empty where no
/// point is counted.
pub proof fn lemma_grid_extrema(a: int, b: int, min: int, max: int, n: int, rows: int)
    requires
        rows <= n,
    ensures
        grid_stats(a, b, min, max, n, rows).well_formed(),
        forall|i: int, j: int|
            0 <= i < rows && counted(min, max, n, i, j) ==> encloses(
                grid_stats(a, b, min, max, n, rows),
                #[trigger] error_on_grid(a, b, min, max, n, i, j),
                ratio_on_grid(a, b, min, max, n, i, j),
            ),
        attained(grid_stats(a, b, min, max, n, rows), a, b, min, max, n),
        (forall|i: int, j: int| 0 <= i < rows ==> !#[trigger] counted(min, max, n, i, j))
            ==> grid_stats(a, b, min, max, n, rows) == StatsModel::empty(),
    decreases rows,
{
    if rows > 0 {
        lemma_grid_extrema(a, b, min, max, n, rows - 1);
        let before = grid_stats(a, b, min, max, n, rows - 1);
        let after = grid_stats(a, b, min, max, n, rows);
        lemma_row_extrema(before, a, b, min, max, n, rows - 1, n);
        assert forall|i: int, j: int| 0 <= i < rows && counted(min, max, n, i, j) implies encloses(
            after,
            #[trigger] error_on_grid(a, b, min, max, n, i, j),
            ratio_on_grid(a, b, min, max, n, i, j),
        ) by {
            if i < rows - 1 {
                assert(encloses(
                    before,
                    error_on_grid(a, b, min, max, n, i, j),
                    ratio_on_grid(a, b, min, max, n, i, j),
                ));
            }
        }
        if forall|i: int, j: int| 0 <= i < rows ==> !#[trigger] counted(min, max, n, i, j) {
            let last = rows - 1;
            assert forall|j: int| 0 <= j < n implies !#[trigger] counted(min, max, n, last, j) by {}
        }
    }
}

/// The statistics of an evaluation are well formed: the total is not
/// negative, and once a point has been recorded each maximum is at least its
/// minimum.
pub proof fn lemma_eval_well_formed(a: int, b: int, min: int, max: int, n: int)
    ensures
        eval_spec(a, b, min, max, n).well_formed(),
{
    lemma_grid_extrema(a, b, min, max, n, n);
    grid_stats(a, b, min, max, n, n).lemma_in_percent();
}

/// An evaluation counts every grid point but the origin: the error at such a
/// point lies between the error extrema, and its ratio, as a percentage,
/// between the ratio extrema.
pub proof fn lemma_eval_encloses(a: int, b: int, min: int, max: int, n: int, i: int, j: int)
    requires
        counted(min, max, n, i, j),
    ensures
        encloses(
            eval_spec(a, b, min, max, n),
            error_on_grid(a, b, min, max, n, i, j),
            100 * ratio_on_grid(a, b, min, max, n, i, j),
        ),
{
    lemma_grid_extrema(a, b, min, max, n, n);
    assert(encloses(
        grid_stats(a, b, min, max, n, n),
        error_on_grid(a, b, min, max, n, i, j),
        ratio_on_grid(a, b, min, max, n, i, j),
    ));
}

/// The extrema of an evaluation are set exactly where the grid has a point
/// other than the origin.
pub proof fn lemma_eval_sampled(a: int, b: int, min: int, max: int, n: int)
    ensures
        eval_spec(a, b, min, max, n).sampled() <==> exists|i: int, j: int| #[trigger]
            counted(min, max, n, i, j),
{
    lemma_grid_extrema(a, b, min, max, n, n);
    if exists|i: int, j: int| #[trigger] counted(min, max, n, i, j) {
        let (i, j) = choose|i: int, j: int| #[trigger] counted(min, max, n, i, j);
        lemma_eval_encloses(a, b, min, max, n, i, j);
    }
}

/// Each extremum of an evaluation is the value at a grid point other than the
/// origin: an error, or a hundred times a ratio.
pub proof fn lemma_eval_attained(a: int, b: int, min: int, max: int, n: int)
    ensures
        eval_spec(a, b, min, max, n).max_error matches Some(v) ==> error_occurs(
            a,
            b,
            min,
            max,
            n,
            v,
        ),
        eval_spec(a, b, min, max, n).min_error matches Some(v) ==> error_occurs(
            a,
            b,
            min,
            max,
            n,
            v,
        ),
        eval_spec(a, b, min, max, n).max_percent_error matches Some(v) ==> exists|r: int|
            v == 100 * r && #[trigger] ratio_occurs(a, b, min, max, n, r),
        eval_spec(a, b, min, max, n).min_percent_error matches Some(v) ==> exists|r: int|
            v == 100 * r && #[trigger] ratio_occurs(a, b, min, max, n, r),
{
    lemma_grid_extrema(a, b, min, max, n, n);
    let raw = grid_stats(a, b, min, max, n, n);
    if let Some(r) = raw.max_percent_error {
        assert(ratio_occurs(a, b, min, max, n, r));
    }
    if let Some(r) = raw.min_percent_error {
        assert(ratio_occurs(a, b, min, max, n, r));
    }
}

/// The error and the ratio at a grid point are those at the mirrored point
/// with the coefficients exchanged.
pub proof fn lemma_grid_point_mirrored(
    a: int,
    b: int,
    min: int,
    max: int,
    n: int,
    i: int,
    j: int,
)
    ensures
        error_on_grid(a, b, min, max, n, i, j) == error_on_grid(b, a, min, max, n, j, i),
        ratio_on_grid(a, b, min, max, n, i, j) == ratio_on_grid(b, a, min, max, n, j, i),
        counted(min, max, n, i, j) == counted(min, max, n, j, i),
{
    let x = sample(min, max, n, i);
    let y = sample(min, max, n, j);
    lemma_norm(x, y);
    assert(a * x + b * y == b * y + a * x);
}

/// Every extremum of the evaluation of `(a, b)` lies within the extrema of
/// the evaluation of `(b, a)`.
proof fn lemma_eval_within_mirrored(a: int, b: int, min: int, max: int, n: int)
    ensures
        eval_spec(a, b, min, max, n).sampled() ==> {
            let one = eval_spec(a, b, min, max, n);
            let other = eval_spec(b, a, min, max, n);
            &&& other.well_formed() && other.sampled()
            &&& one.max_error->0 <= other.max_error->0
            &&& one.min_error->0 >= other.min_error->0
            &&& one.max_percent_error->0 <= other.max_percent_error->0
            &&& one.min_percent_error->0 >= other.min_percent_error->0
        },
{
    let one = eval_spec(a, b, min, max, n);
    let other = eval_spec(b, a, min, max, n);
    lemma_eval_well_formed(a, b, min, max, n);
    lemma_eval_well_formed(b, a, min, max, n);
    if one.sampled() {
        lemma_eval_attained(a, b, min, max, n);
        let v = one.max_error->0;
        let (i, j) = choose|i: int, j: int|
            counted(min, max, n, i, j) && #[trigger] error_on_grid(a, b, min, max, n, i, j) == v;
        lemma_grid_point_mirrored(a, b, min, max, n, i, j);
        lemma_eval_encloses(b, a, min, max, n, j, i);
        let v = one.min_error->0;
        let (i, j) = choose|i: int, j: int|
            counted(min, max, n, i, j) && #[trigger] error_on_grid(a, b, min, max, n, i, j) == v;
        lemma_grid_point_mirrored(a, b, min, max, n, i, j);
        lemma_eval_encloses(b, a, min, max, n, j, i);
        let v = one.max_percent_error->0;
        let r = choose|r: int| v == 100 * r && #[trigger] ratio_occurs(a, b, min, max, n, r);
        let (i, j) = choose|i: int, j: int|
            counted(min, max, n, i, j) && #[trigger] ratio_on_grid(a, b, min, max, n, i, j) == r;
        lemma_grid_point_mirrored(a, b, min, max, n, i, j);
        lemma_eval_encloses(b, a, min, max, n, j, i);
        let v = one.min_percent_error->0;
        let r = choose|r: int| v == 100 * r && #[trigger] ratio_occurs(a, b, min, max, n, r);
        let (i, j) = choose|i: int, j: int|
            counted(min, max, n, i, j) && #[trigger] ratio_on_grid(a, b, min, max, n, i, j) == r;
        lemma_grid_point_mirrored(a, b, min, max, n, i, j);
        lemma_eval_encloses(b, a, min, max, n, j, i);
    }
}

/// An evaluation is the same when the two coefficients change places: the
/// norm is symmetric in its coordinates, and both run over the same samples.
pub proof fn lemma_eval_symmetric(a: int, b: int, min: int, max: int, n: int)
    ensures
        eval_spec(a, b, min, max, n) == eval_spec(b, a, min, max, n),
{
    lemma_total_error_symmetric(a, b, min, max, n);
    lemma_eval_well_formed(a, b, min, max, n);
    lemma_eval_well_formed(b, a, min, max, n);
    lemma_eval_within_mirrored(a, b, min, max, n);
    lemma_eval_within_mirrored(b, a, min, max, n);
}

} // verus!
