//! Running statistics of the approximation error over a sweep of sample points.

use vstd::prelude::*;
use crate::fixed::{abs, trunc_div};

verus! {

/// The mathematical content of an [`ErrorStats`].
pub struct StatsModel {
    /// The sum of the absolute errors of the recorded points.
    pub total_error: int,
    /// The largest signed error, once a point has been recorded.
    pub max_error: Option<int>,
    /// The smallest signed error, once a point has been recorded.
    pub min_error: Option<int>,
    /// The largest ratio of approximation to truth, once a point has been recorded.
    pub max_percent_error: Option<int>,
    /// The smallest ratio of approximation to truth, once a point has been recorded.
    pub min_percent_error: Option<int>,
}

/// The larger of `v` and the extremum so far; `v` itself where none is set.
pub open spec fn raised(cur: Option<int>, v: int) -> Option<int> {
    match cur {
        Some(c) => if c > v {
            Some(c)
        } else {
            Some(v)
        },
        None => Some(v),
    }
}

/// The smaller of `v` and the extremum so far; `v` itself where none is set.
pub open spec fn lowered(cur: Option<int>, v: int) -> Option<int> {
    match cur {
        Some(c) => if c < v {
            Some(c)
        } else {
            Some(v)
        },
        None => Some(v),
    }
}

/// An extremum multiplied by `factor`, where it is set.
pub open spec fn scaled(cur: Option<int>, factor: int) -> Option<int> {
    match cur {
        Some(c) => Some(c * factor),
        None => None,
    }
}

/// An optional machine integer as an optional mathematical integer.
pub open spec fn widened(cur: Option<i128>) -> Option<int> {
    match cur {
        Some(c) => Some(c as int),
        None => None,
    }
}

impl StatsModel {
    /// The statistics of no points: a zero total and no extremum set.
    pub open spec fn empty() -> StatsModel {
        StatsModel {
            total_error: 0,
            max_error: None,
            min_error: None,
            max_percent_error: None,
            min_percent_error: None,
        }
    }

    /// The statistics after one more point with the given signed error and ratio.
    pub open spec fn record(self, error: int, ratio: int) -> StatsModel {
        StatsModel {
            total_error: self.total_error + abs(error),
            max_error: raised(self.max_error, error),
            min_error: lowered(self.min_error, error),
            max_percent_error: raised(self.max_percent_error, ratio),
            min_percent_error: lowered(self.min_percent_error, ratio),
        }
    }

    /// The statistics with both ratio extrema turned into percentages.
    pub open spec fn in_percent(self) -> StatsModel {
        StatsModel {
            total_error: self.total_error,
            max_error: self.max_error,
            min_error: self.min_error,
            max_percent_error: scaled(self.max_percent_error, 100),
            min_percent_error: scaled(self.min_percent_error, 100),
        }
    }

    /// Whether at least one point has been recorded.
    pub open spec fn sampled(self) -> bool {
        self.max_error is Some
    }

    /// The total is not negative; the four extrema are set together; and each
    /// maximum is at least its minimum.
    pub open spec fn well_formed(self) -> bool {
        &&& self.total_error >= 0
        &&& (self.min_error is Some <==> self.sampled())
        &&& (self.max_percent_error is Some <==> self.sampled())
        &&& (self.min_percent_error is Some <==> self.sampled())
        &&& (self.sampled() ==> self.max_error->0 >= self.min_error->0)
        &&& (self.sampled() ==> self.max_percent_error->0 >= self.min_percent_error->0)
    }

    /// Recording a point keeps the statistics well formed, never lowers the
    /// total, and leaves every extremum set.
    pub proof fn lemma_record(self, error: int, ratio: int)
        requires
            self.well_formed(),
        ensures
            self.record(error, ratio).well_formed(),
            self.record(error, ratio).sampled(),
            self.record(error, ratio).total_error >= self.total_error,
            self.record(error, ratio).max_error->0 >= error >= self.record(error, ratio).min_error->0,
            self.record(error, ratio).max_percent_error->0 >= ratio
                >= self.record(error, ratio).min_percent_error->0,
    {
    }

    /// Turning the ratios into percentages keeps the statistics well formed.
    pub proof fn lemma_in_percent(self)
        requires
            self.well_formed(),
        ensures
            self.in_percent().well_formed(),
            self.in_percent().sampled() == self.sampled(),
    {
    }
}

/// Aggregate error of one evaluation: the total absolute error and the running
/// extrema of the signed error and of the ratio of approximation to truth.
/// An extremum is `None` until a point has been recorded.
#[derive(Clone, Copy, Debug, PartialEq, Eq)]
pub struct ErrorStats {
    /// The sum of the absolute errors, in millionths.
    pub total_error: i128,
    /// The largest signed error, truth minus approximation, in millionths.
    pub max_error: Option<i128>,
    /// The smallest signed error, in millionths.
    pub min_error: Option<i128>,
    /// The largest ratio of approximation to truth: in millionths during a
    /// sweep, in millionths of a percent after it.
    pub max_percent_error: Option<i128>,
    /// The smallest ratio of approximation to truth, in the same unit.
    pub min_percent_error: Option<i128>,
}

impl View for ErrorStats {
    type V = StatsModel;

    open spec fn view(&self) -> StatsModel {
        StatsModel {
            total_error: self.total_error as int,
            max_error: widened(self.max_error),
            min_error: widened(self.min_error),
            max_percent_error: widened(self.max_percent_error),
            min_percent_error: widened(self.min_percent_error),
        }
    }
}

impl Default for ErrorStats {
    fn default() -> (stats: Self)
        ensures
            stats@ == StatsModel::empty(),
            stats@.well_formed(),
    {
        ErrorStats {
            total_error: 0,
            max_error: None,
            min_error: None,
            max_percent_error: None,
            min_percent_error: None,
        }
    }
}

/// The larger of `v` and the extremum so far.
fn raise(cur: Option<i128>, v: i128) -> (r: Option<i128>)
    ensures
        widened(r) == raised(widened(cur), v as int),
{
    match cur {
        Some(c) => if c > v {
            Some(c)
        } else {
            Some(v)
        },
        None => Some(v),
    }
}

/// The smaller of `v` and the extremum so far.
fn lower(cur: Option<i128>, v: i128) -> (r: Option<i128>)
    ensures
        widened(r) == lowered(widened(cur), v as int),
{
    match cur {
        Some(c) => if c < v {
            Some(c)
        } else {
            Some(v)
        },
        None => Some(v),
    }
}

impl ErrorStats {
    /// Whether a hundred times each ratio extremum fits the machine integer.
    pub open spec fn percent_fits(self) -> bool {
        &&& self.max_percent_error is Some ==> i128::MIN <= self.max_percent_error->0 * 100
            <= i128::MAX
        &&& self.min_percent_error is Some ==> i128::MIN <= self.min_percent_error->0 * 100
            <= i128::MAX
    }

    /// Records one point: adds the magnitude of `error` to the total and
    /// moves each extremum that the point exceeds.
    pub fn record(&mut self, error: i128, ratio: i128)
        requires
            old(self).total_error >= 0,
            old(self).total_error + abs(error as int) <= i128::MAX,
        ensures
            final(self)@ == old(self)@.record(error as int, ratio as int),
            final(self).total_error >= old(self).total_error,
            old(self)@.well_formed() ==> final(self)@.well_formed(),
    {
        let magnitude: i128 = if error < 0 {
            -error
        } else {
            error
        };
        self.total_error = self.total_error + magnitude;
        self.max_error = raise(self.max_error, error);
        self.min_error = lower(self.min_error, error);
        self.max_percent_error = raise(self.max_percent_error, ratio);
        self.min_percent_error = lower(self.min_percent_error, ratio);
    }

    /// Turns both ratio extrema into percentages, once the sweep is over.
    pub fn to_percent(&mut self)
        requires
            old(self).percent_fits(),
        ensures
            final(self)@ == old(self)@.in_percent(),
            old(self)@.well_formed() ==> final(self)@.well_formed(),
    {
        self.max_percent_error = match self.max_percent_error {
            Some(c) => Some(c * 100),
            None => None,
        };
        self.min_percent_error = match self.min_percent_error {
            Some(c) => Some(c * 100),
            None => None,
        };
    }

    /// The total error divided by the number of points, rounded toward zero;
    /// `None` where there are no points.
    pub fn average_error(&self, total_iters: u64) -> (avg: Option<i128>)
        ensures
            total_iters == 0 <==> avg is None,
            avg matches Some(v) ==> v == trunc_div(self.total_error as int, total_iters as int),
    {
        if total_iters == 0 {
            None
        } else {
            Some(self.total_error / (total_iters as i128))
        }
    }
}

} // verus!
