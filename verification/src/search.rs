//! What the two search strategies share: the configuration, the best
//! candidate found so far, and the rule by which a candidate replaces it.

use vstd::prelude::*;
use crate::fixed::in_range;
use crate::objective::eval_spec;
use crate::sampling::{sample, MAX_STEPS};
use crate::stats::{ErrorStats, StatsModel};

verus! {

/// The bounds and sizes of a search.
#[derive(Clone, Copy, Debug, PartialEq, Eq)]
pub struct SearchConfig {
    /// The lower bound of the coefficients.
    pub param_min: i64,
    /// The upper bound of the coefficients.
    pub param_max: i64,
    /// The number of samples per coefficient in the exhaustive search; the
    /// number of stages in the randomized search.
    pub param_steps: usize,
    /// The number of trials in one stage of the randomized search.
    pub param_sub_steps: usize,
    /// The lower bound of the evaluation grid.
    pub iter_min: i64,
    /// The upper bound of the evaluation grid.
    pub iter_max: i64,
    /// The number of samples along each axis of the evaluation grid.
    pub iter_steps: usize,
    /// Whether the search runs in its strict mode: a best total error of zero
    /// counts as "nothing found yet", and the randomized search moves both
    /// coefficients to the second one of an accepted candidate.
    pub strict_fidelity: bool,
}

impl SearchConfig {
    /// The bounds are in range and the sizes within the supported limit.
    pub open spec fn valid(self) -> bool {
        &&& in_range(self.param_min as int)
        &&& in_range(self.param_max as int)
        &&& in_range(self.iter_min as int)
        &&& in_range(self.iter_max as int)
        &&& self.param_steps <= MAX_STEPS
        &&& self.iter_steps <= MAX_STEPS
    }

    /// Candidate number `k` of a coefficient in the exhaustive search.
    pub open spec fn candidate(self, k: int) -> int {
        sample(self.param_min as int, self.param_max as int, self.param_steps as int, k)
    }

    /// The total error of the coefficients `(a, b)` over the evaluation grid.
    pub open spec fn total_of(self, a: int, b: int) -> int {
        eval_spec(
            a,
            b,
            self.iter_min as int,
            self.iter_max as int,
            self.iter_steps as int,
        ).total_error
    }

    /// The configuration of the exhaustive search: a hundred candidates per
    /// coefficient between minus one and one, evaluated on a hundred by a
    /// hundred points of the same square.
    pub fn brute_force(strict_fidelity: bool) -> (cfg: Self)
        ensures
            cfg.valid(),
            cfg.param_min == -1_000_000 && cfg.param_max == 1_000_000,
            cfg.iter_min == -1_000_000 && cfg.iter_max == 1_000_000,
            cfg.param_steps == 100 && cfg.iter_steps == 100 && cfg.param_sub_steps == 0,
            cfg.strict_fidelity == strict_fidelity,
    {
        SearchConfig {
            param_min: -1_000_000,
            param_max: 1_000_000,
            param_steps: 100,
            param_sub_steps: 0,
            iter_min: -1_000_000,
            iter_max: 1_000_000,
            iter_steps: 100,
            strict_fidelity,
        }
    }

    /// The number of points of the evaluation grid.
    pub fn total_iters(&self) -> (points: u64)
        requires
            self.iter_steps <= MAX_STEPS,
        ensures
            points == self.iter_steps * self.iter_steps,
    {
        assert(self.iter_steps * self.iter_steps <= 4_294_967_295 * 4_294_967_295)
            by (nonlinear_arith)
            requires
                0 <= self.iter_steps <= 4_294_967_295,
        ;
        (self.iter_steps as u64) * (self.iter_steps as u64)
    }

    /// Whether the configuration is valid.
    pub fn is_valid(&self) -> (ok: bool)
        ensures
            ok == self.valid(),
    {
        -1_000_000_000 <= self.param_min && self.param_min <= 1_000_000_000
            && -1_000_000_000 <= self.param_max && self.param_max <= 1_000_000_000
            && -1_000_000_000 <= self.iter_min && self.iter_min <= 1_000_000_000
            && -1_000_000_000 <= self.iter_max && self.iter_max <= 1_000_000_000
            && self.param_steps <= MAX_STEPS && self.iter_steps <= MAX_STEPS
    }
}

/// A pair of coefficients with the statistics of its evaluation.
#[derive(Clone, Copy, Debug, PartialEq, Eq)]
pub struct Best {
    pub a: i64,
    pub b: i64,
    pub stats: ErrorStats,
}

/// The mathematical content of a [`Best`].
pub struct BestModel {
    pub a: int,
    pub b: int,
    pub stats: StatsModel,
}

impl View for Best {
    type V = BestModel;

    open spec fn view(&self) -> BestModel {
        BestModel { a: self.a as int, b: self.b as int, stats: self.stats@ }
    }
}

/// Whether a candidate with the total error `candidate` replaces the
/// incumbent. The first candidate always does; a later one does where its
/// total error is strictly lower, so that of two equal candidates the earlier
/// stays. With `strict` an incumbent whose total error is zero counts as none.
pub open spec fn accepts(incumbent: Option<int>, candidate: int, strict: bool) -> bool {
    match incumbent {
        None => true,
        Some(best) => (strict && best == 0) || candidate < best,
    }
}

/// Whether a candidate with the total error `candidate` replaces the
/// incumbent with the total error `incumbent`, if there is one.
pub fn improves(incumbent: Option<i128>, candidate: i128, strict_fidelity: bool) -> (yes: bool)
    ensures
        yes == accepts(crate::stats::widened(incumbent), candidate as int, strict_fidelity),
{
    match incumbent {
        None => true,
        Some(best) => (strict_fidelity && best == 0) || candidate < best,
    }
}

} // verus!
