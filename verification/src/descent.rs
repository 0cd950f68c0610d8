//! The randomized local search: trial moves around the current point within a
//! radius that is halved after every stage.

use vstd::prelude::*;
use rand::Rng;
use crate::fixed::{abs, coefficient_in_range, trunc_div, MAX_COEFFICIENT};
use crate::objective::{eval, eval_spec};
use crate::search::{accepts, improves, Best, BestModel, SearchConfig};

verus! {

/// The mathematical content of a [`Descent`].
pub struct DescentModel {
    pub a: int,
    pub b: int,
    pub delta: int,
    pub improvements: Seq<BestModel>,
}

/// The state of the randomized search.
#[derive(Debug, PartialEq, Eq)]
pub struct Descent {
    /// The first coefficient of the current point.
    pub a: i64,
    /// The second coefficient of the current point.
    pub b: i64,
    /// The radius within which a trial moves each coefficient.
    pub delta: i64,
    /// The accepted candidates in the order of their acceptance, each with
    /// the statistics of its evaluation. The last one is the best so far.
    pub improvements: Vec<Best>,
}

impl View for Descent {
    type V = DescentModel;

    open spec fn view(&self) -> DescentModel {
        DescentModel {
            a: self.a as int,
            b: self.b as int,
            delta: self.delta as int,
            improvements: self.improvements@.map_values(|found: Best| found@),
        }
    }
}

/// The total error of the best candidate so far, if there is one.
pub open spec fn incumbent_total(improvements: Seq<BestModel>) -> Option<int> {
    if improvements.len() == 0 {
        None
    } else {
        Some(improvements.last().stats.total_error)
    }
}

/// The point from which the search starts, on both coefficients: the upper
/// bound plus half the lower bound.
pub open spec fn starting_point(cfg: SearchConfig) -> int {
    cfg.param_max + trunc_div(cfg.param_min as int, 2)
}

/// The radius of the first stage: half the sum of the magnitudes of the two
/// bounds, which is half their span where they lie on either side of zero.
pub open spec fn initial_delta(cfg: SearchConfig) -> int {
    (abs(cfg.param_max as int) + abs(cfg.param_min as int)) / 2
}

/// The state before the first trial.
pub open spec fn initial(cfg: SearchConfig) -> DescentModel {
    DescentModel {
        a: starting_point(cfg),
        b: starting_point(cfg),
        delta: initial_delta(cfg),
        improvements: Seq::empty(),
    }
}

/// The state after one trial that moves the coefficients by the given
/// offsets. The candidate is accepted where its total error improves on the
/// best so far; it then becomes the current point and the last improvement.
/// With `strict_fidelity` both coefficients of the current point become the
/// second coefficient of the candidate.
pub open spec fn trial(cfg: SearchConfig, s: DescentModel, offset_a: int, offset_b: int)
    -> DescentModel {
    let this_a = s.a + offset_a;
    let this_b = s.b + offset_b;
    let stats = eval_spec(
        this_a,
        this_b,
        cfg.iter_min as int,
        cfg.iter_max as int,
        cfg.iter_steps as int,
    );
    if accepts(incumbent_total(s.improvements), stats.total_error, cfg.strict_fidelity) {
        DescentModel {
            a: if cfg.strict_fidelity {
                this_b
            } else {
                this_a
            },
            b: this_b,
            delta: s.delta,
            improvements: s.improvements.push(BestModel { a: this_a, b: this_b, stats }),
        }
    } else {
        s
    }
}

/// The state with the radius halved.
pub open spec fn cooled(s: DescentModel) -> DescentModel {
    DescentModel { a: s.a, b: s.b, delta: trunc_div(s.delta, 2), improvements: s.improvements }
}

/// The largest number of trials in one stage: with no more than these, no
/// sequence of accepted trials carries a coefficient out of range.
pub const MAX_TRIALS: usize = 1_000_000;

/// Whether the search can run on `cfg`: the configuration is valid, and the
/// number of trials in a stage is within the limit.
pub open spec fn valid_for_descent(cfg: SearchConfig) -> bool {
    cfg.valid() && cfg.param_sub_steps <= MAX_TRIALS
}

/// The state after the first `count` of the trials that move the
/// coefficients by `offsets`, from the state `s`.
pub open spec fn after_trials(
    cfg: SearchConfig,
    s: DescentModel,
    offsets: Seq<(int, int)>,
    count: int,
) -> DescentModel
    decreases count,
{
    if count <= 0 {
        s
    } else {
        trial(
            cfg,
            after_trials(cfg, s, offsets, count - 1),
            offsets[count - 1].0,
            offsets[count - 1].1,
        )
    }
}

/// The state after the first `stages` stages: each runs its trials with the
/// offsets of its own, then halves the radius.
pub open spec fn after_stages(cfg: SearchConfig, offsets: Seq<Seq<(int, int)>>, stages: int)
    -> DescentModel
    decreases stages,
{
    if stages <= 0 {
        initial(cfg)
    } else {
        cooled(
            after_trials(
                cfg,
                after_stages(cfg, offsets, stages - 1),
                offsets[stages - 1],
                cfg.param_sub_steps as int,
            ),
        )
    }
}

/// The radius after `stages` stages: the initial radius divided by two to
/// the power of `stages`.
pub open spec fn delta_after(cfg: SearchConfig, stages: nat) -> int {
    initial_delta(cfg) / (vstd::arithmetic::power2::pow2(stages) as int)
}

/// Whether `offsets` can be the offsets of one stage with the radius `delta`:
/// one pair for each trial, each offset within the radius.
pub open spec fn stage_offsets_valid(cfg: SearchConfig, offsets: Seq<(int, int)>, delta: int)
    -> bool {
    &&& offsets.len() == cfg.param_sub_steps
    &&& forall|t: int|
        0 <= t < offsets.len() ==> -delta <= (#[trigger] offsets[t]).0 <= delta && -delta
            <= offsets[t].1 <= delta
}

/// Whether `offsets` can be the offsets of a whole search: one sequence for
/// each stage, valid for the radius of that stage.
pub open spec fn offsets_valid(cfg: SearchConfig, offsets: Seq<Seq<(int, int)>>) -> bool {
    &&& offsets.len() == cfg.param_steps
    &&& forall|k: int|
        0 <= k < offsets.len() ==> stage_offsets_valid(
            cfg,
            #[trigger] offsets[k],
            delta_after(cfg, k as nat),
        )
}

/// How far from zero a coefficient can get in `trials` more trials with the
/// radius of `s`.
pub open spec fn reach(s: DescentModel, trials: int) -> int {
    (if abs(s.a) >= abs(s.b) {
        abs(s.a)
    } else {
        abs(s.b)
    }) + trials * s.delta
}

/// From the starting point no coefficient gets out of range, however the
/// trials go.
pub proof fn lemma_initial_reach(cfg: SearchConfig)
    requires
        valid_for_descent(cfg),
    ensures
        0 <= initial(cfg).delta <= 1_000_000_000,
        reach(initial(cfg), 2 * cfg.param_sub_steps) <= MAX_COEFFICIENT,
{
    let d = initial_delta(cfg);
    let trials = 2 * cfg.param_sub_steps;
    assert(trials * d <= 2_000_000 * 1_000_000_000) by (nonlinear_arith)
        requires
            0 <= trials <= 2_000_000,
            0 <= d <= 1_000_000_000,
    ;
}

/// A trial changes neither the radius nor, beyond the radius, the reach.
pub proof fn lemma_trial_reach(
    cfg: SearchConfig,
    s: DescentModel,
    offset_a: int,
    offset_b: int,
    trials: int,
)
    requires
        trials >= 1,
        s.delta >= 0,
        -s.delta <= offset_a <= s.delta,
        -s.delta <= offset_b <= s.delta,
    ensures
        trial(cfg, s, offset_a, offset_b).delta == s.delta,
        abs(s.a + offset_a) <= reach(s, trials),
        abs(s.b + offset_b) <= reach(s, trials),
        reach(trial(cfg, s, offset_a, offset_b), trials - 1) <= reach(s, trials),
{
    let d = s.delta;
    assert((trials - 1) * d + d == trials * d) by (nonlinear_arith);
    assert((trials - 1) * d >= 0) by (nonlinear_arith)
        requires
            trials >= 1,
            d >= 0,
    ;
}

/// Halving the radius makes room for twice the trials.
pub proof fn lemma_cooled_reach(s: DescentModel, trials: int)
    requires
        trials >= 0,
        s.delta >= 0,
    ensures
        0 <= cooled(s).delta <= s.delta,
        cooled(s).delta == s.delta / 2,
        reach(cooled(s), 2 * trials) <= reach(s, trials),
{
    let d = s.delta;
    let h = d / 2;
    assert((2 * trials) * h <= trials * d) by (nonlinear_arith)
        requires
            trials >= 0,
            0 <= 2 * h <= d,
    ;
}

/// Trials see only their own offsets: two sequences that agree on the first
/// `count` pairs lead to the same state.
pub proof fn lemma_after_trials_agree(
    cfg: SearchConfig,
    s: DescentModel,
    first: Seq<(int, int)>,
    second: Seq<(int, int)>,
    count: int,
)
    requires
        forall|t: int| 0 <= t < count ==> first[t] == second[t],
    ensures
        after_trials(cfg, s, first, count) == after_trials(cfg, s, second, count),
    decreases count,
{
    if count > 0 {
        lemma_after_trials_agree(cfg, s, first, second, count - 1);
    }
}

/// Stages see only their own offsets: two sequences that agree on the first
/// `stages` stages lead to the same state.
pub proof fn lemma_after_stages_agree(
    cfg: SearchConfig,
    first: Seq<Seq<(int, int)>>,
    second: Seq<Seq<(int, int)>>,
    stages: int,
)
    requires
        forall|k: int| 0 <= k < stages ==> first[k] == second[k],
    ensures
        after_stages(cfg, first, stages) == after_stages(cfg, second, stages),
    decreases stages,
{
    if stages > 0 {
        lemma_after_stages_agree(cfg, first, second, stages - 1);
    }
}

/// Trials leave the radius as it is.
pub proof fn lemma_after_trials_delta(
    cfg: SearchConfig,
    s: DescentModel,
    offsets: Seq<(int, int)>,
    count: int,
)
    ensures
        after_trials(cfg, s, offsets, count).delta == s.delta,
    decreases count,
{
    if count > 0 {
        lemma_after_trials_delta(cfg, s, offsets, count - 1);
    }
}

/// Halving the radius once more divides the initial radius by the next
/// power of two.
pub proof fn lemma_delta_halves(cfg: SearchConfig, stages: nat)
    ensures
        0 <= delta_after(cfg, stages + 1) <= delta_after(cfg, stages),
        delta_after(cfg, stages + 1) == delta_after(cfg, stages) / 2,
        delta_after(cfg, 0) == initial_delta(cfg),
{
    let d = initial_delta(cfg);
    let p = vstd::arithmetic::power2::pow2(stages) as int;
    vstd::arithmetic::power2::lemma_pow2_pos(stages);
    vstd::arithmetic::power2::lemma_pow2_unfold(stages + 1);
    vstd::arithmetic::power2::lemma2_to64();
    vstd::arithmetic::div_mod::lemma_div_denominator(d, p, 2);
    assert(p * 2 == 2 * p);
    vstd::arithmetic::div_mod::lemma_div_pos_is_pos(d, p);
}

/// After `stages` stages the radius is the initial radius divided by two to
/// the power of `stages`, whatever the trials did: stage `k`, counted from
/// zero, runs with the initial radius divided by two to the power of `k`.
/// The radius is never negative, and no stage increases it.
pub proof fn lemma_delta_schedule(cfg: SearchConfig, offsets: Seq<Seq<(int, int)>>, stages: nat)
    ensures
        after_stages(cfg, offsets, stages as int).delta == delta_after(cfg, stages),
        0 <= after_stages(cfg, offsets, stages as int + 1).delta <= after_stages(
            cfg,
            offsets,
            stages as int,
        ).delta,
    decreases stages,
{
    lemma_delta_halves(cfg, stages);
    if stages > 0 {
        lemma_delta_schedule(cfg, offsets, (stages - 1) as nat);
        lemma_delta_halves(cfg, (stages - 1) as nat);
        lemma_after_trials_delta(
            cfg,
            after_stages(cfg, offsets, stages - 1),
            offsets[stages - 1],
            cfg.param_sub_steps as int,
        );
    }
    lemma_after_trials_delta(
        cfg,
        after_stages(cfg, offsets, stages as int),
        offsets[stages as int],
        cfg.param_sub_steps as int,
    );
}

/// Whether the state `s` is one that a search on `cfg` can be in. Every
/// improvement carries the statistics of its own evaluation. Each one has a
/// lower total error than the one before it, unless with `strict_fidelity`
/// the one before it had a total error of zero. The current point is the
/// starting point until a candidate is accepted, then the last improvement;
/// with `strict_fidelity` both its coefficients are the second one of the
/// last improvement.
pub open spec fn consistent(cfg: SearchConfig, s: DescentModel) -> bool {
    &&& forall|k: int|
        0 <= k < s.improvements.len() ==> (#[trigger] s.improvements[k]).stats == eval_spec(
            s.improvements[k].a,
            s.improvements[k].b,
            cfg.iter_min as int,
            cfg.iter_max as int,
            cfg.iter_steps as int,
        )
    &&& forall|k: int|
        0 < k < s.improvements.len() ==> (#[trigger] s.improvements[k]).stats.total_error
            < s.improvements[k - 1].stats.total_error || (cfg.strict_fidelity
            && s.improvements[k - 1].stats.total_error == 0)
    &&& s.improvements.len() == 0 ==> s.a == starting_point(cfg) && s.b == starting_point(cfg)
    &&& s.improvements.len() > 0 ==> s.b == s.improvements.last().b && s.a == (if cfg.strict_fidelity {
        s.improvements.last().b
    } else {
        s.improvements.last().a
    })
}

/// A trial keeps the state consistent.
pub proof fn lemma_trial_consistent(
    cfg: SearchConfig,
    s: DescentModel,
    offset_a: int,
    offset_b: int,
)
    requires
        consistent(cfg, s),
    ensures
        consistent(cfg, trial(cfg, s, offset_a, offset_b)),
{
    let after = trial(cfg, s, offset_a, offset_b);
    if after != s {
        let n = s.improvements.len() as int;
        assert(after.improvements.len() == n + 1);
        assert(forall|k: int| 0 <= k < n ==> after.improvements[k] == s.improvements[k]);
        assert(after.improvements.last() == after.improvements[n]);
    }
}

/// Whatever the offsets, the search is in a consistent state after every
/// trial of a stage.
pub proof fn lemma_after_trials_consistent(
    cfg: SearchConfig,
    s: DescentModel,
    offsets: Seq<(int, int)>,
    count: int,
)
    requires
        consistent(cfg, s),
    ensures
        consistent(cfg, after_trials(cfg, s, offsets, count)),
    decreases count,
{
    if count > 0 {
        lemma_after_trials_consistent(cfg, s, offsets, count - 1);
        lemma_trial_consistent(
            cfg,
            after_trials(cfg, s, offsets, count - 1),
            offsets[count - 1].0,
            offsets[count - 1].1,
        );
    }
}

/// Whatever the offsets, the search is in a consistent state after every
/// stage.
pub proof fn lemma_after_stages_consistent(
    cfg: SearchConfig,
    offsets: Seq<Seq<(int, int)>>,
    stages: int,
)
    ensures
        consistent(cfg, after_stages(cfg, offsets, stages)),
    decreases stages,
{
    if stages > 0 {
        lemma_after_stages_consistent(cfg, offsets, stages - 1);
        lemma_after_trials_consistent(
            cfg,
            after_stages(cfg, offsets, stages - 1),
            offsets[stages - 1],
            cfg.param_sub_steps as int,
        );
    }
}

/// Draws an offset for one coefficient. This is `gen_range` of the `rand`
/// crate on the thread-local generator, with the inclusive range from
/// `-delta` to `delta`: the result lies in that range, and nothing else is
/// claimed of it.
#[verifier::external_body]
fn random_offset(delta: i64) -> (offset: i64)
    requires
        0 <= delta,
    ensures
        -delta <= offset <= delta,
{
    rand::thread_rng().gen_range(-delta..=delta)
}

/// The magnitude of `v`.
fn magnitude(v: i64) -> (m: i64)
    requires
        v > i64::MIN,
    ensures
        m == abs(v as int),
{
    if v < 0 {
        -v
    } else {
        v
    }
}

impl SearchConfig {
    /// The configuration of the randomized search: twenty stages of a hundred
    /// trials each, coefficients between minus one and one, evaluated on a
    /// hundred by a hundred points of the same square.
    pub fn descent(strict_fidelity: bool) -> (cfg: Self)
        ensures
            valid_for_descent(cfg),
            cfg.param_min == -1_000_000 && cfg.param_max == 1_000_000,
            cfg.iter_min == -1_000_000 && cfg.iter_max == 1_000_000,
            cfg.param_steps == 20 && cfg.param_sub_steps == 100 && cfg.iter_steps == 100,
            cfg.strict_fidelity == strict_fidelity,
    {
        SearchConfig {
            param_min: -1_000_000,
            param_max: 1_000_000,
            param_steps: 20,
            param_sub_steps: 100,
            iter_min: -1_000_000,
            iter_max: 1_000_000,
            iter_steps: 100,
            strict_fidelity,
        }
    }

    /// Whether the randomized search can run on this configuration.
    pub fn fits_descent(&self) -> (ok: bool)
        ensures
            ok == valid_for_descent(*self),
    {
        self.is_valid() && self.param_sub_steps <= MAX_TRIALS
    }
}

impl Descent {
    /// The state before the first trial.
    pub fn start(cfg: &SearchConfig) -> (state: Descent)
        requires
            cfg.valid(),
        ensures
            state@ == initial(*cfg),
    {
        let state = Descent {
            a: cfg.param_max + cfg.param_min / 2,
            b: cfg.param_max + cfg.param_min / 2,
            delta: (magnitude(cfg.param_max) + magnitude(cfg.param_min)) / 2,
            improvements: Vec::new(),
        };
        assert(state@.improvements =~= Seq::empty());
        state
    }

    /// The statistics of the best candidate so far, if there is one.
    pub fn best(&self) -> (stats: Option<crate::stats::ErrorStats>)
        ensures
            stats is None <==> self.improvements@.len() == 0,
            stats matches Some(found) ==> found == self.improvements@.last().stats,
    {
        let n = self.improvements.len();
        if n == 0 {
            None
        } else {
            Some(self.improvements[n - 1].stats)
        }
    }

    /// Tries one move of the coefficients by the given offsets, and says
    /// whether the candidate was accepted.
    pub fn trial(&mut self, cfg: &SearchConfig, offset_a: i64, offset_b: i64) -> (accepted: bool)
        requires
            cfg.valid(),
            coefficient_in_range(old(self).a + offset_a),
            coefficient_in_range(old(self).b + offset_b),
        ensures
            final(self)@ == trial(*cfg, old(self)@, offset_a as int, offset_b as int),
            accepted <==> final(self).improvements@.len() == old(self).improvements@.len() + 1,
            !accepted ==> *final(self) == *old(self),
    {
        let this_a = self.a + offset_a;
        let this_b = self.b + offset_b;
        let error_stats = eval(this_a, this_b, cfg.iter_min, cfg.iter_max, cfg.iter_steps);
        let incumbent = match self.best() {
            Some(found) => Some(found.total_error),
            None => None,
        };
        if improves(incumbent, error_stats.total_error, cfg.strict_fidelity) {
            self.a = if cfg.strict_fidelity {
                this_b
            } else {
                this_a
            };
            self.b = this_b;
            self.improvements.push(Best { a: this_a, b: this_b, stats: error_stats });
            assert(final(self)@.improvements =~= old(self)@.improvements.push(
                BestModel { a: this_a as int, b: this_b as int, stats: error_stats@ },
            ));
            true
        } else {
            false
        }
    }

    /// Halves the radius, rounding toward zero.
    pub fn cool(&mut self)
        ensures
            final(self)@ == cooled(old(self)@),
    {
        self.delta = self.delta / 2;
    }
}

/// Runs the randomized search: `param_steps` stages of `param_sub_steps`
/// trials each. A trial moves each coefficient of the current point by a
/// random offset within the radius; the radius is halved after every stage.
/// The result is the state that these trials lead to, for the offsets that
/// were drawn.
pub fn monty_carlo_descent(cfg: &SearchConfig) -> (state: Descent)
    requires
        valid_for_descent(*cfg),
    ensures
        exists|offsets: Seq<Seq<(int, int)>>| #[trigger]
            offsets_valid(*cfg, offsets) && state@ == after_stages(
                *cfg,
                offsets,
                cfg.param_steps as int,
            ),
        state.delta == delta_after(*cfg, cfg.param_steps as nat),
        consistent(*cfg, state@),
{
    let mut state = Descent::start(cfg);
    let ghost mut drawn: Seq<Seq<(int, int)>> = Seq::empty();
    let mut stage: usize = 0;
    proof {
        lemma_delta_halves(*cfg, 0);
        lemma_initial_reach(*cfg);
    }
    while stage < cfg.param_steps
        invariant
            stage <= cfg.param_steps,
            valid_for_descent(*cfg),
            drawn.len() == stage,
            forall|k: int|
                0 <= k < stage ==> stage_offsets_valid(
                    *cfg,
                    #[trigger] drawn[k],
                    delta_after(*cfg, k as nat),
                ),
            state@ == after_stages(*cfg, drawn, stage as int),
            state.delta == delta_after(*cfg, stage as nat),
            state.delta >= 0,
            reach(state@, 2 * cfg.param_sub_steps) <= MAX_COEFFICIENT,
        decreases cfg.param_steps - stage,
    {
        let ghost before = state@;
        let ghost mut stage_drawn: Seq<(int, int)> = Seq::empty();
        let mut t: usize = 0;
        while t < cfg.param_sub_steps
            invariant
                t <= cfg.param_sub_steps,
                valid_for_descent(*cfg),
                stage_drawn.len() == t,
                forall|u: int|
                    0 <= u < t ==> -before.delta <= (#[trigger] stage_drawn[u]).0 <= before.delta
                        && -before.delta <= stage_drawn[u].1 <= before.delta,
                state@ == after_trials(*cfg, before, stage_drawn, t as int),
                state.delta == before.delta,
                state.delta >= 0,
                reach(state@, 2 * cfg.param_sub_steps - t) <= MAX_COEFFICIENT,
            decreases cfg.param_sub_steps - t,
        {
            let offset_a = random_offset(state.delta);
            let offset_b = random_offset(state.delta);
            proof {
                let longer = stage_drawn.push((offset_a as int, offset_b as int));
                lemma_after_trials_agree(*cfg, before, stage_drawn, longer, t as int);
                lemma_trial_reach(
                    *cfg,
                    state@,
                    offset_a as int,
                    offset_b as int,
                    2 * cfg.param_sub_steps - t,
                );
                stage_drawn = longer;
            }
            state.trial(cfg, offset_a, offset_b);
            t += 1;
        }
        proof {
            let longer = drawn.push(stage_drawn);
            lemma_after_stages_agree(*cfg, drawn, longer, stage as int);
            lemma_cooled_reach(state@, cfg.param_sub_steps as int);
            lemma_delta_halves(*cfg, stage as nat);
            drawn = longer;
        }
        state.cool();
        stage += 1;
    }
    proof {
        assert(offsets_valid(*cfg, drawn));
        lemma_after_stages_consistent(*cfg, drawn, cfg.param_steps as int);
    }
    state
}

} // verus!
