//! The exhaustive search: every pair of candidate coefficients on a square
//! grid is evaluated, and the best one is kept.

use vstd::prelude::*;
use crate::objective::{eval, eval_spec};
use crate::sampling::{lemma_sample_between, linspace, MAX_STEPS};
use crate::search::{accepts, improves, Best, SearchConfig};
use crate::total_error::lemma_total_error_grows;

verus! {

/// The total error of the candidate pair at the indices `(i, j)`.
pub open spec fn pair_total(cfg: SearchConfig, i: int, j: int) -> int {
    cfg.total_of(cfg.candidate(i), cfg.candidate(j))
}

/// The total error of the candidate pair at the indices `at`, if there is one.
pub open spec fn total_at(cfg: SearchConfig, at: Option<(int, int)>) -> Option<int> {
    match at {
        Some((i, j)) => Some(pair_total(cfg, i, j)),
        None => None,
    }
}

/// The indices of the best pair after the first `count` pairs of row `i`
/// have been held against the incumbent `acc`.
pub open spec fn row_winner(cfg: SearchConfig, acc: Option<(int, int)>, i: int, count: int)
    -> Option<(int, int)>
    decreases count,
{
    if count <= 0 {
        acc
    } else {
        let before = row_winner(cfg, acc, i, count - 1);
        if accepts(total_at(cfg, before), pair_total(cfg, i, count - 1), cfg.strict_fidelity) {
            Some((i, count - 1))
        } else {
            before
        }
    }
}

/// The indices of the best pair among the first `rows` rows of candidates,
/// the first coefficient changing slowest.
pub open spec fn grid_winner(cfg: SearchConfig, rows: int) -> Option<(int, int)>
    decreases rows,
{
    if rows <= 0 {
        None
    } else {
        row_winner(cfg, grid_winner(cfg, rows - 1), rows - 1, cfg.param_steps as int)
    }
}

/// The indices of the pair that the exhaustive search selects.
pub open spec fn search_spec(cfg: SearchConfig) -> Option<(int, int)> {
    grid_winner(cfg, cfg.param_steps as int)
}

/// Whether `best` is the candidate pair at the indices `at`, with the
/// statistics of its evaluation.
pub open spec fn is_pair_at(cfg: SearchConfig, best: Option<Best>, at: Option<(int, int)>) -> bool {
    match (best, at) {
        (None, None) => true,
        (Some(found), Some((i, j))) => {
            &&& found.a == cfg.candidate(i)
            &&& found.b == cfg.candidate(j)
            &&& found.stats@ == eval_spec(
                found.a as int,
                found.b as int,
                cfg.iter_min as int,
                cfg.iter_max as int,
                cfg.iter_steps as int,
            )
        },
        _ => false,
    }
}

/// Searches the square grid of candidate coefficients for the pair with the
/// lowest total error. Returns `None` where there are no candidates.
pub fn brute_force_search(cfg: &SearchConfig) -> (best: Option<Best>)
    requires
        cfg.valid(),
    ensures
        is_pair_at(*cfg, best, search_spec(*cfg)),
        best is None <==> cfg.param_steps == 0,
{
    let params = linspace(cfg.param_min, cfg.param_max, cfg.param_steps);
    let mut best: Option<Best> = None;
    let mut i: usize = 0;
    while i < cfg.param_steps
        invariant
            i <= cfg.param_steps,
            cfg.valid(),
            params@.len() == cfg.param_steps,
            forall|k: int| 0 <= k < cfg.param_steps ==> #[trigger] params@[k] == cfg.candidate(k),
            is_pair_at(*cfg, best, grid_winner(*cfg, i as int)),
            best is None <==> i == 0,
        decreases cfg.param_steps - i,
    {
        let a = params[i];
        let mut j: usize = 0;
        let ghost base = grid_winner(*cfg, i as int);
        proof {
            lemma_sample_between(
                cfg.param_min as int,
                cfg.param_max as int,
                cfg.param_steps as int,
                i as int,
            );
        }
        while j < cfg.param_steps
            invariant
                j <= cfg.param_steps,
                i < cfg.param_steps,
                cfg.valid(),
                crate::fixed::in_range(a as int),
                a == cfg.candidate(i as int),
                params@.len() == cfg.param_steps,
                forall|k: int|
                    0 <= k < cfg.param_steps ==> #[trigger] params@[k] == cfg.candidate(k),
                is_pair_at(*cfg, best, row_winner(*cfg, base, i as int, j as int)),
                best is None <==> (i == 0 && j == 0),
            decreases cfg.param_steps - j,
        {
            let b = params[j];
            proof {
                lemma_sample_between(
                    cfg.param_min as int,
                    cfg.param_max as int,
                    cfg.param_steps as int,
                    j as int,
                );
            }
            let error_stats = eval(a, b, cfg.iter_min, cfg.iter_max, cfg.iter_steps);
            let incumbent = match best {
                Some(found) => Some(found.stats.total_error),
                None => None,
            };
            if improves(incumbent, error_stats.total_error, cfg.strict_fidelity) {
                best = Some(Best { a, b, stats: error_stats });
            }
            j += 1;
        }
        i += 1;
    }
    best
}

/// Whether the pair `(i, j)` comes before the pair `(p, q)` in the order of
/// the search.
pub open spec fn comes_before(i: int, j: int, p: int, q: int) -> bool {
    i < p || (i == p && j < q)
}

/// Whether no pair has a total error of zero that could stand in for "none".
pub open spec fn sentinel_free(cfg: SearchConfig) -> bool {
    !cfg.strict_fidelity || forall|i: int, j: int|
        0 <= i < cfg.param_steps && 0 <= j < cfg.param_steps ==> #[trigger] pair_total(cfg, i, j)
            != 0
}

/// Whether the search keeps the lowest total error that it meets. It always
/// does unless an incumbent with a total error of zero counts as none; then
/// it does where no pair has a total error of zero, or the last pair has.
pub open spec fn keeps_minimum(cfg: SearchConfig) -> bool {
    sentinel_free(cfg) || pair_total(cfg, cfg.param_steps - 1, cfg.param_steps - 1) == 0
}

/// Whether the total error of the pair `(p, q)` is no higher than that of
/// `(i, j)`, and lower where `(i, j)` comes first.
spec fn leads(cfg: SearchConfig, p: int, q: int, i: int, j: int) -> bool {
    &&& pair_total(cfg, p, q) <= pair_total(cfg, i, j)
    &&& comes_before(i, j, p, q) ==> pair_total(cfg, p, q) < pair_total(cfg, i, j)
}

/// Whether the pair at `at` leads each of the first `count` pairs of row `i`.
spec fn leads_row(cfg: SearchConfig, at: Option<(int, int)>, i: int, count: int) -> bool {
    at matches Some((p, q)) ==> forall|j: int| 0 <= j < count ==> #[trigger] leads(cfg, p, q, i, j)
}

/// Whether the pair at `at` leads every pair in the first `rows` rows.
spec fn leads_rows(cfg: SearchConfig, at: Option<(int, int)>, rows: int) -> bool {
    at matches Some((p, q)) ==> forall|i: int, j: int|
        0 <= i < rows && 0 <= j < cfg.param_steps ==> #[trigger] leads(cfg, p, q, i, j)
}

/// Whether the pair at `at` is one of the first `count` pairs of row `i`, or
/// of an earlier row.
spec fn seen(cfg: SearchConfig, at: Option<(int, int)>, i: int, count: int) -> bool {
    at matches Some((p, q)) ==> 0 <= p <= i && 0 <= q < cfg.param_steps && comes_before(
        p,
        q,
        i,
        count,
    )
}

/// The total error of every pair is at least zero.
proof fn lemma_pair_total_not_negative(cfg: SearchConfig, i: int, j: int)
    ensures
        pair_total(cfg, i, j) >= 0,
{
    lemma_total_error_grows(
        cfg.candidate(i),
        cfg.candidate(j),
        cfg.iter_min as int,
        cfg.iter_max as int,
        cfg.iter_steps as int,
        cfg.iter_steps as int,
        cfg.iter_steps as int,
    );
}

/// Where no zero total error stands in for "none", the winner of a row leads
/// the part of the row that was searched and all the rows before it.
proof fn lemma_row_winner_leads(cfg: SearchConfig, acc: Option<(int, int)>, i: int, count: int)
    requires
        0 <= i < cfg.param_steps,
        0 <= count <= cfg.param_steps,
        leads_rows(cfg, acc, i),
        seen(cfg, acc, i, 0),
        acc is None ==> i == 0,
        sentinel_free(cfg),
    ensures
        leads_row(cfg, row_winner(cfg, acc, i, count), i, count),
        leads_rows(cfg, row_winner(cfg, acc, i, count), i),
        seen(cfg, row_winner(cfg, acc, i, count), i, count),
        count > 0 || acc is Some ==> row_winner(cfg, acc, i, count) is Some,
    decreases count,
{
    if count > 0 {
        lemma_row_winner_leads(cfg, acc, i, count - 1);
        let before = row_winner(cfg, acc, i, count - 1);
        let after = row_winner(cfg, acc, i, count);
        let last = count - 1;
        if let Some((p, q)) = before {
            assert(pair_total(cfg, p, q) != 0 || !cfg.strict_fidelity);
        }
        if let Some((r, s)) = after {
            assert forall|j: int| 0 <= j < count implies #[trigger] leads(cfg, r, s, i, j) by {
                if j < last {
                    assert(leads_row(cfg, before, i, last));
                    if let Some((p, q)) = before {
                        assert(leads(cfg, p, q, i, j));
                    }
                }
            }
            assert forall|h: int, j: int| 0 <= h < i && 0 <= j < cfg.param_steps implies #[trigger] leads(
                cfg,
                r,
                s,
                h,
                j,
            ) by {
                if let Some((p, q)) = before {
                    assert(leads(cfg, p, q, h, j));
                }
            }
        }
    }
}

/// Where no zero total error stands in for "none", the winner among the first
/// `rows` rows leads them.
proof fn lemma_grid_winner_leads(cfg: SearchConfig, rows: int)
    requires
        0 <= rows <= cfg.param_steps,
        sentinel_free(cfg),
    ensures
        leads_rows(cfg, grid_winner(cfg, rows), rows),
        seen(cfg, grid_winner(cfg, rows), rows, 0),
        rows > 0 ==> grid_winner(cfg, rows) is Some,
    decreases rows,
{
    if rows > 0 {
        lemma_grid_winner_leads(cfg, rows - 1);
        let acc = grid_winner(cfg, rows - 1);
        let last = rows - 1;
        lemma_row_winner_leads(cfg, acc, last, cfg.param_steps as int);
        let after = grid_winner(cfg, rows);
        if let Some((r, s)) = after {
            assert forall|i: int, j: int| 0 <= i < rows && 0 <= j < cfg.param_steps implies #[trigger] leads(
                cfg,
                r,
                s,
                i,
                j,
            ) by {
                if i == last {
                    assert(leads_row(cfg, after, last, cfg.param_steps as int));
                } else {
                    assert(leads_rows(cfg, after, last));
                }
            }
        }
    }
}

/// Of candidate pairs with the same total error the search keeps the first:
/// every pair that comes before the selected one has a higher total error.
pub proof fn lemma_search_keeps_first(cfg: SearchConfig, i: int, j: int)
    requires
        sentinel_free(cfg),
        0 <= i < cfg.param_steps,
        0 <= j < cfg.param_steps,
    ensures
        search_spec(cfg) matches Some((p, q)) && (comes_before(i, j, p, q) ==> pair_total(
            cfg,
            p,
            q,
        ) < pair_total(cfg, i, j)),
{
    lemma_grid_winner_leads(cfg, cfg.param_steps as int);
    let (p, q) = search_spec(cfg)->0;
    assert(leads(cfg, p, q, i, j));
}

/// The exhaustive search selects a pair whose total error is no higher than
/// that of any candidate pair `(i, j)`, evaluated on its own.
pub proof fn lemma_search_minimal(cfg: SearchConfig, i: int, j: int)
    requires
        keeps_minimum(cfg),
        0 <= i < cfg.param_steps,
        0 <= j < cfg.param_steps,
    ensures
        search_spec(cfg) matches Some((p, q)) && 0 <= p < cfg.param_steps && 0 <= q
            < cfg.param_steps && pair_total(cfg, p, q) <= pair_total(cfg, i, j),
{
    let last = cfg.param_steps - 1;
    if cfg.strict_fidelity && pair_total(cfg, last, last) == 0 {
        let before = row_winner(cfg, grid_winner(cfg, last), last, last);
        if let Some((p, q)) = before {
            lemma_pair_total_not_negative(cfg, p, q);
        }
        assert(accepts(total_at(cfg, before), 0, true));
        assert(search_spec(cfg) == Some((last, last)));
        lemma_pair_total_not_negative(cfg, i, j);
    } else {
        lemma_grid_winner_leads(cfg, cfg.param_steps as int);
        let (p, q) = search_spec(cfg)->0;
        assert(leads(cfg, p, q, i, j));
    }
}

} // verus!
