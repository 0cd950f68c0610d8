//! Evenly spaced sample points on an interval, both ends included.

use vstd::prelude::*;
use crate::fixed::{in_range, lemma_part_of, trunc_div};

verus! {

/// The largest number of samples along one axis.
pub const MAX_STEPS: usize = 4_294_967_295;

/// Sample number `k` (from zero) of `n` evenly spaced samples that start at
/// `min` and end at `max`. A single sample is `min`.
pub open spec fn sample(min: int, max: int, n: int, k: int) -> int {
    if n <= 1 {
        min
    } else {
        min + trunc_div(k * (max - min), n - 1)
    }
}

/// Every sample lies between the two ends of its interval.
pub proof fn lemma_sample_between(min: int, max: int, n: int, k: int)
    requires
        0 <= k < n,
    ensures
        min <= max ==> min <= sample(min, max, n, k) <= max,
        max <= min ==> max <= sample(min, max, n, k) <= min,
        in_range(min) && in_range(max) ==> in_range(sample(min, max, n, k)),
{
    if n > 1 {
        if max >= min {
            lemma_part_of(k, max - min, n - 1);
        } else {
            lemma_part_of(k, min - max, n - 1);
            assert(-(k * (max - min)) == k * (min - max)) by (nonlinear_arith);
            if k * (max - min) >= 0 {
                assert(k * (min - max) == 0);
            }
        }
    }
}

/// A single sample is the start of the interval; two or more samples begin
/// at the start and end at the end, so two samples are exactly the two ends.
pub proof fn lemma_sample_endpoints(min: int, max: int, n: int)
    requires
        n >= 1,
    ensures
        sample(min, max, n, 0) == min,
        n >= 2 ==> sample(min, max, n, n - 1) == max,
{
    if n > 1 {
        assert(0 * (max - min) == 0);
        if max >= min {
            lemma_part_of(n - 1, max - min, n - 1);
        } else {
            lemma_part_of(n - 1, min - max, n - 1);
            assert(-((n - 1) * (max - min)) == (n - 1) * (min - max)) by (nonlinear_arith);
            if (n - 1) * (max - min) >= 0 {
                assert((n - 1) * (min - max) == 0);
            }
        }
    }
}

/// The `n` evenly spaced samples from `min` to `max`, in order.
pub fn linspace(min: i64, max: i64, n: usize) -> (v: Vec<i64>)
    requires
        in_range(min as int),
        in_range(max as int),
        n <= MAX_STEPS,
    ensures
        v@.len() == n,
        forall|k: int| 0 <= k < n ==> #[trigger] v@[k] == sample(min as int, max as int, n as int, k),
        n >= 1 ==> v@[0] == min,
        n >= 2 ==> v@[n - 1] == max,
{
    proof {
        if n >= 1 {
            lemma_sample_endpoints(min as int, max as int, n as int);
        }
    }
    let mut v: Vec<i64> = Vec::new();
    let mut k: usize = 0;
    while k < n
        invariant
            k <= n <= MAX_STEPS,
            in_range(min as int),
            in_range(max as int),
            v@.len() == k,
            forall|j: int| 0 <= j < k ==> #[trigger] v@[j] == sample(min as int, max as int, n as int, j),
        decreases n - k,
    {
        let x: i64 = if n == 1 {
            min
        } else {
            let span: i128 = max as i128 - min as i128;
            proof {
                lemma_sample_between(min as int, max as int, n as int, k as int);
                assert(-4_294_967_295 * 2_000_000_000 <= k * span <= 4_294_967_295 * 2_000_000_000)
                    by (nonlinear_arith)
                    requires
                        0 <= k <= 4_294_967_295,
                        -2_000_000_000 <= span <= 2_000_000_000,
                ;
            }
            let q: i128 = (k as i128 * span) / ((n - 1) as i128);
            (min as i128 + q) as i64
        };
        v.push(x);
        k += 1;
    }
    v
}

} // verus!
