//! Fixed-point numbers: the scale, division that rounds toward zero, and the
//! integer square root.

use vstd::prelude::*;

verus! {

/// The integer that stands for the real number one: values count millionths.
pub const SCALE: i64 = 1_000_000;

/// The largest magnitude of a coordinate, and of a bound of a search (one
/// thousand units): the sum of two squares of coordinates fits 64 bits.
pub const MAX_MAGNITUDE: i64 = 1_000_000_000;

/// The largest magnitude of a coefficient (four thousand million units): the
/// approximation at coordinates in range fits 64 bits.
pub const MAX_COEFFICIENT: i64 = 4_000_000_000_000_000;

/// Whether `v` is a coordinate that the library computes with.
pub open spec fn in_range(v: int) -> bool {
    -MAX_MAGNITUDE <= v <= MAX_MAGNITUDE
}

/// Whether `v` is a coefficient that the library computes with.
pub open spec fn coefficient_in_range(v: int) -> bool {
    -MAX_COEFFICIENT <= v <= MAX_COEFFICIENT
}

/// The absolute value of `v`.
pub open spec fn abs(v: int) -> int {
    if v < 0 {
        -v
    } else {
        v
    }
}

/// The quotient of `n` by `d`, rounded toward zero, for a positive `d`.
pub open spec fn trunc_div(n: int, d: int) -> int {
    if n >= 0 {
        n / d
    } else {
        -((-n) / d)
    }
}

/// Rounding toward zero commutes with negation and never grows a magnitude.
pub proof fn lemma_trunc_div_bounds(n: int, d: int, bound: int)
    requires
        d > 0,
        bound >= 0,
        abs(n) <= bound * d,
    ensures
        trunc_div(-n, d) == -trunc_div(n, d),
        abs(trunc_div(n, d)) == abs(n) / d,
        abs(trunc_div(n, d)) <= bound,
{
    let m = abs(n);
    assert(0 <= m / d <= bound) by (nonlinear_arith)
        requires
            d > 0,
            0 <= m <= bound * d,
    ;
}

/// The part `k / m` of a non-negative `d`, rounded down: it lies between zero
/// and `d`, and reaches both ends.
pub proof fn lemma_part_of(k: int, d: int, m: int)
    requires
        0 <= k <= m,
        0 < m,
        0 <= d,
    ensures
        0 <= (k * d) / m <= d,
        k == 0 ==> (k * d) / m == 0,
        k == m ==> (k * d) / m == d,
{
    assert(0 <= (k * d) / m <= d) by (nonlinear_arith)
        requires
            0 <= k <= m,
            0 < m,
            0 <= d,
    {
        assert(0 <= k * d <= m * d);
    }
    assert(k == 0 ==> (k * d) / m == 0) by (nonlinear_arith)
        requires
            0 < m,
    ;
    assert(k == m ==> (k * d) / m == d) by (nonlinear_arith)
        requires
            0 < m,
            0 <= d,
    ;
}

/// Whether `r` is the square root of `n` rounded down.
pub open spec fn is_floor_sqrt(n: int, r: int) -> bool {
    0 <= r && r * r <= n && n < (r + 1) * (r + 1)
}

/// The square root of `n` rounded down, for `n >= 0`.
pub open spec fn floor_sqrt(n: int) -> int {
    choose|r: int| is_floor_sqrt(n, r)
}

/// Every non-negative integer has a rounded-down square root.
pub proof fn lemma_floor_sqrt_exists(n: int)
    requires
        n >= 0,
    ensures
        is_floor_sqrt(n, floor_sqrt(n)),
    decreases n,
{
    if n == 0 {
        assert(is_floor_sqrt(0, 0));
    } else {
        lemma_floor_sqrt_exists(n - 1);
        let r = floor_sqrt(n - 1);
        if (r + 1) * (r + 1) <= n {
            assert(n < (r + 2) * (r + 2)) by (nonlinear_arith)
                requires
                    0 <= r,
                    n - 1 < (r + 1) * (r + 1),
            ;
            assert(is_floor_sqrt(n, r + 1));
        } else {
            assert(is_floor_sqrt(n, r));
        }
    }
}

/// The rounded-down square root is unique.
pub proof fn lemma_floor_sqrt_unique(n: int, r: int)
    requires
        is_floor_sqrt(n, r),
    ensures
        floor_sqrt(n) == r,
{
    let s = floor_sqrt(n);
    assert(is_floor_sqrt(n, s));
    assert(s == r) by (nonlinear_arith)
        requires
            0 <= r,
            r * r <= n,
            n < (r + 1) * (r + 1),
            0 <= s,
            s * s <= n,
            n < (s + 1) * (s + 1),
    ;
}

/// The rounded-down square root is not negative, and it is zero at zero only.
pub proof fn lemma_floor_sqrt_zero(n: int)
    requires
        0 <= n,
    ensures
        0 <= floor_sqrt(n),
        floor_sqrt(n) == 0 <==> n == 0,
{
    lemma_floor_sqrt_exists(n);
    if n == 0 {
        assert(is_floor_sqrt(0, 0));
        lemma_floor_sqrt_unique(0, 0);
    } else {
        let r = floor_sqrt(n);
        assert(r != 0) by (nonlinear_arith)
            requires
                1 <= n,
                n < (r + 1) * (r + 1),
        ;
    }
}

/// The rounded-down square root of `n` is at most any `bound` whose square
/// reaches `n`.
pub proof fn lemma_floor_sqrt_at_most(n: int, bound: int)
    requires
        0 <= n,
        0 <= bound,
        n <= bound * bound,
    ensures
        floor_sqrt(n) <= bound,
{
    lemma_floor_sqrt_exists(n);
    let r = floor_sqrt(n);
    assert(r <= bound) by (nonlinear_arith)
        requires
            0 <= r,
            0 <= bound,
            r * r <= n,
            n <= bound * bound,
    ;
}

/// One step of Newton's iteration from a guess `x` at or above the root `r` of
/// `n` stays at or above the root, and it fails to go down only at the root.
pub proof fn lemma_newton_step(n: int, r: int, x: int)
    requires
        is_floor_sqrt(n, r),
        1 <= x,
        r <= x,
    ensures
        r <= (x + n / x) / 2,
        (x + n / x) / 2 >= x ==> x == r,
        0 <= n / x <= x + 2,
{
    let q = n / x;
    assert(q * x <= n < (q + 1) * x && q >= 0) by (nonlinear_arith)
        requires
            q == n / x,
            x >= 1,
            n >= 0,
    ;
    if x + q < 2 * r {
        assert((q + 1) * x <= (2 * r - x) * x) by (nonlinear_arith)
            requires
                q + 1 <= 2 * r - x,
                x >= 1,
        ;
        assert((2 * r - x) * x <= r * r) by (nonlinear_arith);
        assert(false);
    }
    if q >= x {
        assert(x * x <= q * x) by (nonlinear_arith)
            requires
                q >= x,
                x >= 1,
        ;
        assert(x <= r) by (nonlinear_arith)
            requires
                x * x <= n,
                n < (r + 1) * (r + 1),
                0 <= r,
                1 <= x,
        ;
    }
    assert(q <= x + 2) by (nonlinear_arith)
        requires
            q * x <= n,
            n < (r + 1) * (r + 1),
            0 <= r <= x,
            1 <= x,
            0 <= q,
    ;
}

/// A power of two above the square root of `n`, and at most twice the root
/// where `n` is not zero.
fn root_guess(n: u64) -> (g: u64)
    ensures
        1 <= g <= 4_294_967_296,
        n < g * g,
{
    let mut m: u64 = n;
    let mut x: u64 = 1;
    assert(m * (x * x) <= n < (m + 1) * (x * x)) by (nonlinear_arith)
        requires
            m == n,
            x == 1,
    ;
    if m >= 4_294_967_296 {
        proof {
            lemma_guess_step(n as int, m as int, x as int, 65_536);
        }
        m = m / 4_294_967_296;
        x = x * 65_536;
    }
    if m >= 65_536 {
        proof {
            lemma_guess_step(n as int, m as int, x as int, 256);
        }
        m = m / 65_536;
        x = x * 256;
    }
    if m >= 256 {
        proof {
            lemma_guess_step(n as int, m as int, x as int, 16);
        }
        m = m / 256;
        x = x * 16;
    }
    if m >= 16 {
        proof {
            lemma_guess_step(n as int, m as int, x as int, 4);
        }
        m = m / 16;
        x = x * 4;
    }
    if m >= 4 {
        proof {
            lemma_guess_step(n as int, m as int, x as int, 2);
        }
        m = m / 4;
        x = x * 2;
    }
    assert(n < (2 * x) * (2 * x)) by (nonlinear_arith)
        requires
            n < (m + 1) * (x * x),
            m < 4,
            x >= 1,
    ;
    2 * x
}

/// Scaling the guess `x` by `c` divides by `c * c` the number of squares of
/// the guess that fit into `n`.
proof fn lemma_guess_step(n: int, m: int, x: int, c: int)
    requires
        0 <= m,
        1 <= x,
        1 <= c,
        m * (x * x) <= n < (m + 1) * (x * x),
    ensures
        (m / (c * c)) * ((x * c) * (x * c)) <= n < (m / (c * c) + 1) * ((x * c) * (x * c)),
{
    let d = c * c;
    let k = m / d;
    assert(d >= 1) by (nonlinear_arith)
        requires
            d == c * c,
            c >= 1,
    ;
    assert(k * d <= m < (k + 1) * d) by (nonlinear_arith)
        requires
            k == m / d,
            d >= 1,
            m >= 0,
    ;
    assert((x * c) * (x * c) == d * (x * x)) by (nonlinear_arith)
        requires
            d == c * c,
    ;
    assert(k * (d * (x * x)) <= m * (x * x)) by (nonlinear_arith)
        requires
            k * d <= m,
    ;
    assert((m + 1) * (x * x) <= (k + 1) * (d * (x * x))) by (nonlinear_arith)
        requires
            m + 1 <= (k + 1) * d,
    ;
}

/// The square root of `n`, rounded down.
pub fn isqrt(n: u64) -> (r: u64)
    ensures
        r == floor_sqrt(n as int),
        is_floor_sqrt(n as int, r as int),
{
    proof {
        lemma_floor_sqrt_exists(n as int);
        lemma_floor_sqrt_zero(n as int);
    }
    if n == 0 {
        return 0;
    }
    let ghost root = floor_sqrt(n as int);
    let mut x: u64 = root_guess(n);
    assert(root <= x) by (nonlinear_arith)
        requires
            0 <= root,
            root * root <= n,
            n < x * x,
            1 <= x,
    ;
    loop
        invariant
            is_floor_sqrt(n as int, root),
            1 <= root <= x <= 4_294_967_296,
        ensures
            x == root,
        decreases x,
    {
        proof {
            lemma_newton_step(n as int, root, x as int);
        }
        let y: u64 = (x + n / x) / 2;
        if y >= x {
            break ;
        }
        x = y;
    }
    x
}

} // verus!
