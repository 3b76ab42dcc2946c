//! Fixed-point constants and the integer square root.

use vstd::prelude::*;

verus! {

/// Fixed-point scale: 1.0 is represented by `SCALE` sub-units.
pub const SCALE: i64 = 1_000_000;

/// pi in fixed-point sub-units (rounded to the nearest sub-unit).
pub const PI_FP: i64 = 3_141_593;

/// pi / 2 in fixed-point sub-units.
pub const HALF_PI_FP: i64 = 1_570_796;

/// pi / 4 in fixed-point sub-units.
pub const QUARTER_PI_FP: i64 = 785_398;

/// Largest coordinate magnitude a mesh position may carry.
pub const MAX_COORD: i64 = 500_000_000;

/// Largest number of triangles one estimator call accepts.
pub const TRI_MAX: usize = 1_000_000_000;

/// Largest component magnitude `normalize_or_zero` accepts.
pub const NORM_BOUND: i64 = 2_000_000_000_000_000_000;

/// Mathematical floor of the square root of a nonnegative integer
/// (zero for negative arguments).
pub open spec fn sqrt_floor(n: int) -> int
    decreases n,
{
    if n <= 0 {
        0
    } else {
        let r = sqrt_floor(n - 1);
        if (r + 1) * (r + 1) <= n {
            r + 1
        } else {
            r
        }
    }
}

/// `sqrt_floor(n)` is the unique integer root: its square is at most `n`
/// and the next square is above `n`.
pub proof fn lemma_sqrt_floor_props(n: int)
    requires
        n >= 0,
    ensures
        sqrt_floor(n) >= 0,
        sqrt_floor(n) * sqrt_floor(n) <= n,
        n < (sqrt_floor(n) + 1) * (sqrt_floor(n) + 1),
    decreases n,
{
    if n == 0 {
    } else {
        lemma_sqrt_floor_props(n - 1);
        let r = sqrt_floor(n - 1);
        if (r + 1) * (r + 1) <= n {
            assert(n == (r + 1) * (r + 1));
            assert((r + 1) * (r + 1) < (r + 2) * (r + 2)) by (nonlinear_arith)
                requires
                    r >= 0,
            ;
        }
    }
}

/// Any integer satisfying the root bracketing equals `sqrt_floor(n)`.
pub proof fn lemma_sqrt_floor_unique(n: int, r: int)
    requires
        n >= 0,
        r >= 0,
        r * r <= n,
        n < (r + 1) * (r + 1),
    ensures
        r == sqrt_floor(n),
{
    lemma_sqrt_floor_props(n);
    let s = sqrt_floor(n);
    if r < s {
        assert(false) by (nonlinear_arith)
            requires
                r >= 0,
                s >= 0,
                r < s,
                s * s <= n,
                n < (r + 1) * (r + 1),
        ;
    }
    if s < r {
        assert(false) by (nonlinear_arith)
            requires
                r >= 0,
                s >= 0,
                s < r,
                r * r <= n,
                n < (s + 1) * (s + 1),
        ;
    }
}

/// `(k * x) / s` lies in `[0, k]` whenever `0 <= x <= s`.
pub proof fn lemma_mul_div_le(k: int, x: int, s: int)
    requires
        k >= 0,
        0 <= x <= s,
        s >= 1,
    ensures
        0 <= (k * x) / s <= k,
{
    assert(k * x >= 0) by (nonlinear_arith)
        requires
            k >= 0,
            x >= 0,
    ;
    vstd::arithmetic::div_mod::lemma_div_pos_is_pos(k * x, s);
    assert(k * x <= k * s) by (nonlinear_arith)
        requires
            k >= 0,
            x <= s,
    ;
    vstd::arithmetic::div_mod::lemma_div_is_ordered(k * x, k * s, s);
    assert(k * s == s * k) by (nonlinear_arith);
    vstd::arithmetic::div_mod::lemma_div_multiples_vanish(k, s);
}

/// Floor square root by binary search.
pub fn isqrt(n: u128) -> (r: u128)
    ensures
        r == sqrt_floor(n as int),
        r * r <= n,
        n < (r + 1) * (r + 1),
{
    let mut lo: u128 = 0;
    let mut hi: u128 = 18_446_744_073_709_551_616;
    while lo + 1 < hi
        invariant
            lo < hi <= 18_446_744_073_709_551_616,
            lo * lo <= n,
            n < hi * hi,
        decreases hi - lo,
    {
        let mid = lo + (hi - lo) / 2;
        assert(mid * mid <= u128::MAX) by (nonlinear_arith)
            requires
                mid < 18_446_744_073_709_551_616u128,
        ;
        if mid * mid <= n {
            lo = mid;
        } else {
            hi = mid;
        }
    }
    proof {
        lemma_sqrt_floor_unique(n as int, lo as int);
    }
    lo
}

} // verus!
