//! Fixed-point arithmetic on `i64` values counting millionths.
//!
//! A real quantity `x` is represented by the integer `x * 1_000_000`
//! rounded toward zero. Products and quotients are computed exactly in
//! 128-bit intermediates, truncated toward zero, and clamped to the `i64`
//! range, so every operation is a total function whose value the
//! specifications below pin down exactly.

use vstd::arithmetic::div_mod::{
    lemma_div_multiples_vanish, lemma_div_nonincreasing, lemma_div_pos_is_pos,
};
use vstd::math::abs;
use vstd::prelude::*;

verus! {

/// Number of fixed-point units per whole unit: one unit is `1e-6`.
pub const FX_SCALE: i64 = 1_000_000;

/// Clamps a mathematical integer to the range of `i64`.
pub open spec fn sat64(x: int) -> int {
    if x > i64::MAX {
        i64::MAX as int
    } else if x < i64::MIN {
        i64::MIN as int
    } else {
        x
    }
}

/// Division truncating toward zero, the rounding of the 128-bit integer
/// division the executable operations use. Meaningful only for `q != 0`.
pub open spec fn div_trunc(p: int, q: int) -> int
    recommends
        q != 0,
{
    let m = (abs(p) / abs(q)) as int;
    if (0 <= p) == (0 <= q) {
        m
    } else {
        -m
    }
}

/// Saturating fixed-point addition.
pub open spec fn fxs_add(a: int, b: int) -> int {
    sat64(a + b)
}

/// Saturating fixed-point subtraction.
pub open spec fn fxs_sub(a: int, b: int) -> int {
    sat64(a - b)
}

/// Saturating fixed-point multiplication: `a * b` rescaled by the
/// fixed-point unit, truncating toward zero.
pub open spec fn fxs_mul(a: int, b: int) -> int {
    sat64(div_trunc(a * b, FX_SCALE as int))
}

/// Saturating fixed-point division: `a / b` rescaled by the fixed-point
/// unit, truncating toward zero; division by zero is defined as zero.
pub open spec fn fxs_div(a: int, b: int) -> int {
    if b == 0 {
        0
    } else {
        sat64(div_trunc(a * (FX_SCALE as int), b))
    }
}

/// Saturating absolute value.
pub open spec fn fxs_abs(a: int) -> int {
    sat64(abs(a) as int)
}

/// A sequence of fixed-point values as mathematical integers.
pub open spec fn int_seq(v: Seq<i64>) -> Seq<int> {
    v.map_values(|x: i64| x as int)
}

/// The floor of the square root of a nonnegative integer, defined by
/// counting upward; zero for negative arguments.
pub open spec fn spec_floor_sqrt(x: int) -> int
    decreases x,
{
    if x <= 0 {
        0
    } else {
        let r = spec_floor_sqrt(x - 1);
        if (r + 1) * (r + 1) <= x {
            r + 1
        } else {
            r
        }
    }
}

/// Fixed-point square root: the floor of the square root of a nonnegative
/// fixed-point value, in fixed-point units; zero for negative arguments.
pub open spec fn fxs_sqrt(a: int) -> int {
    if a >= 0 {
        spec_floor_sqrt(a * (FX_SCALE as int))
    } else {
        0
    }
}

/// `spec_floor_sqrt(x)` is the unique `r >= 0` with `r * r <= x < (r + 1) * (r + 1)`.
pub proof fn lemma_floor_sqrt_bounds(x: int)
    requires
        x >= 0,
    ensures
        spec_floor_sqrt(x) >= 0,
        spec_floor_sqrt(x) * spec_floor_sqrt(x) <= x,
        x < (spec_floor_sqrt(x) + 1) * (spec_floor_sqrt(x) + 1),
    decreases x,
{
    if x > 0 {
        lemma_floor_sqrt_bounds(x - 1);
        let r = spec_floor_sqrt(x - 1);
        if (r + 1) * (r + 1) <= x {
            assert(x < (r + 2) * (r + 2)) by (nonlinear_arith)
                requires
                    r >= 0,
                    x - 1 < (r + 1) * (r + 1),
                    (r + 1) * (r + 1) <= x,
            ;
        }
    }
}

/// Any `r >= 0` with `r * r <= x < (r + 1) * (r + 1)` is `spec_floor_sqrt(x)`.
pub proof fn lemma_floor_sqrt_unique(x: int, r: int)
    requires
        x >= 0,
        r >= 0,
        r * r <= x,
        x < (r + 1) * (r + 1),
    ensures
        r == spec_floor_sqrt(x),
{
    let s = spec_floor_sqrt(x);
    lemma_floor_sqrt_bounds(x);
    if r < s {
        assert((r + 1) * (r + 1) <= s * s) by (nonlinear_arith)
            requires
                0 <= r,
                r + 1 <= s,
        ;
    }
    if s < r {
        assert((s + 1) * (s + 1) <= r * r) by (nonlinear_arith)
            requires
                0 <= s,
                s + 1 <= r,
        ;
    }
}

/// Case analysis of truncating division against Euclidean division on
/// magnitudes, and the bound `|p / q| <= |p|`.
pub proof fn lemma_div_trunc_basics(p: int, q: int)
    requires
        q != 0,
    ensures
        p == 0 ==> div_trunc(p, q) == 0,
        p > 0 && q > 0 ==> div_trunc(p, q) == p / q,
        p < 0 && q < 0 ==> div_trunc(p, q) == (p * -1) / (q * -1),
        p < 0 && q > 0 ==> div_trunc(p, q) == ((p * -1) / q) * -1,
        p > 0 && q < 0 ==> div_trunc(p, q) == (p / (q * -1)) * -1,
        abs(div_trunc(p, q)) <= abs(p),
{
    lemma_div_pos_is_pos(abs(p) as int, abs(q) as int);
    lemma_div_nonincreasing(abs(p) as int, abs(q) as int);
}

/// Truncating division is exact on multiples of the divisor.
pub proof fn lemma_div_trunc_multiple(q: int, d: int)
    requires
        d > 0,
    ensures
        div_trunc(d * q, d) == q,
{
    lemma_div_multiples_vanish(q, d);
    if q >= 0 {
        assert(d * q >= 0) by (nonlinear_arith)
            requires
                d > 0,
                q >= 0,
        ;
    } else {
        assert(d * q < 0 && d * (-q) == -(d * q)) by (nonlinear_arith)
            requires
                d > 0,
                q < 0,
        ;
        lemma_div_multiples_vanish(-q, d);
    }
}

/// Saturating addition.
pub fn fx_add(a: i64, b: i64) -> (r: i64)
    ensures
        r as int == fxs_add(a as int, b as int),
{
    match a.checked_add(b) {
        Some(s) => s,
        None => if a > 0 {
            i64::MAX
        } else {
            i64::MIN
        },
    }
}

/// Saturating subtraction.
pub fn fx_sub(a: i64, b: i64) -> (r: i64)
    ensures
        r as int == fxs_sub(a as int, b as int),
{
    match a.checked_sub(b) {
        Some(s) => s,
        None => if a >= 0 {
            i64::MAX
        } else {
            i64::MIN
        },
    }
}

/// Clamps a 128-bit quotient back to `i64`.
pub(crate) fn clamp128(q: i128) -> (r: i64)
    ensures
        r as int == sat64(q as int),
{
    if q > i64::MAX as i128 {
        i64::MAX
    } else if q < i64::MIN as i128 {
        i64::MIN
    } else {
        q as i64
    }
}

/// Saturating fixed-point multiplication.
pub fn fx_mul(a: i64, b: i64) -> (r: i64)
    ensures
        r as int == fxs_mul(a as int, b as int),
{
    proof {
        assert(-0x4000_0000_0000_0000_0000_0000_0000_0000 <= (a as int) * (b as int)
            <= 0x4000_0000_0000_0000_0000_0000_0000_0000) by (nonlinear_arith)
            requires
                i64::MIN <= a as int <= i64::MAX,
                i64::MIN <= b as int <= i64::MAX,
        ;
    }
    let p: i128 = (a as i128) * (b as i128);
    proof {
        lemma_div_trunc_basics(p as int, FX_SCALE as int);
    }
    let q: i128 = match p.checked_div(1_000_000i128) {
        Some(v) => v,
        None => 0,
    };
    clamp128(q)
}

/// Saturating fixed-point division; division by zero yields zero.
pub fn fx_div(a: i64, b: i64) -> (r: i64)
    ensures
        r as int == fxs_div(a as int, b as int),
{
    if b == 0 {
        return 0;
    }
    proof {
        assert(-0x4000_0000_0000_0000_0000_0000_0000_0000 <= (a as int) * (FX_SCALE as int)
            <= 0x4000_0000_0000_0000_0000_0000_0000_0000) by (nonlinear_arith)
            requires
                i64::MIN <= a as int <= i64::MAX,
        ;
    }
    let p: i128 = (a as i128) * (FX_SCALE as i128);
    proof {
        lemma_div_trunc_basics(p as int, b as int);
    }
    let q: i128 = match p.checked_div(b as i128) {
        Some(v) => v,
        None => 0,
    };
    clamp128(q)
}

/// Exact division of a fixed-point value by a positive count, truncating
/// toward zero. The quotient always fits in `i64`.
pub fn fx_div_count(a: i64, n: usize) -> (r: i64)
    requires
        n > 0,
    ensures
        r as int == div_trunc(a as int, n as int),
{
    proof {
        lemma_div_trunc_basics(a as int, n as int);
    }
    let q: i128 = match (a as i128).checked_div(n as i128) {
        Some(v) => v,
        None => 0,
    };
    q as i64
}

/// Saturating absolute value.
pub fn fx_abs(a: i64) -> (r: i64)
    ensures
        r as int == fxs_abs(a as int),
{
    if a == i64::MIN {
        i64::MAX
    } else if a < 0 {
        -a
    } else {
        a
    }
}

/// The fixed-point representation of a count (saturating for counts beyond
/// the representable range).
pub fn fx_from_count(n: usize) -> (r: i64)
    ensures
        r as int == sat64(n as int * FX_SCALE as int),
{
    proof {
        assert(0 <= (n as int) * (FX_SCALE as int) <= 0x4000_0000_0000_0000_0000_0000_0000_0000)
            by (nonlinear_arith)
            requires
                0 <= n as int <= u64::MAX,
        ;
    }
    let p: i128 = (n as i128) * (FX_SCALE as i128);
    clamp128(p)
}

/// Fixed-point square root: the floor of the square root of a nonnegative
/// fixed-point value, in fixed-point units; zero for negative arguments.
pub fn fx_sqrt(a: i64) -> (r: i64)
    ensures
        r as int == fxs_sqrt(a as int),
        r >= 0,
{
    if a < 0 {
        return 0;
    }
    proof {
        assert(0 <= (a as int) * (FX_SCALE as int) < 0x1_0000_0000_0000_0000_0000_0000
            && (a as int) * (FX_SCALE as int) < 0x4_0000_0000_0000 * 0x4_0000_0000_0000)
            by (nonlinear_arith)
            requires
                0 <= a as int <= i64::MAX,
        ;
    }
    let x: u128 = (a as u128) * (FX_SCALE as u128);
    let mut lo: u128 = 0;
    let mut hi: u128 = 0x4_0000_0000_0000;
    while lo + 1 < hi
        invariant
            lo < hi,
            hi <= 0x4_0000_0000_0000,
            lo as int * lo as int <= x as int,
            (x as int) < hi as int * hi as int,
            x == a as int * FX_SCALE as int,
        decreases hi - lo,
    {
        let mid: u128 = lo + (hi - lo) / 2;
        proof {
            assert(mid as int * mid as int <= 0x4_0000_0000_0000 * 0x4_0000_0000_0000)
                by (nonlinear_arith)
                requires
                    0 <= mid as int <= 0x4_0000_0000_0000,
            ;
        }
        if mid * mid <= x {
            lo = mid;
        } else {
            hi = mid;
        }
    }
    proof {
        lemma_floor_sqrt_unique(a as int * FX_SCALE as int, lo as int);
    }
    lo as i64
}

} // verus!
