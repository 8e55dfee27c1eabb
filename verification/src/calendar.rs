//! Conversion of integer calendar dates to fractional years.
//!
//! A date is encoded as `year * 10000 + month * 100 + day`. Its fractional
//! year is `year + (month - 1) / 12 + (day - 1) / 365.25`, a linear
//! approximation that is adequate at multi-year monitoring resolution. The
//! divisor `365.25` is carried as the exact ratio `1461 / 4`. The conversion
//! is total: the fields are read off by Euclidean division, and the result
//! is clamped to the representable range.

use crate::fixed::{div_trunc, lemma_div_trunc_basics, sat64, FX_SCALE};
use vstd::arithmetic::div_mod::{
    lemma_div_nonincreasing, lemma_div_pos_is_pos, lemma_fundamental_div_mod,
};
use vstd::prelude::*;

verus! {

/// The fractional year of an encoded date, in fixed-point units.
pub open spec fn spec_frac_year(d: int) -> int {
    let y = d / 10000;
    let mo = (d / 100) % 100;
    let da = d % 100;
    sat64(
        y * (FX_SCALE as int) + div_trunc((mo - 1) * (FX_SCALE as int), 12) + div_trunc(
            (da - 1) * 4 * (FX_SCALE as int),
            1461,
        ),
    )
}

/// The Euclidean quotient of an `i64` by a small positive modulus stays in
/// range.
proof fn lemma_euclid_div_in_range(d: int, m: int)
    requires
        i64::MIN <= d <= i64::MAX,
        1 < m <= 10000,
    ensures
        i64::MIN <= d / m <= i64::MAX,
{
    let q = d / m;
    if d >= 0 {
        lemma_div_pos_is_pos(d, m);
        lemma_div_nonincreasing(d, m);
    } else {
        lemma_fundamental_div_mod(d, m);
        assert(q * m == d - d % m);
        if q > 0 {
            assert(q * m >= m) by (nonlinear_arith)
                requires
                    q >= 1,
                    m > 1,
            ;
        }
        if q < i64::MIN {
            assert(q * m <= (i64::MIN - 1) * 2) by (nonlinear_arith)
                requires
                    q <= i64::MIN - 1,
                    2 <= m,
            ;
        }
    }
}

/// Euclidean division by a small positive constant.
fn euclid_div(d: i64, m: i64) -> (r: i64)
    requires
        1 < m <= 10000,
    ensures
        r as int == d as int / m as int,
{
    proof {
        lemma_euclid_div_in_range(d as int, m as int);
    }
    match d.checked_div_euclid(m) {
        Some(v) => v,
        None => 0,
    }
}

/// Euclidean remainder by a small positive constant.
fn euclid_rem(d: i64, m: i64) -> (r: i64)
    requires
        1 < m <= 10000,
    ensures
        r as int == d as int % m as int,
        0 <= r < m,
{
    match d.checked_rem_euclid(m) {
        Some(v) => v,
        None => 0,
    }
}

/// Fractional year of a `YYYYMMDD`-encoded date, in fixed-point units.
pub fn fractional_year(d: i64) -> (r: i64)
    ensures
        r as int == spec_frac_year(d as int),
{
    let y: i64 = euclid_div(d, 10000);
    let mo: i64 = euclid_rem(euclid_div(d, 100), 100);
    let da: i64 = euclid_rem(d, 100);
    proof {
        lemma_div_trunc_basics((mo as int - 1) * (FX_SCALE as int), 12);
        lemma_div_trunc_basics((da as int - 1) * 4 * (FX_SCALE as int), 1461);
    }
    let month_part: i64 = match ((mo - 1) * FX_SCALE).checked_div(12) {
        Some(v) => v,
        None => 0,
    };
    let day_part: i64 = match ((da - 1) * 4 * FX_SCALE).checked_div(1461) {
        Some(v) => v,
        None => 0,
    };
    proof {
        assert(-0x8000_0000_0000_0000 * 1_000_000 <= (y as int) * (FX_SCALE as int)
            <= 0x8000_0000_0000_0000 * 1_000_000) by (nonlinear_arith)
            requires
                i64::MIN <= y as int <= i64::MAX,
        ;
    }
    let total: i128 = (y as i128) * (FX_SCALE as i128) + (month_part as i128) + (day_part as i128);
    if total > i64::MAX as i128 {
        i64::MAX
    } else if total < i64::MIN as i128 {
        i64::MIN
    } else {
        total as i64
    }
}

} // verus!
