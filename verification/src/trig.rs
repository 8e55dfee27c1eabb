//! Fixed-point cosine and sine of `2*pi*x`, for `x` in fixed-point units.
//!
//! The harmonic basis only ever evaluates the two functions at whole-cycle
//! phases, so both are defined through the phase `x mod 1`: exact at the
//! four quarter-cycle points, and elsewhere by a truncated Taylor expansion
//! on the first quarter wave, folded into the other quarters by symmetry.
//! Every step is fixed-point arithmetic, so the functions are total and
//! their values are pinned exactly by the specifications.

use crate::fixed::{
    div_trunc, fx_add, fx_div_count, fx_mul, fx_sub, fxs_add, fxs_mul, fxs_sub, FX_SCALE,
};
use vstd::arithmetic::div_mod::lemma_mod_add_multiples_vanish;
use vstd::prelude::*;

verus! {

/// `2*pi` in fixed-point units, truncated.
pub const TWO_PI_FX: i64 = 6_283_185;

/// Truncated Taylor expansion of `cos(2*pi*u)` for a phase `u` in the first
/// quarter cycle, `0 <= u <= 1/4` in fixed-point units.
pub open spec fn spec_cos_quarter(u: int) -> int {
    let th = fxs_mul(u, TWO_PI_FX as int);
    let t2 = fxs_mul(th, th);
    let t4 = fxs_mul(t2, t2);
    let t6 = fxs_mul(t4, t2);
    let t8 = fxs_mul(t4, t4);
    let t10 = fxs_mul(t8, t2);
    fxs_sub(
        fxs_add(
            fxs_sub(
                fxs_add(fxs_sub(FX_SCALE as int, div_trunc(t2, 2)), div_trunc(t4, 24)),
                div_trunc(t6, 720),
            ),
            div_trunc(t8, 40320),
        ),
        div_trunc(t10, 3628800),
    )
}

/// `cos(2*pi*x)` in fixed-point units: exact at quarter-cycle phases, the
/// folded quarter-wave expansion elsewhere. Negation saturates with the rest
/// of the fixed-point arithmetic.
pub open spec fn spec_cos2pi(x: int) -> int {
    let p = x % (FX_SCALE as int);
    if p == 0 {
        FX_SCALE as int
    } else if p == 250_000 {
        0
    } else if p == 500_000 {
        -(FX_SCALE as int)
    } else if p == 750_000 {
        0
    } else if p < 250_000 {
        spec_cos_quarter(p)
    } else if p < 500_000 {
        fxs_sub(0, spec_cos_quarter(500_000 - p))
    } else if p < 750_000 {
        fxs_sub(0, spec_cos_quarter(p - 500_000))
    } else {
        spec_cos_quarter(FX_SCALE as int - p)
    }
}

/// `sin(2*pi*x)` in fixed-point units: the cosine shifted by a quarter
/// cycle.
pub open spec fn spec_sin2pi(x: int) -> int {
    spec_cos2pi(x - 250_000)
}

/// Both functions depend on their argument only through the phase
/// `x mod 1`.
pub proof fn lemma_trig_periodic(a: int, b: int)
    requires
        a % (FX_SCALE as int) == b % (FX_SCALE as int),
    ensures
        spec_cos2pi(a) == spec_cos2pi(b),
        spec_sin2pi(a) == spec_sin2pi(b),
{
    lemma_shift_mod(a, b, -250_000);
}

/// Congruent arguments stay congruent under a common shift.
proof fn lemma_shift_mod(a: int, b: int, d: int)
    requires
        a % (FX_SCALE as int) == b % (FX_SCALE as int),
    ensures
        (a + d) % (FX_SCALE as int) == (b + d) % (FX_SCALE as int),
{
    let s = FX_SCALE as int;
    vstd::arithmetic::div_mod::lemma_add_mod_noop(a, d, s);
    vstd::arithmetic::div_mod::lemma_add_mod_noop(b, d, s);
}

fn cos_quarter(u: i64) -> (r: i64)
    requires
        0 <= u <= 250_000,
    ensures
        r as int == spec_cos_quarter(u as int),
{
    let th = fx_mul(u, TWO_PI_FX);
    let t2 = fx_mul(th, th);
    let t4 = fx_mul(t2, t2);
    let t6 = fx_mul(t4, t2);
    let t8 = fx_mul(t4, t4);
    let t10 = fx_mul(t8, t2);
    let c0 = fx_sub(FX_SCALE, fx_div_count(t2, 2));
    let c1 = fx_add(c0, fx_div_count(t4, 24));
    let c2 = fx_sub(c1, fx_div_count(t6, 720));
    let c3 = fx_add(c2, fx_div_count(t8, 40320));
    fx_sub(c3, fx_div_count(t10, 3628800))
}

/// `cos(2*pi*x)` for a fixed-point `x`.
pub fn cos2pi(x: i64) -> (r: i64)
    ensures
        r as int == spec_cos2pi(x as int),
{
    let p: i64 = match x.checked_rem_euclid(FX_SCALE) {
        Some(v) => v,
        None => 0,
    };
    if p == 0 {
        FX_SCALE
    } else if p == 250_000 {
        0
    } else if p == 500_000 {
        -FX_SCALE
    } else if p == 750_000 {
        0
    } else if p < 250_000 {
        cos_quarter(p)
    } else if p < 500_000 {
        let v = cos_quarter(500_000 - p);
        fx_sub(0, v)
    } else if p < 750_000 {
        let v = cos_quarter(p - 500_000);
        fx_sub(0, v)
    } else {
        cos_quarter(FX_SCALE - p)
    }
}

/// `sin(2*pi*x)` for a fixed-point `x`.
pub fn sin2pi(x: i64) -> (r: i64)
    ensures
        r as int == spec_sin2pi(x as int),
{
    if x >= i64::MIN + 250_000 {
        cos2pi(x - 250_000)
    } else {
        proof {
            lemma_mod_add_multiples_vanish(x as int - 250_000, FX_SCALE as int);
        }
        cos2pi(x + 750_000)
    }
}

} // verus!
