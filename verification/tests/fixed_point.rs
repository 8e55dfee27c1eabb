//! Fixed-point arithmetic and trigonometry.

use eo_processor::fixed::{fx_abs, fx_add, fx_div, fx_mul, fx_sqrt, fx_sub, FX_SCALE};
use eo_processor::trig::{cos2pi, sin2pi};

#[test]
fn fx_add_exact_and_saturating() {
    assert_eq!(fx_add(1_500_000, 2_500_000), 4_000_000);
    assert_eq!(fx_add(i64::MAX, 1), i64::MAX);
    assert_eq!(fx_add(i64::MIN, -1), i64::MIN);
    assert_eq!(fx_sub(1_000_000, 3_000_000), -2_000_000);
    assert_eq!(fx_sub(i64::MIN, 1), i64::MIN);
}

#[test]
fn fx_mul_rescales() {
    // 2.0 * 3.0 == 6.0
    assert_eq!(fx_mul(2_000_000, 3_000_000), 6_000_000);
    // 0.5 * 0.5 == 0.25
    assert_eq!(fx_mul(500_000, 500_000), 250_000);
    // truncation is toward zero on both signs
    assert_eq!(fx_mul(1, 500_000), 0);
    assert_eq!(fx_mul(-1, 500_000), 0);
    assert_eq!(fx_mul(i64::MAX, i64::MAX), i64::MAX);
}

#[test]
fn fx_div_rescales_and_absorbs_zero() {
    // 1.0 / 3.0 == 0.333333, truncated
    assert_eq!(fx_div(1_000_000, 3_000_000), 333_333);
    assert_eq!(fx_div(-1_000_000, 3_000_000), -333_333);
    assert_eq!(fx_div(5, 0), 0);
    assert_eq!(fx_div(6_000_000, 2_000_000), 3_000_000);
}

#[test]
fn fx_sqrt_floor() {
    assert_eq!(fx_sqrt(4_000_000), 2_000_000);
    assert_eq!(fx_sqrt(FX_SCALE), FX_SCALE);
    // sqrt(2.0) == 1.414213..., floored at the fixed-point resolution
    assert_eq!(fx_sqrt(2_000_000), 1_414_213);
    assert_eq!(fx_sqrt(0), 0);
    assert_eq!(fx_sqrt(-5), 0);
}

#[test]
fn fx_abs_saturates_at_minimum() {
    assert_eq!(fx_abs(-7), 7);
    assert_eq!(fx_abs(7), 7);
    assert_eq!(fx_abs(i64::MIN), i64::MAX);
}

#[test]
fn trig_exact_at_quarter_cycles() {
    assert_eq!(cos2pi(0), FX_SCALE);
    assert_eq!(cos2pi(250_000), 0);
    assert_eq!(cos2pi(500_000), -FX_SCALE);
    assert_eq!(cos2pi(750_000), 0);
    // periodic in whole cycles, also for negative phases
    assert_eq!(cos2pi(1_250_000), 0);
    assert_eq!(cos2pi(-500_000), -FX_SCALE);
    assert_eq!(sin2pi(0), 0);
    assert_eq!(sin2pi(250_000), FX_SCALE);
    assert_eq!(sin2pi(500_000), 0);
    assert_eq!(sin2pi(750_000), -FX_SCALE);
}

#[test]
fn trig_quarter_wave_accuracy() {
    // cos(pi/4) = sin(pi/4) = 0.707106...
    let c = cos2pi(125_000);
    assert!((c - 707_106).abs() < 300, "cos(2*pi/8) was {c}");
    let s = sin2pi(125_000);
    assert!((s - 707_106).abs() < 300, "sin(2*pi/8) was {s}");
    // cos(pi/3) = 0.5
    let third = cos2pi(166_666);
    assert!((third - 500_000).abs() < 300, "cos(2*pi/6) was {third}");
}
