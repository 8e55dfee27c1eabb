//! Calendar normalization and the design-matrix column contract.

use eo_processor::calendar::fractional_year;
use eo_processor::design::{design_matrix, design_row};
use eo_processor::fixed::FX_SCALE;
use eo_processor::trig::{cos2pi, sin2pi};

#[test]
fn fractional_year_of_january_first_is_the_year() {
    assert_eq!(fractional_year(20200101), 2020 * FX_SCALE);
    assert_eq!(fractional_year(101), 0);
    assert_eq!(fractional_year(70101), 7 * FX_SCALE);
}

#[test]
fn fractional_year_splits_months_and_days() {
    // 2020 + 6/12 + 0/365.25
    assert_eq!(fractional_year(20200701), 2020_500_000);
    // 2020 + 0/12 + 14/365.25; 14/365.25 = 0.038329..., truncated
    assert_eq!(fractional_year(20200115), 2020_038_329);
    // months weigh 1/12 = 0.083333
    assert_eq!(fractional_year(20200201), 2020_083_333);
}

#[test]
fn fractional_year_is_monotone_across_month_ends() {
    let before = fractional_year(20200131);
    let after = fractional_year(20200201);
    assert!(before < after, "{before} !< {after}");
}

#[test]
fn design_row_order_one_layout() {
    // order 1 at t = 0: [1, 0, cos 0, sin 0]
    assert_eq!(design_row(0, 1), vec![FX_SCALE, 0, FX_SCALE, 0]);
    // order 1 at t = 0.25: cos(2*pi*t) = 0, sin(2*pi*t) = 1
    assert_eq!(design_row(250_000, 1), vec![FX_SCALE, 250_000, 0, FX_SCALE]);
    // the trend column carries the raw timestamp
    let t: i64 = 1_234_567;
    let row = design_row(t, 1);
    assert_eq!(row.len(), 4);
    assert_eq!(row[0], FX_SCALE);
    assert_eq!(row[1], t);
    assert_eq!(row[2], cos2pi(t));
    assert_eq!(row[3], sin2pi(t));
}

#[test]
fn design_row_higher_harmonics_double_the_phase() {
    // at t = 0.25 the second harmonic sits at phase 0.5
    let row = design_row(250_000, 2);
    assert_eq!(row.len(), 6);
    assert_eq!(row[4], -FX_SCALE); // cos(2*pi*2*t)
    assert_eq!(row[5], 0); // sin(2*pi*2*t)
}

#[test]
fn design_matrix_one_row_per_timestamp() {
    let ts = vec![0, 250_000, 500_000];
    let m = design_matrix(&ts, 0);
    assert_eq!(m.len(), 3);
    for (i, row) in m.iter().enumerate() {
        assert_eq!(row.len(), 2);
        assert_eq!(row[0], FX_SCALE);
        assert_eq!(row[1], ts[i]);
    }
}
