//! The least-squares fitter, the predictor, and the MOSUM detector.

use eo_processor::detect::detect_mosum_break;
use eo_processor::fit::{fit_harmonic_model, predict_harmonic_model};
use eo_processor::CoreError;

const S: i64 = 1_000_000;

#[test]
fn fit_fails_without_enough_data() {
    // order 0 needs two observations
    let y = vec![S];
    let ts = vec![0];
    assert!(matches!(
        fit_harmonic_model(&y, &ts, 0),
        Err(CoreError::NotEnoughData)
    ));
    // order 1 needs four
    let y = vec![S, S, S];
    let ts = vec![0, S, 2 * S];
    assert!(matches!(
        fit_harmonic_model(&y, &ts, 1),
        Err(CoreError::NotEnoughData)
    ));
}

#[test]
fn fit_fails_with_zero_degrees_of_freedom() {
    // exactly as many observations as coefficients: df == 0
    let y = vec![S, 2 * S];
    let ts = vec![0, S];
    assert!(matches!(
        fit_harmonic_model(&y, &ts, 0),
        Err(CoreError::ComputationError)
    ));
}

#[test]
fn fit_fails_on_singular_system() {
    // three observations at one timestamp: the normal system is singular
    let y = vec![S, 2 * S, 3 * S];
    let ts = vec![S, S, S];
    assert!(matches!(
        fit_harmonic_model(&y, &ts, 0),
        Err(CoreError::ComputationError)
    ));
}

#[test]
fn fit_recovers_exact_line() {
    // y = 3 + 2 t, order 0: intercept and trend come back exactly, sigma 0
    let ts = vec![0, S, 2 * S, 3 * S];
    let y = vec![3 * S, 5 * S, 7 * S, 9 * S];
    let model = fit_harmonic_model(&y, &ts, 0).unwrap();
    assert_eq!(model.coefficients, vec![3 * S, 2 * S]);
    assert_eq!(model.sigma, 0);
}

#[test]
fn predict_extends_the_line() {
    let ts = vec![0, S, 2 * S, 3 * S];
    let y = vec![3 * S, 5 * S, 7 * S, 9 * S];
    let model = fit_harmonic_model(&y, &ts, 0).unwrap();
    let future = vec![4 * S, 5 * S];
    let preds = predict_harmonic_model(&model, &future, 0);
    assert_eq!(preds, vec![11 * S, 13 * S]);
}

#[test]
fn detect_flags_first_crossing_with_its_residual() {
    // one huge residual at the last monitoring index
    let observed = vec![0, 0, 10 * S];
    let predicted = vec![0, 0, 0];
    let ts = vec![S, 2 * S, 3 * S];
    // h = 0.25 of a 4-point history: window of one residual
    let r = detect_mosum_break(&observed, &predicted, &ts, 4, S, 250_000, 50_000);
    assert_eq!(r, (3 * S, 10 * S));
}

#[test]
fn detect_reports_sentinel_without_crossing() {
    let observed = vec![S, S, S];
    let predicted = vec![S, S, S];
    let ts = vec![S, 2 * S, 3 * S];
    let r = detect_mosum_break(&observed, &predicted, &ts, 4, S, 250_000, 50_000);
    assert_eq!(r, (0, 0));
}

#[test]
fn detect_reports_sentinel_when_window_does_not_fit() {
    // h = 1.0 of a 4-point history: window of four, monitoring has three
    let observed = vec![0, 0, 10 * S];
    let predicted = vec![0, 0, 0];
    let ts = vec![S, 2 * S, 3 * S];
    let r = detect_mosum_break(&observed, &predicted, &ts, 4, S, S, 50_000);
    assert_eq!(r, (0, 0));
    // and an empty window never crosses anything
    let r = detect_mosum_break(&observed, &predicted, &ts, 4, S, 0, 50_000);
    assert_eq!(r, (0, 0));
}

#[test]
fn detect_zero_sigma_still_decides() {
    // a perfect fit floors sigma at one unit instead of dividing by zero
    let observed = vec![0, 2 * S];
    let predicted = vec![0, 0];
    let ts = vec![S, 2 * S];
    let r = detect_mosum_break(&observed, &predicted, &ts, 4, 0, 250_000, 50_000);
    assert_eq!(r, (2 * S, 2 * S));
}

#[test]
fn detect_looser_alpha_raises_the_boundary() {
    // a borderline statistic crosses at alpha = 0.05 but not above it
    let observed = vec![2_100_000];
    let predicted = vec![0];
    let ts = vec![S];
    let tight = detect_mosum_break(&observed, &predicted, &ts, 1, S, S, 50_000);
    let loose = detect_mosum_break(&observed, &predicted, &ts, 1, S, S, 60_000);
    assert_eq!(tight, (S, 2_100_000));
    assert_eq!(loose, (0, 0));
}

#[test]
fn fit_recovers_pure_harmonic() {
    // y = cos(2*pi*t) sampled at quarter years for 1.25 years, order 1:
    // the cosine coefficient carries the signal, everything else is noise
    // at fixed-point resolution
    let q: i64 = 250_000;
    let ts = vec![0, q, 2 * q, 3 * q, 4 * q, 5 * q];
    let y = vec![S, 0, -S, 0, S, 0];
    let model = fit_harmonic_model(&y, &ts, 1).unwrap();
    assert_eq!(model.coefficients.len(), 4);
    let c = &model.coefficients;
    assert!(c[0].abs() < 5_000, "intercept {}", c[0]);
    assert!(c[1].abs() < 5_000, "trend {}", c[1]);
    assert!((c[2] - S).abs() < 5_000, "cosine {}", c[2]);
    assert!(c[3].abs() < 5_000, "sine {}", c[3]);
    assert!(model.sigma < 5_000, "sigma {}", model.sigma);
    // and the model extrapolates the wave: cos(2*pi*1.5) = -1
    let preds = predict_harmonic_model(&model, &vec![6 * q], 1);
    assert!((preds[0] + S).abs() < 10_000, "prediction {}", preds[0]);
}
