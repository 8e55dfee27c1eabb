//! The per-pixel pipeline and the raster driver, end to end.

use eo_processor::pixel::run_bfast_monitor_per_pixel;
use eo_processor::raster::bfast_monitor;
use eo_processor::CoreError;

const S: i64 = 1_000_000;

/// History at fractional years 0..=3 on the exact line y = 1 + t, then a
/// monitoring window at 4..=7.
fn dates_fx() -> Vec<i64> {
    vec![0, S, 2 * S, 3 * S, 4 * S, 5 * S, 6 * S, 7 * S]
}

#[test]
fn pixel_no_break_when_trend_continues() {
    let series = vec![S, 2 * S, 3 * S, 4 * S, 5 * S, 6 * S, 7 * S, 8 * S];
    let r = run_bfast_monitor_per_pixel(&series, &dates_fx(), 0, 4 * S, 0, 250_000, 50_000);
    assert_eq!(r, (0, 0));
}

#[test]
fn pixel_break_on_last_monitor_deviation() {
    // the same history, but the last monitoring value jumps from 8 to 20:
    // the break lands at that exact index, with magnitude |20 - 8| = 12
    let series = vec![S, 2 * S, 3 * S, 4 * S, 5 * S, 6 * S, 7 * S, 20 * S];
    let r = run_bfast_monitor_per_pixel(&series, &dates_fx(), 0, 4 * S, 0, 250_000, 50_000);
    assert_eq!(r, (7 * S, 12 * S));
}

#[test]
fn pixel_empty_history_gives_sentinel() {
    let series = vec![S, 2 * S, 3 * S, 4 * S, 5 * S, 6 * S, 7 * S, 8 * S];
    // the history window [10, 12) holds no dates
    let r = run_bfast_monitor_per_pixel(
        &series,
        &dates_fx(),
        10 * S,
        12 * S,
        0,
        250_000,
        50_000,
    );
    assert_eq!(r, (0, 0));
}

#[test]
fn pixel_empty_monitoring_gives_sentinel() {
    let series = vec![S, 2 * S, 3 * S, 4 * S, 5 * S, 6 * S, 7 * S, 8 * S];
    // monitoring starts after the last date
    let r = run_bfast_monitor_per_pixel(&series, &dates_fx(), 0, 9 * S, 0, 250_000, 50_000);
    assert_eq!(r, (0, 0));
}

#[test]
fn pixel_short_history_gives_sentinel() {
    // one history observation cannot carry a two-coefficient model
    let series = vec![S, 5 * S, 6 * S, 7 * S, 20 * S];
    let dates = vec![0, 4 * S, 5 * S, 6 * S, 7 * S];
    let r = run_bfast_monitor_per_pixel(&series, &dates, 0, 4 * S, 0, 250_000, 50_000);
    assert_eq!(r, (0, 0));
}

#[test]
fn pixel_zero_degrees_of_freedom_gives_sentinel() {
    // exactly two history observations, order 0: the fitter fails on
    // df == 0 and the pipeline absorbs it
    let series = vec![S, 2 * S, 5 * S, 6 * S, 7 * S, 20 * S];
    let dates = vec![0, S, 4 * S, 5 * S, 6 * S, 7 * S];
    let r = run_bfast_monitor_per_pixel(&series, &dates, 0, 4 * S, 0, 250_000, 50_000);
    assert_eq!(r, (0, 0));
}

#[test]
fn raster_rejects_wrong_dimensionality() {
    let data = vec![0; 8];
    let dates = vec![101; 8];
    for shape in [vec![8], vec![8, 1], vec![2, 2, 2, 1]] {
        let r = bfast_monitor(&data, &shape, &dates, 101, 40101, 0, 250_000, 50_000);
        assert!(matches!(r, Err(CoreError::InvalidArgument)));
    }
}

#[test]
fn raster_rejects_date_length_mismatch() {
    let data = vec![0; 8];
    let dates = vec![101; 7];
    let r = bfast_monitor(&data, &vec![8, 1, 1], &dates, 101, 40101, 0, 250_000, 50_000);
    assert!(matches!(r, Err(CoreError::InvalidArgument)));
}

#[test]
fn raster_rejects_data_shape_mismatch() {
    let data = vec![0; 7];
    let dates = vec![101; 8];
    let r = bfast_monitor(&data, &vec![8, 1, 1], &dates, 101, 40101, 0, 250_000, 50_000);
    assert!(matches!(r, Err(CoreError::ComputationError)));
}

#[test]
fn raster_end_to_end_two_pixels() {
    // a 1x2 raster over 8 time steps; dates are January firsts of years
    // 0..=7, so their fractional years are whole: 0, 1, ..., 7
    let dates: Vec<i64> = vec![101, 10101, 20101, 30101, 40101, 50101, 60101, 70101];
    let steady = [S, 2 * S, 3 * S, 4 * S, 5 * S, 6 * S, 7 * S, 8 * S];
    let broken = [S, 2 * S, 3 * S, 4 * S, 5 * S, 6 * S, 7 * S, 20 * S];
    // flatten (time, row, col): two columns interleave per time step
    let mut data: Vec<i64> = Vec::new();
    for i in 0..8 {
        data.push(steady[i]);
        data.push(broken[i]);
    }
    let out = bfast_monitor(
        &data,
        &vec![8, 1, 2],
        &dates,
        101,
        40101,
        0,
        250_000,
        50_000,
    )
    .unwrap();
    assert_eq!(out.rows, 1);
    assert_eq!(out.cols, 2);
    // channel 0: break dates; channel 1: magnitudes
    assert_eq!(out.values, vec![0, 7 * S, 0, 12 * S]);
}

#[test]
fn raster_empty_stack_is_ok() {
    // a 0x0 raster with an empty time axis is valid and fully populated
    let r = bfast_monitor(&vec![], &vec![0, 0, 0], &vec![], 101, 40101, 0, 250_000, 50_000)
        .unwrap();
    assert_eq!(r.rows, 0);
    assert_eq!(r.cols, 0);
    assert_eq!(r.values, Vec::<i64>::new());
}

#[test]
fn raster_pixels_are_independent() {
    // changing one pixel's series leaves every other pixel's result alone
    let dates: Vec<i64> = vec![101, 10101, 20101, 30101, 40101, 50101, 60101, 70101];
    let steady = [S, 2 * S, 3 * S, 4 * S, 5 * S, 6 * S, 7 * S, 8 * S];
    let broken = [S, 2 * S, 3 * S, 4 * S, 5 * S, 6 * S, 7 * S, 20 * S];
    let wild = [9 * S, 0, 7 * S, 0, 5 * S, 0, 3 * S, 0];
    let mut first: Vec<i64> = Vec::new();
    let mut second: Vec<i64> = Vec::new();
    for i in 0..8 {
        first.push(steady[i]);
        first.push(broken[i]);
        second.push(steady[i]);
        second.push(wild[i]);
    }
    let shape = vec![8, 1, 2];
    let a = bfast_monitor(&first, &shape, &dates, 101, 40101, 0, 250_000, 50_000).unwrap();
    let b = bfast_monitor(&second, &shape, &dates, 101, 40101, 0, 250_000, 50_000).unwrap();
    // pixel (0, 0) sits at flat cells 0 (break date) and 2 (magnitude)
    assert_eq!(a.values[0], b.values[0]);
    assert_eq!(a.values[2], b.values[2]);
}
