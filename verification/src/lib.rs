//! Per-pixel breakpoint detection for satellite time-series rasters.
//!
//! Given a 3-D stack of observations (time, row, col) and an acquisition date
//! for each time step, the engine fits a harmonic trend model to a stable
//! history window of every pixel, predicts the monitoring window from that
//! model, and scans a standardized moving sum (MOSUM) of the monitoring
//! residuals for the first crossing of a significance boundary.
//!
//! All real quantities are carried as fixed-point numbers: an `i64` counting
//! millionths (see [`fixed`]). Arithmetic on them is exact integer
//! arithmetic, truncating toward zero where a division rounds and clamping
//! at the `i64` range, so every result is fully determined by the inputs.

use vstd::prelude::*;

pub mod calendar;
pub mod design;
pub mod detect;
pub mod fit;
pub mod fixed;
pub mod pixel;
pub mod raster;
pub mod trig;

verus! {

/// Failure taxonomy of the engine.
///
/// `InvalidArgument` is fatal to a whole call and reports malformed
/// call-level input. `NotEnoughData` and `ComputationError` arise while
/// fitting one pixel; the pixel pipeline absorbs them into the no-break
/// sentinel, and only a raster-level layout failure surfaces
/// `ComputationError` to the caller.
#[derive(Clone, Copy, Debug, PartialEq, Eq, Structural)]
pub enum CoreError {
    /// Malformed call-level input: wrong dimensionality, or a date vector
    /// whose length does not match the stack's time axis.
    InvalidArgument,
    /// A pixel's history window holds fewer observations than the model has
    /// coefficients.
    NotEnoughData,
    /// A numerical failure: a singular system, non-positive degrees of
    /// freedom, or a raster whose element count does not match its shape.
    ComputationError,
}

} // verus!
