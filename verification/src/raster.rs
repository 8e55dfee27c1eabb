//! The parallel raster driver.
//!
//! A call validates the stack's shape once, converts the shared date vector
//! to fractional years once, and then treats every `(row, col)` position as
//! an independent job: each pixel's result is a pure function of its own
//! time series and the shared read-only inputs, so the jobs may run
//! concurrently in any order without affecting the output. The two outputs
//! of every pixel land in disjoint cells of the two output channels.

use crate::calendar::{fractional_year, spec_frac_year};
use crate::fixed::int_seq;
use crate::pixel::{run_bfast_monitor_per_pixel, spec_pixel};
use crate::CoreError;
use rayon::iter::{IntoParallelIterator, ParallelIterator};
use vstd::arithmetic::div_mod::{lemma_fundamental_div_mod_converse, lemma_multiply_divide_lt};
use vstd::arithmetic::mul::lemma_mul_is_commutative;
use vstd::prelude::*;

verus! {

/// Everything one pixel's computation reads: the flattened stack, the
/// precomputed fractional-year date series, the stack dimensions, and the
/// shared parameters. Shared read-only across all pixel jobs.
pub struct PixelJob {
    /// The stack, flattened in (time, row, col) order.
    pub data: Vec<i64>,
    /// Fractional-year timestamps, one per time step.
    pub dates_fx: Vec<i64>,
    /// Length of the time axis.
    pub times: usize,
    /// Number of raster rows.
    pub rows: usize,
    /// Number of raster columns.
    pub cols: usize,
    /// Start of the history window, as a fractional year.
    pub history_start_fx: i64,
    /// Start of the monitoring window, as a fractional year.
    pub monitor_start_fx: i64,
    /// Harmonic order of the model.
    pub order: usize,
    /// MOSUM bandwidth, fixed-point.
    pub h: i64,
    /// Significance level, fixed-point.
    pub alpha: i64,
}

/// Consistency of a job: the flattened stack matches its dimensions.
pub open spec fn job_wf(job: PixelJob) -> bool {
    &&& job.data@.len() == job.times * job.rows * job.cols
    &&& job.dates_fx@.len() == job.times
    &&& job.times < usize::MAX
    &&& job.rows * job.cols <= usize::MAX
    &&& 2 * job.order + 2 < usize::MAX
}

/// The time series of pixel `(r, c)` in a flattened (time, row, col)
/// stack.
pub open spec fn spec_series(
    data: Seq<int>,
    times: int,
    rows: int,
    cols: int,
    r: int,
    c: int,
) -> Seq<int> {
    Seq::new(times as nat, |i: int| data[i * (rows * cols) + r * cols + c])
}

/// The date vector converted to fractional years.
pub open spec fn spec_dates_fx(dates: Seq<i64>) -> Seq<int> {
    dates.map_values(|d: i64| spec_frac_year(d as int))
}

/// The pixel result at flat position `p` (row-major over the raster).
pub open spec fn spec_pixel_at(job: PixelJob, p: int) -> (int, int) {
    spec_pixel(
        spec_series(
            int_seq(job.data@),
            job.times as int,
            job.rows as int,
            job.cols as int,
            p / (job.cols as int),
            p % (job.cols as int),
        ),
        int_seq(job.dates_fx@),
        job.history_start_fx as int,
        job.monitor_start_fx as int,
        job.order as int,
        job.h as int,
        job.alpha as int,
    )
}

/// A pixel's result depends on the stack only through that pixel's own
/// series: two stacks that agree on the series of `(r, c)` agree on the
/// result at `(r, c)`, whatever every other pixel holds. This is why the
/// driver may dispatch pixels concurrently and in any order.
pub proof fn lemma_pixel_independence(
    data_a: Seq<int>,
    data_b: Seq<int>,
    times: int,
    rows: int,
    cols: int,
    r: int,
    c: int,
    dates_fx: Seq<int>,
    hs: int,
    ms: int,
    order: int,
    h: int,
    alpha: int,
)
    requires
        spec_series(data_a, times, rows, cols, r, c) == spec_series(data_b, times, rows, cols, r, c),
    ensures
        spec_pixel(spec_series(data_a, times, rows, cols, r, c), dates_fx, hs, ms, order, h, alpha)
            == spec_pixel(
            spec_series(data_b, times, rows, cols, r, c),
            dates_fx,
            hs,
            ms,
            order,
            h,
            alpha,
        ),
{
}

/// One pixel's computation, by flat position.
pub fn pixel_at(job: &PixelJob, p: usize) -> (r: (i64, i64))
    requires
        job_wf(*job),
        p < job.rows * job.cols,
    ensures
        (r.0 as int, r.1 as int) == spec_pixel_at(*job, p as int),
{
    proof {
        if job.cols == 0 {
            assert(job.rows * job.cols == 0) by (nonlinear_arith)
                requires
                    job.cols == 0int,
            ;
        }
        assert(job.rows as int * job.cols as int <= usize::MAX);
    }
    let rc: usize = job.rows * job.cols;
    let rr: usize = p / job.cols;
    let cc: usize = p % job.cols;
    let data_len: usize = job.data.len();
    proof {
        lemma_mul_is_commutative(job.rows as int, job.cols as int);
        lemma_multiply_divide_lt(p as int, job.cols as int, job.rows as int);
        vstd::arithmetic::mul::lemma_mul_is_associative(
            job.times as int,
            job.rows as int,
            job.cols as int,
        );
    }
    let mut series: Vec<i64> = Vec::new();
    let mut i: usize = 0;
    while i < job.times
        invariant
            i <= job.times,
            job_wf(*job),
            rc == job.rows * job.cols,
            data_len == job.data@.len(),
            job.times as int * (rc as int) == job.data@.len(),
            rr < job.rows,
            cc < job.cols,
            rr == p as int / job.cols as int,
            cc == p as int % job.cols as int,
            series@.len() == i,
            forall|a: int|
                0 <= a < i ==> #[trigger] series@[a] == job.data@[a * (rc as int) + rr as int
                    * job.cols as int + cc as int],
        decreases job.times - i,
    {
        proof {
            let gi = i as int;
            let gt = job.times as int;
            let grows = job.rows as int;
            let gcols = job.cols as int;
            let grc = rc as int;
            let grr = rr as int;
            let gcc = cc as int;
            assert(gi * grc + grr * gcols + gcc < gt * grc && grr * gcols + gcc < grc)
                by (nonlinear_arith)
                requires
                    0 <= gi < gt,
                    0 <= grr < grows,
                    0 <= gcc < gcols,
                    grc == grows * gcols,
            ;
        }
        let idx: usize = i * rc + rr * job.cols + cc;
        let v = job.data[idx];
        series.push(v);
        i = i + 1;
    }
    proof {
        let target = spec_series(
            int_seq(job.data@),
            job.times as int,
            job.rows as int,
            job.cols as int,
            rr as int,
            cc as int,
        );
        let gt = job.times as int;
        let grows = job.rows as int;
        let gcols = job.cols as int;
        let grc = rc as int;
        let grr = rr as int;
        let gcc = cc as int;
        assert forall|a: int| 0 <= a < gt implies int_seq(series@)[a] == target[a] by {
            assert(0 <= a * grc + grr * gcols + gcc < gt * grc) by (nonlinear_arith)
                requires
                    0 <= a < gt,
                    0 <= grr < grows,
                    0 <= gcc < gcols,
                    grc == grows * gcols,
            ;
            assert(series@[a] == job.data@[a * grc + grr * gcols + gcc]);
            assert(target[a] == int_seq(job.data@)[a * (grows * gcols) + grr * gcols + gcc]);
        }
        assert(int_seq(series@) =~= target);
    }
    run_bfast_monitor_per_pixel(
        &series,
        &job.dates_fx,
        job.history_start_fx,
        job.monitor_start_fx,
        job.order,
        job.h,
        job.alpha,
    )
}

/// Relies on rayon's parallel iterators: `into_par_iter` on the range
/// `0..n` yields each index exactly once, `map` applies the closure to each
/// index independently, and collecting an indexed parallel iterator into a
/// `Vec` keeps the indices' order. The closure only calls the verified
/// [`pixel_at`], whose contract pins every element.
#[verifier::external_body]
fn par_map_pixels(job: &PixelJob, n: usize) -> (r: Vec<(i64, i64)>)
    requires
        job_wf(*job),
        n == job.rows * job.cols,
    ensures
        r@.len() == n,
        forall|i: int|
            0 <= i < n ==> ((#[trigger] r@[i]).0 as int, r@[i].1 as int) == spec_pixel_at(
                *job,
                i,
            ),
{
    (0..n).into_par_iter().map(|i: usize| pixel_at(job, i)).collect()
}

/// An owned copy of a series.
fn copy_vals(v: &Vec<i64>) -> (r: Vec<i64>)
    ensures
        r@ == v@,
{
    let mut out: Vec<i64> = Vec::new();
    let mut i: usize = 0;
    while i < v.len()
        invariant
            i <= v@.len(),
            out@.len() == i,
            forall|a: int| 0 <= a < i ==> #[trigger] out@[a] == v@[a],
        decreases v@.len() - i,
    {
        let x = v[i];
        out.push(x);
        i = i + 1;
    }
    proof {
        assert(out@ =~= v@);
    }
    out
}

/// A flat position decomposes into its row and column.
proof fn lemma_flat_index(rr: int, cc: int, cols: int)
    requires
        0 <= rr,
        0 <= cc < cols,
    ensures
        (rr * cols + cc) / cols == rr,
        (rr * cols + cc) % cols == cc,
{
    lemma_fundamental_div_mod_converse(rr * cols + cc, cols, rr, cc);
}

/// The two-channel output raster, flattened in (channel, row, col) order:
/// channel 0 holds each pixel's break date (fractional year, `0` for no
/// break), channel 1 its magnitude (`0` for no break).
pub struct BreakRaster {
    /// `2 * rows * cols` cells: channel 0, then channel 1.
    pub values: Vec<i64>,
    /// Number of raster rows.
    pub rows: usize,
    /// Number of raster columns.
    pub cols: usize,
}

/// Runs the break detector over every pixel of a 3-D (time, row, col)
/// stack.
///
/// Rejects the call with `InvalidArgument` exactly when the shape is not
/// 3-dimensional or the date vector does not match the time axis, and with
/// `ComputationError` exactly when the flattened data do not match the
/// shape or the output raster would not be addressable; otherwise the
/// output is fully populated, one independent result per pixel.
pub fn bfast_monitor(
    data: &Vec<i64>,
    shape: &Vec<usize>,
    dates: &Vec<i64>,
    history_start_date: i64,
    monitor_start_date: i64,
    order: usize,
    h: i64,
    alpha: i64,
) -> (r: Result<BreakRaster, CoreError>)
    requires
        2 * order + 2 < usize::MAX,
    ensures
        (shape@.len() != 3 || shape@[0] != dates@.len()) <==> r == Result::<
            BreakRaster,
            CoreError,
        >::Err(CoreError::InvalidArgument),
        (shape@.len() == 3 && shape@[0] == dates@.len() && (data@.len() != shape@[0] * shape@[1]
            * shape@[2] || shape@[0] >= usize::MAX || 2 * shape@[1] * shape@[2] > usize::MAX))
            <==> r == Result::<BreakRaster, CoreError>::Err(CoreError::ComputationError),
        (shape@.len() == 3 && shape@[0] == dates@.len() && data@.len() == shape@[0] * shape@[1]
            * shape@[2] && shape@[0] < usize::MAX && 2 * shape@[1] * shape@[2] <= usize::MAX)
            <==> r is Ok,
        r matches Result::Ok(out) ==> {
            &&& shape@.len() == 3
            &&& shape@[0] == dates@.len()
            &&& data@.len() == shape@[0] * shape@[1] * shape@[2]
            &&& out.rows == shape@[1]
            &&& out.cols == shape@[2]
            &&& out.values@.len() == 2 * shape@[1] * shape@[2]
            &&& forall|rr: int, cc: int|
                0 <= rr < out.rows && 0 <= cc < out.cols ==> #[trigger] out.values@[rr
                    * out.cols as int + cc] as int == spec_pixel(
                    spec_series(
                        int_seq(data@),
                        shape@[0] as int,
                        shape@[1] as int,
                        shape@[2] as int,
                        rr,
                        cc,
                    ),
                    spec_dates_fx(dates@),
                    spec_frac_year(history_start_date as int),
                    spec_frac_year(monitor_start_date as int),
                    order as int,
                    h as int,
                    alpha as int,
                ).0
            &&& forall|rr: int, cc: int|
                0 <= rr < out.rows && 0 <= cc < out.cols ==> #[trigger] out.values@[out.rows as int
                    * out.cols as int + rr * out.cols as int + cc] as int == spec_pixel(
                    spec_series(
                        int_seq(data@),
                        shape@[0] as int,
                        shape@[1] as int,
                        shape@[2] as int,
                        rr,
                        cc,
                    ),
                    spec_dates_fx(dates@),
                    spec_frac_year(history_start_date as int),
                    spec_frac_year(monitor_start_date as int),
                    order as int,
                    h as int,
                    alpha as int,
                ).1
        },
{
    let data_len: usize = data.len();
    if shape.len() != 3 {
        return Result::Err(CoreError::InvalidArgument);
    }
    let times: usize = shape[0];
    let rows: usize = shape[1];
    let cols: usize = shape[2];
    if times != dates.len() {
        return Result::Err(CoreError::InvalidArgument);
    }
    if times == usize::MAX {
        return Result::Err(CoreError::ComputationError);
    }
    proof {
        vstd::arithmetic::mul::lemma_mul_is_associative(2int, rows as int, cols as int);
        vstd::arithmetic::mul::lemma_mul_is_associative(times as int, rows as int, cols as int);
    }
    let rc: usize = match rows.checked_mul(cols) {
        Some(v) => v,
        None => {
            return Result::Err(CoreError::ComputationError);
        },
    };
    let out_len: usize = match rc.checked_mul(2) {
        Some(v) => v,
        None => {
            return Result::Err(CoreError::ComputationError);
        },
    };
    let trc: usize = match times.checked_mul(rc) {
        Some(v) => v,
        None => {
            proof {
                lemma_oversized_stack(int_seq(data@), times as int, rows as int, cols as int);
            }
            return Result::Err(CoreError::ComputationError);
        },
    };
    if data_len != trc {
        return Result::Err(CoreError::ComputationError);
    }
    let mut dates_fx: Vec<i64> = Vec::new();
    let mut i: usize = 0;
    while i < dates.len()
        invariant
            i <= dates@.len(),
            dates_fx@.len() == i,
            forall|a: int|
                0 <= a < i ==> #[trigger] dates_fx@[a] as int == spec_frac_year(dates@[a] as int),
        decreases dates@.len() - i,
    {
        let f = fractional_year(dates[i]);
        dates_fx.push(f);
        i = i + 1;
    }
    proof {
        assert(int_seq(dates_fx@) =~= spec_dates_fx(dates@));
    }
    let job = PixelJob {
        data: copy_vals(data),
        dates_fx,
        times,
        rows,
        cols,
        history_start_fx: fractional_year(history_start_date),
        monitor_start_fx: fractional_year(monitor_start_date),
        order,
        h,
        alpha,
    };
    let results = par_map_pixels(&job, rc);
    let mut values: Vec<i64> = Vec::new();
    let mut p: usize = 0;
    while p < rc
        invariant
            p <= rc,
            results@.len() == rc,
            values@.len() == p,
            forall|a: int|
                0 <= a < p ==> #[trigger] values@[a] as int == spec_pixel_at(job, a).0,
            forall|a: int|
                0 <= a < rc ==> ((#[trigger] results@[a]).0 as int, results@[a].1 as int)
                    == spec_pixel_at(job, a),
        decreases rc - p,
    {
        let v = results[p].0;
        values.push(v);
        p = p + 1;
    }
    let mut p: usize = 0;
    while p < rc
        invariant
            p <= rc,
            results@.len() == rc,
            values@.len() == rc + p,
            forall|a: int|
                0 <= a < rc ==> #[trigger] values@[a] as int == spec_pixel_at(job, a).0,
            forall|a: int|
                0 <= a < p ==> #[trigger] values@[rc + a] as int == spec_pixel_at(job, a).1,
            forall|a: int|
                0 <= a < rc ==> ((#[trigger] results@[a]).0 as int, results@[a].1 as int)
                    == spec_pixel_at(job, a),
        decreases rc - p,
    {
        let v = results[p].1;
        values.push(v);
        p = p + 1;
    }
    let ghost hs = spec_frac_year(history_start_date as int);
    let ghost ms = spec_frac_year(monitor_start_date as int);
    proof {
        assert forall|rr: int, cc: int|
            #![trigger rr * (cols as int) + cc]
            0 <= rr < rows && 0 <= cc < cols implies {
            let p = rr * (cols as int) + cc;
            &&& 0 <= p < rc as int
            &&& values@[p] as int == spec_pixel(
                spec_series(int_seq(data@), times as int, rows as int, cols as int, rr, cc),
                spec_dates_fx(dates@),
                hs,
                ms,
                order as int,
                h as int,
                alpha as int,
            ).0
            &&& values@[rc as int + p] as int == spec_pixel(
                spec_series(int_seq(data@), times as int, rows as int, cols as int, rr, cc),
                spec_dates_fx(dates@),
                hs,
                ms,
                order as int,
                h as int,
                alpha as int,
            ).1
        } by {
            lemma_flat_index(rr, cc, cols as int);
            assert(rr * (cols as int) + cc < rc as int) by (nonlinear_arith)
                requires
                    0 <= rr < rows as int,
                    0 <= cc < cols as int,
                    rc as int == rows as int * cols as int,
            ;
            let p = rr * (cols as int) + cc;
            assert(spec_pixel_at(job, p) == spec_pixel(
                spec_series(int_seq(data@), times as int, rows as int, cols as int, rr, cc),
                spec_dates_fx(dates@),
                hs,
                ms,
                order as int,
                h as int,
                alpha as int,
            ));
        }
        assert forall|rr: int, cc: int| 0 <= rr < rows && 0 <= cc < cols implies #[trigger] (
        values@[rr * (cols as int) + cc]) as int == spec_pixel(
            spec_series(int_seq(data@), times as int, rows as int, cols as int, rr, cc),
            spec_dates_fx(dates@),
            hs,
            ms,
            order as int,
            h as int,
            alpha as int,
        ).0 by {
            assert(0 <= rr * (cols as int) + cc < rc as int);
        }
        assert forall|rr: int, cc: int| 0 <= rr < rows && 0 <= cc < cols implies #[trigger] (
        values@[rows as int * (cols as int) + rr * (cols as int) + cc]) as int == spec_pixel(
            spec_series(int_seq(data@), times as int, rows as int, cols as int, rr, cc),
            spec_dates_fx(dates@),
            hs,
            ms,
            order as int,
            h as int,
            alpha as int,
        ).1 by {
            assert(0 <= rr * (cols as int) + cc < rc as int);
            assert(values@[rc as int + (rr * (cols as int) + cc)] as int == spec_pixel(
                spec_series(int_seq(data@), times as int, rows as int, cols as int, rr, cc),
                spec_dates_fx(dates@),
                hs,
                ms,
                order as int,
                h as int,
                alpha as int,
            ).1);
        }
    }
    Result::Ok(BreakRaster { values, rows, cols })
}

/// A stack whose full index space exceeds the address range cannot match
/// the length of any actual data vector.
proof fn lemma_oversized_stack(data: Seq<int>, times: int, rows: int, cols: int)
    requires
        times * (rows * cols) > usize::MAX,
        data.len() <= usize::MAX,
    ensures
        data.len() != times * rows * cols,
{
    vstd::arithmetic::mul::lemma_mul_is_associative(times, rows, cols);
}

} // verus!
