//! The per-pixel pipeline.
//!
//! One pixel's time series is split by the shared date series into a
//! history window `[history_start, monitor_start)` and a monitoring window
//! `[monitor_start, ..)`. The history is fitted, the monitoring window
//! predicted, and the MOSUM detector scanned. An empty window is a defined
//! degenerate outcome, and any fit failure is absorbed: both yield the
//! no-break sentinel `(0, 0)` rather than an error, so one bad pixel can
//! never abort a batch.

use crate::detect::{detect_mosum_break, spec_detect};
use crate::fit::{
    fit_harmonic_model, predict_harmonic_model, spec_design_mat, spec_fit_aug, spec_fx_dot,
    spec_sigma, spec_solve,
};
use crate::design::spec_design_row;
use crate::fixed::int_seq;
use vstd::prelude::*;

verus! {

/// A sequence of indices as mathematical integers.
pub open spec fn idx_seq(v: Seq<usize>) -> Seq<int> {
    v.map_values(|x: usize| x as int)
}

/// Indices of the first `n` dates that fall in the history window
/// `[hs, ms)`, in temporal order.
pub open spec fn spec_hist_idx(dates: Seq<int>, hs: int, ms: int, n: int) -> Seq<int>
    decreases n,
{
    if n <= 0 {
        Seq::empty()
    } else {
        let prev = spec_hist_idx(dates, hs, ms, n - 1);
        if hs <= dates[n - 1] && dates[n - 1] < ms {
            prev.push(n - 1)
        } else {
            prev
        }
    }
}

/// Indices of the first `n` dates that fall in the monitoring window
/// `[ms, ..)`, in temporal order.
pub open spec fn spec_mon_idx(dates: Seq<int>, ms: int, n: int) -> Seq<int>
    decreases n,
{
    if n <= 0 {
        Seq::empty()
    } else {
        let prev = spec_mon_idx(dates, ms, n - 1);
        if dates[n - 1] >= ms {
            prev.push(n - 1)
        } else {
            prev
        }
    }
}

/// The values of a sequence at the given indices.
pub open spec fn spec_gather(vals: Seq<int>, idx: Seq<int>) -> Seq<int> {
    idx.map_values(|i: int| vals[i])
}

/// What one pixel reports: the sentinel for an empty window, a history
/// shorter than or equal to the coefficient count, or a singular fit;
/// otherwise the detector's verdict on the fitted model.
pub open spec fn spec_pixel(
    series: Seq<int>,
    dates_fx: Seq<int>,
    hs: int,
    ms: int,
    order: int,
    h: int,
    alpha: int,
) -> (int, int) {
    let n = dates_fx.len() as int;
    let hi = spec_hist_idx(dates_fx, hs, ms, n);
    let mi = spec_mon_idx(dates_fx, ms, n);
    if hi.len() == 0 || mi.len() == 0 {
        (0, 0)
    } else {
        let hy = spec_gather(series, hi);
        let ht = spec_gather(dates_fx, hi);
        let k = 2 * order + 2;
        if hi.len() <= k {
            (0, 0)
        } else {
            match spec_solve(spec_fit_aug(hy, ht, order), k) {
                Option::None => (0, 0),
                Option::Some(beta) => {
                    let sigma = spec_sigma(hy, spec_design_mat(ht, order), beta, hi.len() - k);
                    let my = spec_gather(series, mi);
                    let mt = spec_gather(dates_fx, mi);
                    let mpred = Seq::new(
                        mi.len(),
                        |a: int| spec_fx_dot(spec_design_row(mt[a], order), beta),
                    );
                    spec_detect(my, mpred, mt, hi.len() as int, sigma, h, alpha)
                },
            }
        }
    }
}

/// The values of a series at a vector of in-bounds indices.
fn gather(vals: &Vec<i64>, idx: &Vec<usize>) -> (r: Vec<i64>)
    requires
        forall|a: int| 0 <= a < idx@.len() ==> #[trigger] idx@[a] < vals@.len(),
    ensures
        r@.len() == idx@.len(),
        int_seq(r@) == spec_gather(int_seq(vals@), idx_seq(idx@)),
{
    let mut out: Vec<i64> = Vec::new();
    let mut i: usize = 0;
    while i < idx.len()
        invariant
            i <= idx@.len(),
            forall|a: int| 0 <= a < idx@.len() ==> #[trigger] idx@[a] < vals@.len(),
            out@.len() == i,
            forall|a: int| 0 <= a < i ==> #[trigger] out@[a] == vals@[idx@[a] as int],
        decreases idx@.len() - i,
    {
        let v = vals[idx[i]];
        out.push(v);
        i = i + 1;
    }
    proof {
        assert(int_seq(out@) =~= spec_gather(int_seq(vals@), idx_seq(idx@)));
    }
    out
}

/// Runs the full pipeline for one pixel: partition by date, fit the
/// history, predict the monitoring window, detect the first break.
///
/// An empty history or monitoring partition, a history window of at most
/// `2 * order + 2` observations, and a singular fit all yield the sentinel
/// `(0, 0)`: a pixel-level fit failure is never an error.
pub fn run_bfast_monitor_per_pixel(
    series: &Vec<i64>,
    dates_fx: &Vec<i64>,
    history_start_fx: i64,
    monitor_start_fx: i64,
    order: usize,
    h: i64,
    alpha: i64,
) -> (r: (i64, i64))
    requires
        series@.len() == dates_fx@.len(),
        series@.len() < usize::MAX,
        2 * order + 2 < usize::MAX,
    ensures
        (r.0 as int, r.1 as int) == spec_pixel(
            int_seq(series@),
            int_seq(dates_fx@),
            history_start_fx as int,
            monitor_start_fx as int,
            order as int,
            h as int,
            alpha as int,
        ),
        (spec_hist_idx(
            int_seq(dates_fx@),
            history_start_fx as int,
            monitor_start_fx as int,
            dates_fx@.len() as int,
        ).len() == 0 || spec_mon_idx(
            int_seq(dates_fx@),
            monitor_start_fx as int,
            dates_fx@.len() as int,
        ).len() == 0) ==> r == (0i64, 0i64),
        spec_hist_idx(
            int_seq(dates_fx@),
            history_start_fx as int,
            monitor_start_fx as int,
            dates_fx@.len() as int,
        ).len() <= 2 * order + 2 ==> r == (0i64, 0i64),
        r.1 >= 0,
{
    let ghost dts = int_seq(dates_fx@);
    let n = dates_fx.len();
    let mut hidx: Vec<usize> = Vec::new();
    let mut midx: Vec<usize> = Vec::new();
    let mut i: usize = 0;
    while i < n
        invariant
            i <= n,
            n == dates_fx@.len(),
            dts == int_seq(dates_fx@),
            hidx@.len() <= i,
            midx@.len() <= i,
            forall|a: int| 0 <= a < hidx@.len() ==> #[trigger] hidx@[a] < n,
            forall|a: int| 0 <= a < midx@.len() ==> #[trigger] midx@[a] < n,
            idx_seq(hidx@) == spec_hist_idx(
                dts,
                history_start_fx as int,
                monitor_start_fx as int,
                i as int,
            ),
            idx_seq(midx@) == spec_mon_idx(dts, monitor_start_fx as int, i as int),
        decreases n - i,
    {
        let d = dates_fx[i];
        if history_start_fx <= d && d < monitor_start_fx {
            hidx.push(i);
            proof {
                assert(idx_seq(hidx@) =~= spec_hist_idx(
                    dts,
                    history_start_fx as int,
                    monitor_start_fx as int,
                    i as int + 1,
                ));
            }
        } else if d >= monitor_start_fx {
            midx.push(i);
            proof {
                assert(idx_seq(midx@) =~= spec_mon_idx(dts, monitor_start_fx as int, i as int + 1));
            }
        }
        i = i + 1;
    }
    if hidx.len() == 0 || midx.len() == 0 {
        return (0, 0);
    }
    let hy = gather(series, &hidx);
    let ht = gather(dates_fx, &hidx);
    let ghost sv = int_seq(series@);
    let ghost hi = spec_hist_idx(dts, history_start_fx as int, monitor_start_fx as int, n as int);
    let ghost mi = spec_mon_idx(dts, monitor_start_fx as int, n as int);
    proof {
        assert(int_seq(hy@) == spec_gather(sv, hi));
        assert(int_seq(ht@) == spec_gather(dts, hi));
        assert(hy@.len() == hi.len());
    }
    match fit_harmonic_model(&hy, &ht, order) {
        Result::Err(_) => {
            proof {
                assert(hi.len() <= 2 * order + 2 || spec_solve(
                    spec_fit_aug(spec_gather(sv, hi), spec_gather(dts, hi), order as int),
                    2 * order + 2,
                ) is None);
            }
            (0, 0)
        },
        Result::Ok(model) => {
            let my = gather(series, &midx);
            let mt = gather(dates_fx, &midx);
            let preds = predict_harmonic_model(&model, &mt, order);
            proof {
                assert(int_seq(preds@) =~= Seq::new(
                    idx_seq(midx@).len(),
                    |a: int|
                        spec_fx_dot(
                            spec_design_row(spec_gather(dts, idx_seq(midx@))[a], order as int),
                            int_seq(model.coefficients@),
                        ),
                ));
            }
            detect_mosum_break(&my, &preds, &mt, hidx.len(), model.sigma, h, alpha)
        },
    }
}

} // verus!
