//! The MOSUM break detector.
//!
//! Monitoring residuals are prefix-summed; a moving sum over a window of
//! `floor(h * n_hist)` residuals is standardized by `sigma * sqrt(n_hist)`
//! and compared, in temporal order, against the boundary
//! `crit * sqrt(1 + k / n_hist)`, where `k` is the one-based position of the
//! value in the standardized sequence and `crit` is a two-point lookup in
//! the significance level. The first crossing wins; no crossing, a window
//! longer than the monitoring period, or an empty window is the no-break
//! sentinel `(0, 0)`.
//!
//! A perfect historical fit makes `sigma` zero, which would leave the
//! standardized statistic undefined; the standardizer instead floors
//! `sigma` at one fixed-point unit, so deviations from a perfectly fitted
//! history still yield a decision.

use crate::fixed::{
    div_trunc, fx_abs, fx_add, fx_div, fx_from_count, fx_mul, fx_sqrt, fx_sub,
    lemma_div_trunc_basics, fxs_abs, fxs_add, fxs_div, fxs_mul, fxs_sqrt, fxs_sub, int_seq, sat64,
    FX_SCALE,
};
use vstd::prelude::*;

verus! {

/// The residual of monitoring observation `i` against its prediction.
pub open spec fn spec_resid(obs: Seq<int>, pred: Seq<int>, i: int) -> int {
    fxs_sub(obs[i], pred[i])
}

/// Prefix sum of the first `n` residuals.
pub open spec fn spec_cusum(obs: Seq<int>, pred: Seq<int>, n: int) -> int
    decreases n,
{
    if n <= 0 {
        0
    } else {
        fxs_add(spec_cusum(obs, pred, n - 1), spec_resid(obs, pred, n - 1))
    }
}

/// The MOSUM window: `floor(h * n_hist)` for a nonnegative bandwidth `h`.
pub open spec fn spec_window(h: int, n_hist: int) -> int {
    div_trunc(h * n_hist, FX_SCALE as int)
}

/// The critical value: a two-point lookup in the significance level.
pub open spec fn spec_crit(alpha: int) -> int {
    if alpha <= 50_000 {
        1_360_000
    } else {
        1_630_000
    }
}

/// The standardizer `sigma * sqrt(n_hist)`, with `sigma` floored at one
/// fixed-point unit so that a perfect fit still yields a decision.
pub open spec fn spec_denom(sigma: int, n_hist: int) -> int {
    let sig = if sigma < 1 {
        1
    } else {
        sigma
    };
    fxs_mul(sig, fxs_sqrt(sat64(n_hist * (FX_SCALE as int))))
}

/// The boundary against the standardized value at one-based position
/// `pos`: `crit * sqrt(1 + pos / n_hist)`.
pub open spec fn spec_boundary(alpha: int, n_hist: int, pos: int) -> int {
    fxs_mul(
        spec_crit(alpha),
        fxs_sqrt(fxs_add(FX_SCALE as int, div_trunc(pos * (FX_SCALE as int), n_hist))),
    )
}

/// Whether the standardized moving sum ending at monitoring index `i`
/// crosses its boundary. The window covers residuals `i - w + 1 ..= i`, and
/// the value is at one-based position `i - w + 2` of the standardized
/// sequence.
pub open spec fn spec_cross(
    obs: Seq<int>,
    pred: Seq<int>,
    w: int,
    denom: int,
    alpha: int,
    n_hist: int,
    i: int,
) -> bool {
    fxs_abs(
        fxs_div(fxs_sub(spec_cusum(obs, pred, i + 1), spec_cusum(obs, pred, i + 1 - w)), denom),
    ) > spec_boundary(alpha, n_hist, i - w + 2)
}

/// The first monitoring index at or after `i` whose standardized moving sum
/// crosses its boundary.
pub open spec fn spec_first_cross_from(
    obs: Seq<int>,
    pred: Seq<int>,
    w: int,
    denom: int,
    alpha: int,
    n_hist: int,
    i: int,
) -> Option<int>
    decreases obs.len() - i,
{
    if i < 0 || i >= obs.len() {
        Option::None
    } else if spec_cross(obs, pred, w, denom, alpha, n_hist, i) {
        Option::Some(i)
    } else {
        spec_first_cross_from(obs, pred, w, denom, alpha, n_hist, i + 1)
    }
}

/// What the detector reports: the no-break sentinel when the window is
/// empty or longer than the monitoring period or nothing crosses, otherwise
/// the monitoring timestamp of the first crossing and the absolute residual
/// there.
pub open spec fn spec_detect(
    obs: Seq<int>,
    pred: Seq<int>,
    tsm: Seq<int>,
    n_hist: int,
    sigma: int,
    h: int,
    alpha: int,
) -> (int, int) {
    let w = spec_window(h, n_hist);
    if w < 1 || obs.len() < w {
        (0, 0)
    } else {
        let denom = spec_denom(sigma, n_hist);
        match spec_first_cross_from(obs, pred, w, denom, alpha, n_hist, w - 1) {
            Option::None => (0, 0),
            Option::Some(i) => (tsm[i], fxs_abs(spec_resid(obs, pred, i))),
        }
    }
}

/// What `spec_first_cross_from` finds is the first crossing, not merely
/// some crossing: every earlier index from `i` on does not cross, and a
/// `None` means no index from `i` on crosses.
pub proof fn lemma_first_cross_minimal(
    obs: Seq<int>,
    pred: Seq<int>,
    w: int,
    denom: int,
    alpha: int,
    n_hist: int,
    i: int,
)
    requires
        0 <= i,
    ensures
        match spec_first_cross_from(obs, pred, w, denom, alpha, n_hist, i) {
            Option::Some(j) => i <= j < obs.len() && spec_cross(obs, pred, w, denom, alpha, n_hist, j)
                && forall|b: int|
                i <= b < j ==> !spec_cross(obs, pred, w, denom, alpha, n_hist, b),
            Option::None => forall|b: int|
                i <= b < obs.len() ==> !spec_cross(obs, pred, w, denom, alpha, n_hist, b),
        },
    decreases obs.len() - i,
{
    if i < obs.len() && !spec_cross(obs, pred, w, denom, alpha, n_hist, i) {
        lemma_first_cross_minimal(obs, pred, w, denom, alpha, n_hist, i + 1);
    }
}

/// A reported magnitude is never negative: it is either the sentinel zero
/// or an absolute residual.
pub proof fn lemma_detect_magnitude_nonneg(
    obs: Seq<int>,
    pred: Seq<int>,
    tsm: Seq<int>,
    n_hist: int,
    sigma: int,
    h: int,
    alpha: int,
)
    ensures
        spec_detect(obs, pred, tsm, n_hist, sigma, h, alpha).1 >= 0,
{
}

/// When the window fits, the detector's verdict is the first crossing and
/// nothing but the first: a reported break carries the timestamp and the
/// absolute residual of a crossing index that no earlier valid index
/// precedes, and the sentinel means no valid index crosses at all.
pub proof fn lemma_detect_first_crossing(
    obs: Seq<int>,
    pred: Seq<int>,
    tsm: Seq<int>,
    n_hist: int,
    sigma: int,
    h: int,
    alpha: int,
)
    requires
        1 <= spec_window(h, n_hist) <= obs.len(),
    ensures
        ({
            let w = spec_window(h, n_hist);
            let denom = spec_denom(sigma, n_hist);
            match spec_first_cross_from(obs, pred, w, denom, alpha, n_hist, w - 1) {
                Option::Some(i) => spec_detect(obs, pred, tsm, n_hist, sigma, h, alpha) == (
                    tsm[i],
                    fxs_abs(spec_resid(obs, pred, i)),
                ) && spec_cross(obs, pred, w, denom, alpha, n_hist, i) && forall|b: int|
                    w - 1 <= b < i ==> !spec_cross(obs, pred, w, denom, alpha, n_hist, b),
                Option::None => spec_detect(obs, pred, tsm, n_hist, sigma, h, alpha) == (0int, 0int)
                    && forall|b: int|
                    w - 1 <= b < obs.len() ==> !spec_cross(obs, pred, w, denom, alpha, n_hist, b),
            }
        }),
{
    let w = spec_window(h, n_hist);
    let denom = spec_denom(sigma, n_hist);
    lemma_first_cross_minimal(obs, pred, w, denom, alpha, n_hist, w - 1);
}

/// The boundary value at one-based position `pos`.
fn boundary_at(alpha: i64, n_hist: usize, pos: usize) -> (r: i64)
    requires
        n_hist >= 1,
    ensures
        r as int == spec_boundary(alpha as int, n_hist as int, pos as int),
{
    let crit: i64 = if alpha <= 50_000 {
        1_360_000
    } else {
        1_630_000
    };
    proof {
        assert(0 <= (pos as int) * 1_000_000 <= 0xffff_ffff_ffff_ffff * 1_000_000)
            by (nonlinear_arith)
            requires
                0 <= pos as int <= u64::MAX,
        ;
        lemma_div_trunc_basics((pos as int) * 1_000_000, n_hist as int);
    }
    let p128: i128 = (pos as i128) * 1_000_000;
    let q: i128 = match p128.checked_div(n_hist as i128) {
        Some(v) => v,
        None => 0,
    };
    let inner: i64 = crate::fixed::clamp128(1_000_000 + q);
    let sq = fx_sqrt(inner);
    fx_mul(crit, sq)
}

/// Scans the standardized moving sums of the monitoring residuals in
/// temporal order and reports the first boundary crossing: its monitoring
/// timestamp and the absolute residual at that exact index. Reports the
/// `(0, 0)` sentinel when nothing crosses or the window does not fit.
pub fn detect_mosum_break(
    observed: &Vec<i64>,
    predicted: &Vec<i64>,
    monitor_ts: &Vec<i64>,
    n_hist: usize,
    sigma: i64,
    h: i64,
    alpha: i64,
) -> (r: (i64, i64))
    requires
        observed@.len() == predicted@.len(),
        observed@.len() == monitor_ts@.len(),
        observed@.len() < usize::MAX,
        n_hist >= 1,
    ensures
        (r.0 as int, r.1 as int) == spec_detect(
            int_seq(observed@),
            int_seq(predicted@),
            int_seq(monitor_ts@),
            n_hist as int,
            sigma as int,
            h as int,
            alpha as int,
        ),
        r.1 >= 0,
{
    let ghost obs = int_seq(observed@);
    let ghost pred = int_seq(predicted@);
    proof {
        assert(-0x8000_0000_0000_0000 * 0xffff_ffff_ffff_ffff <= (h as int) * (n_hist as int)
            <= 0x8000_0000_0000_0000 * 0xffff_ffff_ffff_ffff) by (nonlinear_arith)
            requires
                i64::MIN <= h as int <= i64::MAX,
                0 <= n_hist as int <= u64::MAX,
        ;
        lemma_div_trunc_basics((h as int) * (n_hist as int), FX_SCALE as int);
    }
    let w128: i128 = (h as i128) * (n_hist as i128);
    let wq: i128 = match w128.checked_div(1_000_000i128) {
        Some(v) => v,
        None => 0,
    };
    if wq < 1 || (observed.len() as i128) < wq {
        return (0, 0);
    }
    let w: usize = wq as usize;
    let sig: i64 = if sigma < 1 {
        1
    } else {
        sigma
    };
    let nfx = fx_from_count(n_hist);
    let sq = fx_sqrt(nfx);
    let denom = fx_mul(sig, sq);
    proof {
        assert(denom as int == spec_denom(sigma as int, n_hist as int));
    }
    let n = observed.len();
    let mut cs: Vec<i64> = Vec::new();
    cs.push(0);
    let mut i: usize = 0;
    while i < n
        invariant
            i <= n,
            n == observed@.len(),
            observed@.len() == predicted@.len(),
            obs == int_seq(observed@),
            pred == int_seq(predicted@),
            cs@.len() == i + 1,
            forall|a: int| 0 <= a <= i ==> #[trigger] cs@[a] as int == spec_cusum(obs, pred, a),
        decreases n - i,
    {
        let e = fx_sub(observed[i], predicted[i]);
        let c = fx_add(cs[i], e);
        cs.push(c);
        i = i + 1;
    }
    let mut i: usize = w - 1;
    while i < n
        invariant
            w >= 1,
            w - 1 <= i <= n,
            n == observed@.len(),
            n < usize::MAX,
            observed@.len() == predicted@.len(),
            observed@.len() == monitor_ts@.len(),
            n_hist >= 1,
            obs == int_seq(observed@),
            pred == int_seq(predicted@),
            w <= n,
            w as int == spec_window(h as int, n_hist as int),
            denom as int == spec_denom(sigma as int, n_hist as int),
            cs@.len() == n + 1,
            forall|a: int| 0 <= a <= n ==> #[trigger] cs@[a] as int == spec_cusum(obs, pred, a),
            spec_first_cross_from(obs, pred, w as int, denom as int, alpha as int, n_hist as int, w as int - 1)
                == spec_first_cross_from(obs, pred, w as int, denom as int, alpha as int, n_hist as int, i as int),
        decreases n - i,
    {
        let ms = fx_sub(cs[i + 1], cs[i + 1 - w]);
        let sd = fx_abs(fx_div(ms, denom));
        let pos: usize = i + 2 - w;
        let bnd = boundary_at(alpha, n_hist, pos);
        if sd > bnd {
            proof {
                assert(spec_cross(obs, pred, w as int, denom as int, alpha as int, n_hist as int, i as int));
            }
            let mag = fx_abs(fx_sub(observed[i], predicted[i]));
            return (monitor_ts[i], mag);
        }
        proof {
            assert(!spec_cross(obs, pred, w as int, denom as int, alpha as int, n_hist as int, i as int));
        }
        i = i + 1;
    }
    (0, 0)
}

} // verus!
