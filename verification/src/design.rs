//! The harmonic regression basis.
//!
//! For a fixed-point timestamp `t` and a harmonic order `n`, the basis row
//! has `2*n + 2` entries: the intercept `1`, the linear trend `t`, and for
//! each harmonic `j` in `1..=n` the pair `cos(2*pi*j*t)`, `sin(2*pi*j*t)`.
//! That column ordering is a fixed contract the fitter and the predictor
//! both build on.

use crate::fixed::FX_SCALE;
use crate::trig::{cos2pi, lemma_trig_periodic, sin2pi, spec_cos2pi, spec_sin2pi};
use vstd::arithmetic::div_mod::lemma_small_mod;
use vstd::prelude::*;

verus! {

/// Entry `j` of the basis row at fixed-point timestamp `t`: intercept,
/// trend, then the cosine/sine pair of harmonic `j / 2`.
pub open spec fn spec_design_entry(t: int, j: int) -> int {
    if j == 0 {
        FX_SCALE as int
    } else if j == 1 {
        t
    } else if j % 2 == 0 {
        spec_cos2pi((j / 2) * t)
    } else {
        spec_sin2pi((j / 2) * t)
    }
}

/// The whole basis row at timestamp `t` for the given harmonic order.
pub open spec fn spec_design_row(t: int, order: int) -> Seq<int>
    recommends
        0 <= order,
{
    Seq::new((2 * order + 2) as nat, |j: int| spec_design_entry(t, j))
}

/// The row built for harmonic order one is exactly
/// `[1, t, cos(2*pi*t), sin(2*pi*t)]` (in fixed-point units, where the
/// intercept `1` is one whole unit).
pub proof fn lemma_design_row_order_one(t: int)
    ensures
        spec_design_row(t, 1) == seq![FX_SCALE as int, t, spec_cos2pi(t), spec_sin2pi(t)],
{
    let row = spec_design_row(t, 1);
    let target = seq![FX_SCALE as int, t, spec_cos2pi(t), spec_sin2pi(t)];
    assert(row[0] == spec_design_entry(t, 0));
    assert(row[1] == spec_design_entry(t, 1));
    assert(row[2] == spec_design_entry(t, 2));
    assert(row[3] == spec_design_entry(t, 3));
    assert(spec_design_entry(t, 2) == spec_cos2pi(t));
    assert(spec_design_entry(t, 3) == spec_sin2pi(t));
    assert(row =~= target);
}

/// One basis entry.
pub fn design_entry(t: i64, j: usize) -> (r: i64)
    ensures
        r as int == spec_design_entry(t as int, j as int),
{
    if j == 0 {
        FX_SCALE
    } else if j == 1 {
        t
    } else {
        let jj = j / 2;
        proof {
            assert(-0x8000_0000_0000_0000 * 0xffff_ffff_ffff_ffff <= (jj as int) * (t as int)
                <= 0x8000_0000_0000_0000 * 0xffff_ffff_ffff_ffff) by (nonlinear_arith)
                requires
                    0 <= jj as int <= u64::MAX,
                    i64::MIN <= t as int <= i64::MAX,
            ;
        }
        let ph128: i128 = (jj as i128) * (t as i128);
        let ph: i128 = match ph128.checked_rem_euclid(1_000_000i128) {
            Some(v) => v,
            None => 0,
        };
        let p: i64 = ph as i64;
        proof {
            lemma_small_mod(p as nat, FX_SCALE as nat);
            lemma_trig_periodic(p as int, (jj as int) * (t as int));
        }
        if j % 2 == 0 {
            cos2pi(p)
        } else {
            sin2pi(p)
        }
    }
}

/// The basis row at timestamp `t`.
pub fn design_row(t: i64, order: usize) -> (r: Vec<i64>)
    requires
        2 * order + 2 <= usize::MAX,
    ensures
        r@.len() == 2 * order + 2,
        forall|j: int|
            0 <= j < r@.len() ==> #[trigger] r@[j] as int == spec_design_entry(t as int, j),
{
    let k: usize = 2 * order + 2;
    let mut row: Vec<i64> = Vec::new();
    let mut j: usize = 0;
    while j < k
        invariant
            j <= k,
            k == 2 * order + 2,
            row@.len() == j,
            forall|i: int|
                0 <= i < j ==> #[trigger] row@[i] as int == spec_design_entry(t as int, i),
        decreases k - j,
    {
        let e = design_entry(t, j);
        row.push(e);
        j = j + 1;
    }
    row
}

/// One basis row per timestamp, all with the same order.
pub fn design_matrix(ts: &Vec<i64>, order: usize) -> (r: Vec<Vec<i64>>)
    requires
        2 * order + 2 <= usize::MAX,
    ensures
        r@.len() == ts@.len(),
        forall|i: int| 0 <= i < r@.len() ==> (#[trigger] r@[i])@.len() == 2 * order + 2,
        forall|i: int, j: int|
            0 <= i < r@.len() && 0 <= j < 2 * order + 2 ==> #[trigger] (r@[i]@[j]) as int
                == spec_design_entry(ts@[i] as int, j),
{
    let mut rows: Vec<Vec<i64>> = Vec::new();
    let mut i: usize = 0;
    while i < ts.len()
        invariant
            i <= ts@.len(),
            rows@.len() == i,
            2 * order + 2 <= usize::MAX,
            forall|a: int| 0 <= a < i ==> (#[trigger] rows@[a])@.len() == 2 * order + 2,
            forall|a: int, j: int|
                0 <= a < i && 0 <= j < 2 * order + 2 ==> #[trigger] (rows@[a]@[j]) as int
                    == spec_design_entry(ts@[a] as int, j),
        decreases ts@.len() - i,
    {
        let row = design_row(ts[i], order);
        rows.push(row);
        i = i + 1;
    }
    rows
}

} // verus!
