//! The harmonic model fitter and predictor.
//!
//! The fitter solves the ordinary least-squares problem over a pixel's
//! history window: it forms the normal equations of the harmonic design
//! matrix, eliminates them column by column with a nonzero pivot row
//! swapped up whenever a diagonal entry vanishes, and back-substitutes. A
//! column that is zero at and below the diagonal means the system is
//! rank-deficient at fixed-point resolution and the fit fails; so does a
//! history exactly as long as the coefficient vector, whose residual
//! variance would have no degrees of freedom. The residual
//! standard deviation is the square root of the residual sum of squares
//! over the degrees of freedom.

use crate::design::{design_matrix, design_row, spec_design_entry, spec_design_row};
use crate::fixed::{
    div_trunc, fx_add, fx_div, fx_div_count, fx_mul, fx_sqrt, fx_sub, fxs_add, fxs_div, fxs_mul,
    fxs_sqrt, fxs_sub, int_seq, lemma_div_trunc_multiple, FX_SCALE,
};
use crate::CoreError;
use vstd::prelude::*;

verus! {

/// A sequence of fixed-point rows as a matrix of mathematical integers.
pub open spec fn int_mat(m: Seq<Vec<i64>>) -> Seq<Seq<int>> {
    m.map_values(|r: Vec<i64>| int_seq(r@))
}

/// The design matrix over a sequence of timestamps.
pub open spec fn spec_design_mat(ts: Seq<int>, order: int) -> Seq<Seq<int>> {
    Seq::new(ts.len(), |i: int| spec_design_row(ts[i], order))
}

/// Fixed-point dot product of the first `n` entries, accumulated left to
/// right with saturating arithmetic.
pub open spec fn spec_fx_dot_prefix(a: Seq<int>, b: Seq<int>, n: int) -> int
    decreases n,
{
    if n <= 0 {
        0
    } else {
        fxs_add(spec_fx_dot_prefix(a, b, n - 1), fxs_mul(a[n - 1], b[n - 1]))
    }
}

/// Fixed-point dot product of two equally long sequences.
pub open spec fn spec_fx_dot(a: Seq<int>, b: Seq<int>) -> int {
    spec_fx_dot_prefix(a, b, a.len() as int)
}

/// Column `j` of a matrix.
pub open spec fn spec_col(m: Seq<Seq<int>>, j: int) -> Seq<int> {
    Seq::new(m.len(), |i: int| m[i][j])
}

/// Entry `(i, j)` of the normal system of `X^T X beta = X^T y`, augmented
/// with `X^T y` as column `k`.
pub open spec fn spec_normal_entry(xm: Seq<Seq<int>>, y: Seq<int>, k: int, i: int, j: int) -> int {
    if j < k {
        spec_fx_dot(spec_col(xm, i), spec_col(xm, j))
    } else {
        spec_fx_dot(spec_col(xm, i), y)
    }
}

/// The augmented normal system as a `k` by `k + 1` matrix.
pub open spec fn spec_normal_aug(xm: Seq<Seq<int>>, y: Seq<int>, k: int) -> Seq<Seq<int>> {
    Seq::new(k as nat, |i: int| Seq::new((k + 1) as nat, |j: int| spec_normal_entry(xm, y, k, i, j)))
}

/// The augmented normal system of a history window: timestamps expanded
/// into the harmonic basis, observations on the right-hand side.
pub open spec fn spec_fit_aug(ys: Seq<int>, tss: Seq<int>, order: int) -> Seq<Seq<int>> {
    spec_normal_aug(spec_design_mat(tss, order), ys, 2 * order + 2)
}

/// One elimination step: clears column `c` below the pivot row `c` by
/// subtracting the scaled pivot row from every later row.
pub open spec fn spec_elim(m: Seq<Seq<int>>, c: int) -> Seq<Seq<int>> {
    Seq::new(
        m.len(),
        |i: int|
            if i <= c {
                m[i]
            } else {
                Seq::new(
                    m[i].len(),
                    |j: int| fxs_sub(m[i][j], fxs_mul(fxs_div(m[i][c], m[c][c]), m[c][j])),
                )
            },
    )
}

/// The first row at or below `r` whose entry in column `c` is nonzero, or
/// `k` when the rest of the column is zero.
pub open spec fn spec_find_pivot(m: Seq<Seq<int>>, c: int, k: int, r: int) -> int
    decreases k - r,
{
    if r < c || r >= k {
        k
    } else if m[r][c] != 0 {
        r
    } else {
        spec_find_pivot(m, c, k, r + 1)
    }
}

/// Two rows exchanged.
pub open spec fn spec_swap_rows(m: Seq<Seq<int>>, i: int, j: int) -> Seq<Seq<int>>
    recommends
        0 <= i < m.len(),
        0 <= j < m.len(),
{
    m.update(i, m[j]).update(j, m[i])
}

/// Forward elimination over columns `c..k`, swapping a nonzero pivot row
/// up whenever the diagonal entry vanishes: `None` when a whole column at
/// and below the diagonal is zero (the system is rank-deficient at
/// fixed-point resolution), otherwise the triangularized matrix.
pub open spec fn spec_forward(m: Seq<Seq<int>>, c: int, k: int) -> Option<Seq<Seq<int>>>
    decreases k - c,
{
    if c >= k {
        Some(m)
    } else {
        let p = spec_find_pivot(m, c, k, c);
        if p >= k {
            None
        } else {
            spec_forward(spec_elim(spec_swap_rows(m, c, p), c), c + 1, k)
        }
    }
}

/// Weighted sum of `n` solved coefficients against row entries starting at
/// column `base`.
pub open spec fn spec_wsum(row: Seq<int>, beta: Seq<int>, base: int, n: int) -> int
    decreases n,
{
    if n <= 0 {
        0
    } else {
        fxs_add(spec_wsum(row, beta, base, n - 1), fxs_mul(row[base + n - 1], beta[n - 1]))
    }
}

/// Back substitution for rows `i..k` of a triangularized augmented matrix.
pub open spec fn spec_backsub(u: Seq<Seq<int>>, k: int, i: int) -> Seq<int>
    decreases k - i,
{
    if i >= k {
        Seq::empty()
    } else {
        let tail = spec_backsub(u, k, i + 1);
        let s = spec_wsum(u[i], tail, i + 1, k - i - 1);
        seq![fxs_div(fxs_sub(u[i][k], s), u[i][i])] + tail
    }
}

/// The solution of an augmented `k` by `k + 1` system, or `None` when the
/// elimination finds no usable pivot in some column.
pub open spec fn spec_solve(m: Seq<Seq<int>>, k: int) -> Option<Seq<int>> {
    match spec_forward(m, 0, k) {
        Option::None => Option::None,
        Option::Some(u) => Option::Some(spec_backsub(u, k, 0)),
    }
}

/// Residual sum of squares of the first `n` observations against the
/// fitted combination of their design rows.
pub open spec fn spec_sse(ys: Seq<int>, xm: Seq<Seq<int>>, beta: Seq<int>, n: int) -> int
    decreases n,
{
    if n <= 0 {
        0
    } else {
        let e = fxs_sub(ys[n - 1], spec_fx_dot(xm[n - 1], beta));
        fxs_add(spec_sse(ys, xm, beta, n - 1), fxs_mul(e, e))
    }
}

/// Residual standard deviation: the square root of the residual sum of
/// squares over `df` degrees of freedom.
pub open spec fn spec_sigma(ys: Seq<int>, xm: Seq<Seq<int>>, beta: Seq<int>, df: int) -> int {
    fxs_sqrt(div_trunc(spec_sse(ys, xm, beta, ys.len() as int), df))
}

/// A fitted harmonic model: the coefficient vector over the basis of
/// [`spec_design_row`], and the residual standard deviation, both in
/// fixed-point units.
pub struct HarmonicModel {
    /// Coefficients, one per design-matrix column.
    pub coefficients: Vec<i64>,
    /// Residual standard deviation of the fit.
    pub sigma: i64,
}

/// Fixed-point dot product.
pub fn fx_dot(a: &Vec<i64>, b: &Vec<i64>) -> (r: i64)
    requires
        a@.len() == b@.len(),
    ensures
        r as int == spec_fx_dot(int_seq(a@), int_seq(b@)),
{
    let mut acc: i64 = 0;
    let mut i: usize = 0;
    while i < a.len()
        invariant
            i <= a@.len(),
            a@.len() == b@.len(),
            acc as int == spec_fx_dot_prefix(int_seq(a@), int_seq(b@), i as int),
        decreases a@.len() - i,
    {
        acc = fx_add(acc, fx_mul(a[i], b[i]));
        i = i + 1;
    }
    acc
}

/// Dot product of two columns of a matrix, or of a column against a
/// right-hand side.
fn col_dot(xm: &Vec<Vec<i64>>, y: &Vec<i64>, k: usize, i: usize, j: usize) -> (r: i64)
    requires
        xm@.len() == y@.len(),
        forall|a: int| 0 <= a < xm@.len() ==> (#[trigger] xm@[a])@.len() == k,
        i < k,
        j <= k,
    ensures
        r as int == spec_normal_entry(int_mat(xm@), int_seq(y@), k as int, i as int, j as int),
{
    let ghost gm = int_mat(xm@);
    let mut acc: i64 = 0;
    let mut row: usize = 0;
    while row < xm.len()
        invariant
            row <= xm@.len(),
            xm@.len() == y@.len(),
            forall|a: int| 0 <= a < xm@.len() ==> (#[trigger] xm@[a])@.len() == k,
            i < k,
            j <= k,
            gm == int_mat(xm@),
            j < k ==> acc as int == spec_fx_dot_prefix(
                spec_col(gm, i as int),
                spec_col(gm, j as int),
                row as int,
            ),
            j == k ==> acc as int == spec_fx_dot_prefix(
                spec_col(gm, i as int),
                int_seq(y@),
                row as int,
            ),
        decreases xm@.len() - row,
    {
        let other: i64 = if j < k {
            xm[row][j]
        } else {
            y[row]
        };
        acc = fx_add(acc, fx_mul(xm[row][i], other));
        row = row + 1;
    }
    proof {
        assert(spec_col(gm, i as int).len() == xm@.len());
    }
    acc
}

/// Builds the augmented normal system of the design matrix and the
/// observations.
fn normal_system(xm: &Vec<Vec<i64>>, y: &Vec<i64>, k: usize) -> (m: Vec<Vec<i64>>)
    requires
        xm@.len() == y@.len(),
        forall|a: int| 0 <= a < xm@.len() ==> (#[trigger] xm@[a])@.len() == k,
        k < usize::MAX,
    ensures
        int_mat(m@) == spec_normal_aug(int_mat(xm@), int_seq(y@), k as int),
        m@.len() == k,
        forall|a: int| 0 <= a < k ==> (#[trigger] m@[a])@.len() == k + 1,
{
    let mut out: Vec<Vec<i64>> = Vec::new();
    let mut i: usize = 0;
    while i < k
        invariant
            i <= k,
            k < usize::MAX,
            xm@.len() == y@.len(),
            forall|a: int| 0 <= a < xm@.len() ==> (#[trigger] xm@[a])@.len() == k,
            out@.len() == i,
            forall|a: int| 0 <= a < i ==> (#[trigger] out@[a])@.len() == k + 1,
            forall|a: int, b: int|
                0 <= a < i && 0 <= b < k + 1 ==> #[trigger] (out@[a]@[b]) as int
                    == spec_normal_entry(int_mat(xm@), int_seq(y@), k as int, a, b),
        decreases k - i,
    {
        let mut rowv: Vec<i64> = Vec::new();
        let mut j: usize = 0;
        while j < k + 1
            invariant
                i < k,
                j <= k + 1,
                k < usize::MAX,
                xm@.len() == y@.len(),
                forall|a: int| 0 <= a < xm@.len() ==> (#[trigger] xm@[a])@.len() == k,
                rowv@.len() == j,
                forall|b: int|
                    0 <= b < j ==> #[trigger] rowv@[b] as int == spec_normal_entry(
                        int_mat(xm@),
                        int_seq(y@),
                        k as int,
                        i as int,
                        b,
                    ),
            decreases k + 1 - j,
        {
            let e = col_dot(xm, y, k, i, j);
            rowv.push(e);
            j = j + 1;
        }
        out.push(rowv);
        i = i + 1;
    }
    proof {
        assert(int_mat(out@) =~~= spec_normal_aug(int_mat(xm@), int_seq(y@), k as int));
    }
    out
}

/// One forward-elimination step on rows below pivot row `c`.
fn eliminate(m: &Vec<Vec<i64>>, c: usize, k: usize) -> (r: Vec<Vec<i64>>)
    requires
        m@.len() == k,
        forall|a: int| 0 <= a < k ==> (#[trigger] m@[a])@.len() == k + 1,
        c < k,
        k < usize::MAX,
    ensures
        int_mat(r@) == spec_elim(int_mat(m@), c as int),
        r@.len() == k,
        forall|a: int| 0 <= a < k ==> (#[trigger] r@[a])@.len() == k + 1,
{
    let mut out: Vec<Vec<i64>> = Vec::new();
    let mut i: usize = 0;
    while i < k
        invariant
            i <= k,
            c < k,
            k < usize::MAX,
            m@.len() == k,
            forall|a: int| 0 <= a < k ==> (#[trigger] m@[a])@.len() == k + 1,
            out@.len() == i,
            forall|a: int| 0 <= a < i ==> (#[trigger] out@[a])@.len() == k + 1,
            forall|a: int|
                0 <= a < i ==> #[trigger] int_seq(out@[a]@) == spec_elim(int_mat(m@), c as int)[a],
        decreases k - i,
    {
        if i <= c {
            let mut rowv: Vec<i64> = Vec::new();
            let mut j: usize = 0;
            while j < k + 1
                invariant
                    i < k,
                    j <= k + 1,
                    k < usize::MAX,
                    m@.len() == k,
                    forall|a: int| 0 <= a < k ==> (#[trigger] m@[a])@.len() == k + 1,
                    rowv@.len() == j,
                    forall|b: int| 0 <= b < j ==> #[trigger] rowv@[b] == m@[i as int]@[b],
                decreases k + 1 - j,
            {
                let e = m[i][j];
                rowv.push(e);
                j = j + 1;
            }
            proof {
                assert(int_seq(rowv@) =~= int_seq(m@[i as int]@));
                assert(int_seq(rowv@) =~= spec_elim(int_mat(m@), c as int)[i as int]);
            }
            out.push(rowv);
        } else {
            let f = fx_div(m[i][c], m[c][c]);
            let mut rowv: Vec<i64> = Vec::new();
            let mut j: usize = 0;
            while j < k + 1
                invariant
                    i < k,
                    c < k,
                    j <= k + 1,
                    k < usize::MAX,
                    m@.len() == k,
                    forall|a: int| 0 <= a < k ==> (#[trigger] m@[a])@.len() == k + 1,
                    f as int == fxs_div(
                        int_mat(m@)[i as int][c as int],
                        int_mat(m@)[c as int][c as int],
                    ),
                    rowv@.len() == j,
                    forall|b: int|
                        0 <= b < j ==> #[trigger] rowv@[b] as int == fxs_sub(
                            int_mat(m@)[i as int][b],
                            fxs_mul(f as int, int_mat(m@)[c as int][b]),
                        ),
                decreases k + 1 - j,
            {
                let e = fx_sub(m[i][j], fx_mul(f, m[c][j]));
                rowv.push(e);
                j = j + 1;
            }
            proof {
                assert(int_seq(rowv@) =~= spec_elim(int_mat(m@), c as int)[i as int]);
            }
            out.push(rowv);
        }
        i = i + 1;
    }
    proof {
        assert(int_mat(out@) =~~= spec_elim(int_mat(m@), c as int));
    }
    out
}

/// Scans column `c` from the diagonal down for a nonzero pivot row.
fn find_pivot(m: &Vec<Vec<i64>>, c: usize, k: usize) -> (r: usize)
    requires
        m@.len() == k,
        forall|a: int| 0 <= a < k ==> (#[trigger] m@[a])@.len() == k + 1,
        c < k,
    ensures
        r as int == spec_find_pivot(int_mat(m@), c as int, k as int, c as int),
        c <= r <= k,
{
    let ghost gm = int_mat(m@);
    let mut r: usize = c;
    while r < k
        invariant
            c <= r <= k,
            c < k,
            m@.len() == k,
            forall|a: int| 0 <= a < k ==> (#[trigger] m@[a])@.len() == k + 1,
            gm == int_mat(m@),
            spec_find_pivot(gm, c as int, k as int, c as int) == spec_find_pivot(
                gm,
                c as int,
                k as int,
                r as int,
            ),
        decreases k - r,
    {
        if m[r][c] != 0 {
            proof {
                assert(gm[r as int][c as int] != 0);
            }
            return r;
        }
        proof {
            assert(gm[r as int][c as int] == 0);
        }
        r = r + 1;
    }
    k
}

/// Builds the matrix with rows `i` and `j` exchanged.
fn swap_rows(m: &Vec<Vec<i64>>, i: usize, j: usize, k: usize) -> (r: Vec<Vec<i64>>)
    requires
        m@.len() == k,
        forall|a: int| 0 <= a < k ==> (#[trigger] m@[a])@.len() == k + 1,
        i < k,
        j < k,
        k < usize::MAX,
    ensures
        int_mat(r@) == spec_swap_rows(int_mat(m@), i as int, j as int),
        r@.len() == k,
        forall|a: int| 0 <= a < k ==> (#[trigger] r@[a])@.len() == k + 1,
{
    let mut out: Vec<Vec<i64>> = Vec::new();
    let mut t: usize = 0;
    while t < k
        invariant
            t <= k,
            i < k,
            j < k,
            k < usize::MAX,
            m@.len() == k,
            forall|a: int| 0 <= a < k ==> (#[trigger] m@[a])@.len() == k + 1,
            out@.len() == t,
            forall|a: int| 0 <= a < t ==> (#[trigger] out@[a])@.len() == k + 1,
            forall|a: int|
                0 <= a < t ==> #[trigger] int_seq(out@[a]@) == spec_swap_rows(
                    int_mat(m@),
                    i as int,
                    j as int,
                )[a],
        decreases k - t,
    {
        let src: usize = if t == i {
            j
        } else if t == j {
            i
        } else {
            t
        };
        let mut rowv: Vec<i64> = Vec::new();
        let mut b: usize = 0;
        while b < k + 1
            invariant
                src < k,
                b <= k + 1,
                k < usize::MAX,
                m@.len() == k,
                forall|a: int| 0 <= a < k ==> (#[trigger] m@[a])@.len() == k + 1,
                rowv@.len() == b,
                forall|x: int| 0 <= x < b ==> #[trigger] rowv@[x] == m@[src as int]@[x],
            decreases k + 1 - b,
        {
            let e = m[src][b];
            rowv.push(e);
            b = b + 1;
        }
        proof {
            assert(int_seq(rowv@) =~= int_mat(m@)[src as int]);
            assert(int_seq(rowv@) =~= spec_swap_rows(int_mat(m@), i as int, j as int)[t as int]);
        }
        out.push(rowv);
        t = t + 1;
    }
    proof {
        assert(int_mat(out@) =~~= spec_swap_rows(int_mat(m@), i as int, j as int));
    }
    out
}

/// Forward elimination over all columns.
#[verifier::loop_isolation(false)]
fn forward_elim(m: Vec<Vec<i64>>, k: usize) -> (r: Option<Vec<Vec<i64>>>)
    requires
        m@.len() == k,
        forall|a: int| 0 <= a < k ==> (#[trigger] m@[a])@.len() == k + 1,
        k < usize::MAX,
    ensures
        match r {
            Option::Some(u) => spec_forward(int_mat(m@), 0, k as int) == Some(int_mat(u@))
                && u@.len() == k && forall|a: int|
                0 <= a < k ==> (#[trigger] u@[a])@.len() == k + 1,
            Option::None => spec_forward(int_mat(m@), 0, k as int) is None,
        },
{
    let ghost orig = int_mat(m@);
    let mut cur = m;
    let mut c: usize = 0;
    while c < k
        invariant
            c <= k,
            k < usize::MAX,
            cur@.len() == k,
            forall|a: int| 0 <= a < k ==> (#[trigger] cur@[a])@.len() == k + 1,
            spec_forward(orig, 0, k as int) == spec_forward(int_mat(cur@), c as int, k as int),
        decreases k - c,
    {
        let p = find_pivot(&cur, c, k);
        if p >= k {
            proof {
                assert(spec_forward(int_mat(cur@), c as int, k as int) is None);
            }
            return Option::None;
        }
        let swapped = swap_rows(&cur, c, p, k);
        let next = eliminate(&swapped, c, k);
        cur = next;
        c = c + 1;
    }
    Option::Some(cur)
}

/// Back substitution for rows `i..k`.
fn back_substitute(u: &Vec<Vec<i64>>, k: usize, i: usize) -> (r: Vec<i64>)
    requires
        u@.len() == k,
        forall|a: int| 0 <= a < k ==> (#[trigger] u@[a])@.len() == k + 1,
        i <= k,
        k < usize::MAX,
    ensures
        int_seq(r@) == spec_backsub(int_mat(u@), k as int, i as int),
        r@.len() == k - i,
    decreases k - i,
{
    if i >= k {
        let out: Vec<i64> = Vec::new();
        proof {
            assert(int_seq(out@) =~= spec_backsub(int_mat(u@), k as int, i as int));
        }
        out
    } else {
        let mut tail = back_substitute(u, k, i + 1);
        let mut s: i64 = 0;
        let mut j: usize = i + 1;
        while j < k
            invariant
                i < k,
                i + 1 <= j <= k,
                k < usize::MAX,
                u@.len() == k,
                forall|a: int| 0 <= a < k ==> (#[trigger] u@[a])@.len() == k + 1,
                tail@.len() == k - i - 1,
                int_seq(tail@) == spec_backsub(int_mat(u@), k as int, i as int + 1),
                s as int == spec_wsum(
                    int_mat(u@)[i as int],
                    int_seq(tail@),
                    i as int + 1,
                    j - i - 1,
                ),
            decreases k - j,
        {
            s = fx_add(s, fx_mul(u[i][j], tail[j - i - 1]));
            j = j + 1;
        }
        let bi = fx_div(fx_sub(u[i][k], s), u[i][i]);
        let mut out: Vec<i64> = Vec::new();
        out.push(bi);
        out.append(&mut tail);
        proof {
            assert(int_seq(out@) =~= spec_backsub(int_mat(u@), k as int, i as int));
        }
        out
    }
}

/// Solves the augmented system, or reports a rank-deficient column.
fn solve_normal(m: Vec<Vec<i64>>, k: usize) -> (r: Option<Vec<i64>>)
    requires
        m@.len() == k,
        forall|a: int| 0 <= a < k ==> (#[trigger] m@[a])@.len() == k + 1,
        k < usize::MAX,
    ensures
        match r {
            Option::Some(b) => spec_solve(int_mat(m@), k as int) == Some(int_seq(b@)) && b@.len()
                == k,
            Option::None => spec_solve(int_mat(m@), k as int) is None,
        },
{
    match forward_elim(m, k) {
        Option::None => Option::None,
        Option::Some(u) => {
            let beta = back_substitute(&u, k, 0);
            Option::Some(beta)
        },
    }
}

/// Fits the harmonic model of the given order to a history window by
/// ordinary least squares on the normal equations.
///
/// Fails with `NotEnoughData` exactly when the window holds fewer
/// observations than the model has coefficients, and with
/// `ComputationError` exactly when the degrees of freedom are zero or the
/// normal system is singular at fixed-point resolution.
pub fn fit_harmonic_model(y: &Vec<i64>, ts: &Vec<i64>, order: usize) -> (r: Result<
    HarmonicModel,
    CoreError,
>)
    requires
        y@.len() == ts@.len(),
        2 * order + 2 < usize::MAX,
    ensures
        (y@.len() < 2 * order + 2) <==> r == Result::<HarmonicModel, CoreError>::Err(
            CoreError::NotEnoughData,
        ),
        (y@.len() >= 2 * order + 2 && (y@.len() == 2 * order + 2 || spec_solve(
            spec_fit_aug(int_seq(y@), int_seq(ts@), order as int),
            2 * order + 2,
        ) is None)) <==> r == Result::<HarmonicModel, CoreError>::Err(CoreError::ComputationError),
        (y@.len() > 2 * order + 2 && spec_solve(
            spec_fit_aug(int_seq(y@), int_seq(ts@), order as int),
            2 * order + 2,
        ) is Some) <==> r is Ok,
        r matches Result::Ok(m) ==> {
            &&& y@.len() > 2 * order + 2
            &&& spec_solve(spec_fit_aug(int_seq(y@), int_seq(ts@), order as int), 2 * order + 2)
                == Some(int_seq(m.coefficients@))
            &&& m.coefficients@.len() == 2 * order + 2
            &&& m.sigma as int == spec_sigma(
                int_seq(y@),
                spec_design_mat(int_seq(ts@), order as int),
                int_seq(m.coefficients@),
                y@.len() - (2 * order + 2),
            )
        },
{
    let k: usize = 2 * order + 2;
    if y.len() < k {
        return Result::Err(CoreError::NotEnoughData);
    }
    if y.len() == k {
        return Result::Err(CoreError::ComputationError);
    }
    let xm = design_matrix(ts, order);
    proof {
        assert(int_mat(xm@) =~~= spec_design_mat(int_seq(ts@), order as int));
    }
    let aug = normal_system(&xm, y, k);
    match solve_normal(aug, k) {
        Option::None => Result::Err(CoreError::ComputationError),
        Option::Some(beta) => {
            let df: usize = y.len() - k;
            let mut acc: i64 = 0;
            let mut i: usize = 0;
            while i < y.len()
                invariant
                    i <= y@.len(),
                    y@.len() == ts@.len(),
                    beta@.len() == k,
                    xm@.len() == y@.len(),
                    forall|a: int| 0 <= a < xm@.len() ==> (#[trigger] xm@[a])@.len() == k,
                    int_mat(xm@) == spec_design_mat(int_seq(ts@), order as int),
                    acc as int == spec_sse(
                        int_seq(y@),
                        int_mat(xm@),
                        int_seq(beta@),
                        i as int,
                    ),
                decreases y@.len() - i,
            {
                let p = fx_dot(&xm[i], &beta);
                let e = fx_sub(y[i], p);
                acc = fx_add(acc, fx_mul(e, e));
                i = i + 1;
            }
            let v = fx_div_count(acc, df);
            let sigma = fx_sqrt(v);
            Result::Ok(HarmonicModel { coefficients: beta, sigma })
        },
    }
}

/// Perfect-fit recovery: a history lying exactly on the line `y = a + b*t`,
/// sampled at the whole fractional years 0, 1, 2, 3 with order zero, is
/// fitted back to exactly the intercept `a`, the trend `b`, and a residual
/// standard deviation of zero. On this grid every truncating division of
/// the solver is exact; on arbitrary timestamps the divisions can round
/// (already at years 0, 1, 3 the elimination factor truncates), so the
/// statement fixes the grid and bounds the coefficients away from
/// saturation.
pub proof fn lemma_perfect_fit_recovery(a: int, b: int)
    requires
        -0x100_0000_0000 <= a <= 0x100_0000_0000,
        -0x100_0000_0000 <= b <= 0x100_0000_0000,
    ensures
        ({
            let s = FX_SCALE as int;
            let tss = seq![0int, s, 2 * s, 3 * s];
            let ys = seq![a, a + b, a + 2 * b, a + 3 * b];
            &&& spec_solve(spec_fit_aug(ys, tss, 0), 2) == Some(seq![a, b])
            &&& spec_sigma(ys, spec_design_mat(tss, 0), seq![a, b], 2) == 0
        }),
{
    let s = FX_SCALE as int;
    let tss = seq![0int, s, 2 * s, 3 * s];
    let ys = seq![a, a + b, a + 2 * b, a + 3 * b];
    let xm = spec_design_mat(tss, 0);
    assert(s == 1_000_000);
    assert forall|i: int| 0 <= i < 4 implies xm[i] =~= seq![s, tss[i]] by {
        assert(xm[i][0] == spec_design_entry(tss[i], 0));
        assert(xm[i][1] == spec_design_entry(tss[i], 1));
    }
    let c0 = spec_col(xm, 0);
    let c1 = spec_col(xm, 1);
    assert(c0 =~= seq![s, s, s, s]);
    assert(c1 =~= seq![0int, s, 2 * s, 3 * s]);
    // the products that occur are all exact multiples of one unit
    assert(s * s == s * (1 * s) && (2 * s) * s == s * (2 * s) && (3 * s) * s == s * (3 * s))
        by (nonlinear_arith);
    lemma_div_trunc_multiple(0, s);
    lemma_div_trunc_multiple(s, s);
    lemma_div_trunc_multiple(2 * s, s);
    lemma_div_trunc_multiple(3 * s, s);
    lemma_div_trunc_multiple(4 * s, s);
    lemma_div_trunc_multiple(9 * s, s);
    assert(fxs_mul(s, s) == s);
    assert(fxs_mul(s, 2 * s) == 2 * s && fxs_mul(2 * s, s) == 2 * s);
    assert(fxs_mul(s, 3 * s) == 3 * s && fxs_mul(3 * s, s) == 3 * s);
    assert(fxs_mul(s, 0) == 0 && fxs_mul(0, s) == 0 && fxs_mul(0, 0) == 0);
    assert((2 * s) * (2 * s) == s * (4 * s) && (3 * s) * (3 * s) == s * (9 * s))
        by (nonlinear_arith);
    assert(fxs_mul(2 * s, 2 * s) == 4 * s);
    assert(fxs_mul(3 * s, 3 * s) == 9 * s);
    // entries of the normal system that involve the observations
    lemma_div_trunc_multiple(a, s);
    lemma_div_trunc_multiple(a + b, s);
    lemma_div_trunc_multiple(a + 2 * b, s);
    lemma_div_trunc_multiple(a + 3 * b, s);
    assert(fxs_mul(s, a) == a);
    assert(fxs_mul(s, a + b) == a + b);
    assert(fxs_mul(s, a + 2 * b) == a + 2 * b);
    assert(fxs_mul(s, a + 3 * b) == a + 3 * b);
    lemma_div_trunc_multiple(2 * (a + 2 * b), s);
    lemma_div_trunc_multiple(3 * (a + 3 * b), s);
    lemma_div_trunc_multiple(b, s);
    lemma_div_trunc_multiple(2 * b, s);
    lemma_div_trunc_multiple(3 * b, s);
    assert((2 * s) * (a + 2 * b) == s * (2 * (a + 2 * b))) by (nonlinear_arith);
    assert(fxs_mul(2 * s, a + 2 * b) == 2 * a + 4 * b);
    assert((3 * s) * (a + 3 * b) == s * (3 * (a + 3 * b))) by (nonlinear_arith);
    assert(fxs_mul(3 * s, a + 3 * b) == 3 * a + 9 * b);
    assert(fxs_mul(s, b) == b);
    assert((2 * s) * b == s * (2 * b) && (3 * s) * b == s * (3 * b)) by (nonlinear_arith);
    assert(fxs_mul(2 * s, b) == 2 * b);
    assert(fxs_mul(3 * s, b) == 3 * b);
    // the six dot products, prefix by prefix
    assert(spec_fx_dot_prefix(c0, c0, 0) == 0);
    assert(spec_fx_dot_prefix(c0, c0, 1) == s);
    assert(spec_fx_dot_prefix(c0, c0, 2) == 2 * s);
    assert(spec_fx_dot_prefix(c0, c0, 3) == 3 * s);
    assert(spec_fx_dot(c0, c0) == 4 * s);
    assert(spec_fx_dot_prefix(c0, c1, 0) == 0);
    assert(spec_fx_dot_prefix(c0, c1, 1) == 0);
    assert(spec_fx_dot_prefix(c0, c1, 2) == s);
    assert(spec_fx_dot_prefix(c0, c1, 3) == 3 * s);
    assert(spec_fx_dot(c0, c1) == 6 * s);
    assert(spec_fx_dot_prefix(c1, c0, 0) == 0);
    assert(spec_fx_dot_prefix(c1, c0, 1) == 0);
    assert(spec_fx_dot_prefix(c1, c0, 2) == s);
    assert(spec_fx_dot_prefix(c1, c0, 3) == 3 * s);
    assert(spec_fx_dot(c1, c0) == 6 * s);
    assert(spec_fx_dot_prefix(c1, c1, 0) == 0);
    assert(spec_fx_dot_prefix(c1, c1, 1) == 0);
    assert(spec_fx_dot_prefix(c1, c1, 2) == s);
    assert(spec_fx_dot_prefix(c1, c1, 3) == 5 * s);
    assert(spec_fx_dot(c1, c1) == 14 * s);
    assert(spec_fx_dot_prefix(c0, ys, 0) == 0);
    assert(spec_fx_dot_prefix(c0, ys, 1) == a);
    assert(spec_fx_dot_prefix(c0, ys, 2) == 2 * a + b);
    assert(spec_fx_dot_prefix(c0, ys, 3) == 3 * a + 3 * b);
    assert(spec_fx_dot(c0, ys) == 4 * a + 6 * b);
    assert(spec_fx_dot_prefix(c1, ys, 0) == 0);
    assert(spec_fx_dot_prefix(c1, ys, 1) == 0);
    assert(spec_fx_dot_prefix(c1, ys, 2) == a + b);
    assert(spec_fx_dot_prefix(c1, ys, 3) == 3 * a + 5 * b);
    assert(spec_fx_dot(c1, ys) == 6 * a + 14 * b);
    let aug = spec_fit_aug(ys, tss, 0);
    assert(aug[0][0] == 4 * s && aug[0][1] == 6 * s && aug[0][2] == 4 * a + 6 * b);
    assert(aug[1][0] == 6 * s && aug[1][1] == 14 * s && aug[1][2] == 6 * a + 14 * b);
    // forward elimination: the one factor is exactly 3/2
    lemma_div_trunc_multiple(1_500_000, 4 * s);
    assert((6 * s) * s == (4 * s) * 1_500_000int) by (nonlinear_arith)
        requires
            s == 1_000_000,
    ;
    assert(fxs_div(6 * s, 4 * s) == 1_500_000);
    lemma_div_trunc_multiple(6 * s, s);
    assert(1_500_000 * (4 * s) == s * (6 * s)) by (nonlinear_arith)
        requires
            s == 1_000_000,
    ;
    assert(fxs_mul(1_500_000, 4 * s) == 6 * s);
    assert(1_500_000 * (6 * s) == s * (9 * s)) by (nonlinear_arith)
        requires
            s == 1_000_000,
    ;
    assert(fxs_mul(1_500_000, 6 * s) == 9 * s);
    lemma_div_trunc_multiple(6 * a + 9 * b, s);
    assert(1_500_000 * (4 * a + 6 * b) == s * (6 * a + 9 * b)) by (nonlinear_arith)
        requires
            s == 1_000_000,
    ;
    assert(fxs_mul(1_500_000, 4 * a + 6 * b) == 6 * a + 9 * b);
    let e2 = spec_elim(aug, 0);
    assert(e2[0] == aug[0]);
    assert(e2[1][0] == 0 && e2[1][1] == 5 * s && e2[1][2] == 5 * b);
    assert(spec_find_pivot(aug, 0, 2, 0) == 0);
    assert(spec_swap_rows(aug, 0, 0) =~~= aug);
    assert(spec_forward(aug, 0, 2) == spec_forward(e2, 1, 2));
    assert(spec_find_pivot(e2, 1, 2, 1) == 1);
    assert(spec_swap_rows(e2, 1, 1) =~~= e2);
    assert(spec_elim(e2, 1) =~~= e2);
    assert(spec_forward(e2, 1, 2) == spec_forward(spec_elim(spec_swap_rows(e2, 1, 1), 1), 2, 2));
    assert(spec_forward(aug, 0, 2) == Some(e2));
    // back substitution recovers b, then a
    lemma_div_trunc_multiple(b, 5 * s);
    assert((5 * b) * s == (5 * s) * b) by (nonlinear_arith);
    assert(fxs_div(5 * b, 5 * s) == b);
    lemma_div_trunc_multiple(a, 4 * s);
    assert((4 * a) * s == (4 * s) * a) by (nonlinear_arith);
    assert(fxs_div(4 * a, 4 * s) == a);
    assert(spec_backsub(e2, 2, 2) =~= Seq::<int>::empty());
    assert(spec_wsum(e2[1], spec_backsub(e2, 2, 2), 2, 0) == 0);
    assert(spec_backsub(e2, 2, 1) =~= seq![b]);
    assert(spec_wsum(e2[0], spec_backsub(e2, 2, 1), 1, 0) == 0);
    assert(spec_wsum(e2[0], spec_backsub(e2, 2, 1), 1, 1) == fxs_mul(6 * s, b));
    lemma_div_trunc_multiple(6 * b, s);
    assert((6 * s) * b == s * (6 * b)) by (nonlinear_arith);
    assert(fxs_mul(6 * s, b) == 6 * b);
    assert(spec_backsub(e2, 2, 0) =~= seq![a, b]);
    assert(spec_solve(aug, 2) == Some(seq![a, b]));
    // every residual of the recovered line is zero, so sigma is zero
    let beta = seq![a, b];
    assert forall|i: int| 0 <= i < 4 implies spec_fx_dot(xm[i], beta) == ys[i] by {
        assert(xm[i] == seq![s, tss[i]]);
        assert(spec_fx_dot_prefix(xm[i], beta, 0) == 0);
        assert(fxs_mul(0, b) == 0);
        assert(spec_fx_dot_prefix(xm[i], beta, 1) == a);
        assert(spec_fx_dot_prefix(xm[i], beta, 2) == ys[i]);
    }
    assert(spec_sse(ys, xm, beta, 0) == 0);
    assert(spec_sse(ys, xm, beta, 1) == 0);
    assert(spec_sse(ys, xm, beta, 2) == 0);
    assert(spec_sse(ys, xm, beta, 3) == 0);
    assert(spec_sse(ys, xm, beta, 4) == 0);
    assert(div_trunc(0, 2) == 0);
    assert(spec_sigma(ys, xm, beta, 2) == 0);
}

/// Evaluates a fitted model on a sequence of timestamps: each prediction is
/// the dot product of the timestamp's design row with the coefficients.
pub fn predict_harmonic_model(model: &HarmonicModel, ts: &Vec<i64>, order: usize) -> (r: Vec<i64>)
    requires
        model.coefficients@.len() == 2 * order + 2,
        2 * order + 2 <= usize::MAX,
    ensures
        r@.len() == ts@.len(),
        forall|i: int|
            0 <= i < r@.len() ==> #[trigger] r@[i] as int == spec_fx_dot(
                spec_design_row(ts@[i] as int, order as int),
                int_seq(model.coefficients@),
            ),
{
    let mut out: Vec<i64> = Vec::new();
    let mut i: usize = 0;
    while i < ts.len()
        invariant
            i <= ts@.len(),
            model.coefficients@.len() == 2 * order + 2,
            2 * order + 2 <= usize::MAX,
            out@.len() == i,
            forall|a: int|
                0 <= a < i ==> #[trigger] out@[a] as int == spec_fx_dot(
                    spec_design_row(ts@[a] as int, order as int),
                    int_seq(model.coefficients@),
                ),
        decreases ts@.len() - i,
    {
        let row = design_row(ts[i], order);
        proof {
            assert(int_seq(row@) =~= spec_design_row(ts@[i as int] as int, order as int));
        }
        let p = fx_dot(&row, &model.coefficients);
        out.push(p);
        i = i + 1;
    }
    out
}

} // verus!
