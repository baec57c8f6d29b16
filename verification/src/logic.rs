//! Linear solver and time integration.
//!
//! [`solve_linear_system`] performs Gaussian elimination with partial
//! pivoting on fixed-point scalars; a stage without a usable (nonzero) pivot
//! aborts with `SimError::SingularSystem`.  [`NPendulumSolver`] combines the
//! dynamics model with the solver into the state derivative and advances the
//! state with the classic fourth-order Runge-Kutta scheme at a fixed step.
//!
//! Every executable function is pinned to a specification-level mirror over
//! sequences, so determinism and the equilibrium law below are theorems.

use vstd::prelude::*;

use crate::fixed::{SimError, in_bound, iabs, tdiv, add_v, mul_v, sub_v, div_v, neg_v, from_int_v,
    fx_add, fx_mul, fx_sub, fx_div, fx_neg, fx_from_int};
use crate::math::{NPendulumMath, G_FX, mass_matrix_v, centri_term_v, centri_sum_v,
    centri_vec_v, grav_entry_v, grav_vec_v, vec_res_matches,
    mat_res_matches, mview};

verus! {

/// The constant 2, in raw fixed-point units.
pub const TWO_FX: i64 = 8589934592;

/// The constant 6, in raw fixed-point units.
pub const SIX_FX: i64 = 25769803776;

/// The constant one half, in raw fixed-point units.
pub const HALF_FX: i64 = 2147483648;

/// Row of the largest-magnitude entry in column `col`, among rows `k` up to
/// `n` and the current candidate `best`; a strictly larger magnitude wins.
pub open spec fn max_row_v(m: Seq<Seq<i64>>, col: int, k: int, best: int, n: int) -> int
    decreases n - k,
{
    if k < 0 || k >= n {
        best
    } else {
        let nb = if iabs(m[k][col] as int) > iabs(m[best][col] as int) {
            k
        } else {
            best
        };
        max_row_v(m, col, k + 1, nb, n)
    }
}

/// Update of row `rowk` while eliminating column `i` with factor `c`, for
/// entries from `j` on: the pivot column is zeroed, every other entry
/// becomes `rowk[j] + c * rowi[j]`.
pub open spec fn elim_row_v(rowk: Seq<i64>, rowi: Seq<i64>, c: i64, i: int, j: int, n: int) -> Result<
    Seq<i64>,
    SimError,
>
    decreases n - j,
{
    if j < 0 || j >= n {
        Ok(rowk)
    } else if j == i {
        elim_row_v(rowk.update(j, 0), rowi, c, i, j + 1, n)
    } else {
        match mul_v(c, rowi[j]) {
            Err(e) => Err(e),
            Ok(p) => match add_v(rowk[j], p) {
                Err(e) => Err(e),
                Ok(s) => elim_row_v(rowk.update(j, s), rowi, c, i, j + 1, n),
            },
        }
    }
}

/// Elimination of column `i` from rows `k` up to `n`, on the matrix and the
/// right-hand side together.
pub open spec fn elim_rows_v(m: Seq<Seq<i64>>, r: Seq<i64>, i: int, k: int, n: int) -> Result<
    (Seq<Seq<i64>>, Seq<i64>),
    SimError,
>
    decreases n - k,
{
    if k < 0 || k >= n {
        Ok((m, r))
    } else {
        match neg_v(m[k][i]) {
            Err(e) => Err(e),
            Ok(nm) => match div_v(nm, m[i][i]) {
                Err(e) => Err(e),
                Ok(c) => match elim_row_v(m[k], m[i], c, i, i, n) {
                    Err(e) => Err(e),
                    Ok(newrow) => match mul_v(c, r[i]) {
                        Err(e) => Err(e),
                        Ok(p) => match add_v(r[k], p) {
                            Err(e) => Err(e),
                            Ok(s) => elim_rows_v(m.update(k, newrow), r.update(k, s), i, k + 1, n),
                        },
                    },
                },
            },
        }
    }
}

/// Forward elimination with partial pivoting, for pivot columns `i` up to
/// `n`: select the largest-magnitude candidate row, swap it into place, stop
/// with `SingularSystem` if the pivot is zero, and eliminate below it.
pub open spec fn elim_v(m: Seq<Seq<i64>>, r: Seq<i64>, i: int, n: int) -> Result<
    (Seq<Seq<i64>>, Seq<i64>),
    SimError,
>
    decreases n - i,
{
    if i < 0 || i >= n {
        Ok((m, r))
    } else {
        let p = max_row_v(m, i, i + 1, i, n);
        let m1 = m.update(i, m[p]).update(p, m[i]);
        let r1 = r.update(i, r[p]).update(p, r[i]);
        if m1[i][i] == 0 {
            Err(SimError::SingularSystem)
        } else {
            match elim_rows_v(m1, r1, i, i + 1, n) {
                Err(e) => Err(e),
                Ok(pr) => elim_v(pr.0, pr.1, i + 1, n),
            }
        }
    }
}

/// Partial back-substitution sum for one row: the sum of
/// `mrow[j] * x[j]` for `j` from the given index up to `n`, on `acc`.
pub open spec fn bsum_v(mrow: Seq<i64>, x: Seq<i64>, j: int, n: int, acc: i64) -> Result<
    i64,
    SimError,
>
    decreases n - j,
{
    if j < 0 || j >= n {
        Ok(acc)
    } else {
        match mul_v(mrow[j], x[j]) {
            Err(e) => Err(e),
            Ok(p) => match add_v(acc, p) {
                Err(e) => Err(e),
                Ok(s) => bsum_v(mrow, x, j + 1, n, s),
            },
        }
    }
}

/// Back substitution from row `i` down to row zero:
/// `x[i] = (r[i] - sum of m[i][j] * x[j] for j above i) / m[i][i]`.
pub open spec fn back_sub_v(m: Seq<Seq<i64>>, r: Seq<i64>, x: Seq<i64>, i: int, n: int) -> Result<
    Seq<i64>,
    SimError,
>
    decreases i + 1,
{
    if i < 0 {
        Ok(x)
    } else {
        match bsum_v(m[i], x, i + 1, n, 0) {
            Err(e) => Err(e),
            Ok(s) => match sub_v(r[i], s) {
                Err(e) => Err(e),
                Ok(num) => match div_v(num, m[i][i]) {
                    Err(e) => Err(e),
                    Ok(v) => back_sub_v(m, r, x.update(i, v), i - 1, n),
                },
            },
        }
    }
}

/// The matrix has `n` rows of `n` entries each.
pub open spec fn square_v(m: Seq<Seq<i64>>, n: int) -> bool {
    m.len() == n && forall|i: int| 0 <= i < n ==> (#[trigger] m[i]).len() == n
}

/// A sequence of `n` zero scalars.
pub open spec fn zero_seq(n: int) -> Seq<i64> {
    Seq::new(n as nat, |i: int| 0i64)
}

/// Remaining work of the solver once elimination has reached column `i`.
pub open spec fn solve_from_v(m: Seq<Seq<i64>>, r: Seq<i64>, i: int, n: int) -> Result<
    Seq<i64>,
    SimError,
> {
    match elim_v(m, r, i, n) {
        Err(e) => Err(e),
        Ok(pr) => back_sub_v(pr.0, pr.1, zero_seq(n), n - 1, n),
    }
}

/// Remaining work of the solver once column `i`'s pivot is in place and the
/// rows below it are being eliminated.
pub open spec fn solve_after_rows_v(
    rr: Result<(Seq<Seq<i64>>, Seq<i64>), SimError>,
    i: int,
    n: int,
) -> Result<Seq<i64>, SimError> {
    match rr {
        Err(e) => Err(e),
        Ok(pr) => solve_from_v(pr.0, pr.1, i + 1, n),
    }
}

/// Solution of the linear system `a * x = b` by Gaussian elimination with
/// partial pivoting, or the failure that the attempt raises.
pub open spec fn solve_linear_v(a: Seq<Seq<i64>>, b: Seq<i64>) -> Result<Seq<i64>, SimError> {
    let n = b.len() as int;
    if !square_v(a, n) {
        Err(SimError::InvalidDimension)
    } else {
        solve_from_v(a, b, 0, n)
    }
}

/// A fresh vector with the same contents.
fn copy_vec(v: &Vec<i64>) -> (out: Vec<i64>)
    ensures
        out@ == v@,
{
    let mut out: Vec<i64> = Vec::new();
    let mut i: usize = 0;
    while i < v.len()
        invariant
            i <= v@.len(),
            out@ == v@.subrange(0, i as int),
        decreases v@.len() - i,
    {
        out.push(v[i]);
        assert(out@ =~= v@.subrange(0, i as int + 1));
        i = i + 1;
    }
    assert(out@ =~= v@);
    out
}

/// Updating one row commutes with taking the matrix view.
proof fn lemma_mview_update(s: Seq<Vec<i64>>, k: int, row: Vec<i64>)
    requires
        0 <= k < s.len(),
    ensures
        mview(s.update(k, row)) == mview(s).update(k, row@),
{
    assert(mview(s.update(k, row)) =~~= mview(s).update(k, row@));
}

/// Appending one row commutes with taking the matrix view.
proof fn lemma_mview_push(s: Seq<Vec<i64>>, row: Vec<i64>)
    ensures
        mview(s.push(row)) == mview(s).push(row@),
{
    assert(mview(s.push(row)) =~~= mview(s).push(row@));
}

/// Row of the largest-magnitude pivot candidate in column `col`.
fn find_pivot(mat: &Vec<Vec<i64>>, col: usize, n: usize) -> (p: usize)
    requires
        mat@.len() == n,
        forall|t: int| 0 <= t < n ==> (#[trigger] mat@[t])@.len() == n,
        col < n,
    ensures
        p < n,
        p as int == max_row_v(mview(mat@), col as int, col as int + 1, col as int, n as int),
{
    let ghost m = mview(mat@);
    let mut best: usize = col;
    let mut k: usize = col + 1;
    while k < n
        invariant
            mat@.len() == n,
            forall|t: int| 0 <= t < n ==> (#[trigger] mat@[t])@.len() == n,
            m == mview(mat@),
            col < n,
            best < n,
            col < k <= n || (k == col + 1),
            k <= n,
            max_row_v(m, col as int, col as int + 1, col as int, n as int) == max_row_v(
                m,
                col as int,
                k as int,
                best as int,
                n as int,
            ),
        decreases n - k,
    {
        let a = mat[k][col];
        let b = mat[best][col];
        let aa: i128 = if a < 0 {
            -(a as i128)
        } else {
            a as i128
        };
        let bb: i128 = if b < 0 {
            -(b as i128)
        } else {
            b as i128
        };
        if aa > bb {
            best = k;
        }
        k = k + 1;
    }
    best
}

/// One eliminated row: a copy of `rowk` with the pivot column zeroed and
/// `c * rowi` added to the entries right of it.
fn elim_row(rowk: &Vec<i64>, rowi: &Vec<i64>, c: i64, i: usize) -> (res: Result<Vec<i64>, SimError>)
    requires
        rowk@.len() == rowi@.len(),
        i < rowk@.len(),
    ensures
        vec_res_matches(
            res,
            elim_row_v(rowk@, rowi@, c, i as int, i as int, rowk@.len() as int),
        ),
        res matches Ok(v) ==> v@.len() == rowk@.len(),
{
    let n = rowk.len();
    let mut row = copy_vec(rowk);
    let mut j: usize = i;
    while j < n
        invariant
            n == rowk@.len(),
            n == rowi@.len(),
            row@.len() == n,
            i <= j <= n,
            i < n,
            elim_row_v(rowk@, rowi@, c, i as int, i as int, n as int) == elim_row_v(
                row@,
                rowi@,
                c,
                i as int,
                j as int,
                n as int,
            ),
        decreases n - j,
    {
        if j == i {
            row[j] = 0;
        } else {
            let p = match fx_mul(c, rowi[j]) {
                Err(e) => {
                    return Err(e);
                },
                Ok(v) => v,
            };
            let s = match fx_add(row[j], p) {
                Err(e) => {
                    return Err(e);
                },
                Ok(v) => v,
            };
            row[j] = s;
        }
        j = j + 1;
    }
    Ok(row)
}

/// Solution of the dense linear system `a * x = b` (an `n` by `n` matrix and
/// a length-`n` vector) by Gaussian elimination with partial pivoting, on
/// private copies of the inputs.  A ragged or non-square matrix is rejected
/// with `InvalidDimension`; a stage without a nonzero pivot aborts with
/// `SingularSystem`; a scalar leaving the representable range aborts with
/// `NumericFault`.  A system singular only up to fixed-point truncation can
/// present a small nonzero pivot; the range checks then surface the blow-up
/// as `NumericFault` — either way the failure is loud, never a silently
/// corrupted solution.
pub fn solve_linear_system(a: &Vec<Vec<i64>>, b: &Vec<i64>) -> (res: Result<Vec<i64>, SimError>)
    ensures
        vec_res_matches(res, solve_linear_v(mview(a@), b@)),
{
    let n = b.len();
    if a.len() != n {
        return Err(SimError::InvalidDimension);
    }
    let mut idx: usize = 0;
    while idx < n
        invariant
            n == b@.len(),
            a@.len() == n,
            idx <= n,
            forall|t: int| 0 <= t < idx as int ==> (#[trigger] a@[t])@.len() == n,
        decreases n - idx,
    {
        if a[idx].len() != n {
            assert(mview(a@)[idx as int].len() != n as int);
            assert(!square_v(mview(a@), n as int));
            return Err(SimError::InvalidDimension);
        }
        idx = idx + 1;
    }
    assert(square_v(mview(a@), n as int));
    // Private working copies.
    let mut mat: Vec<Vec<i64>> = Vec::new();
    let mut idx2: usize = 0;
    while idx2 < n
        invariant
            n == b@.len(),
            a@.len() == n,
            forall|t: int| 0 <= t < n ==> (#[trigger] a@[t])@.len() == n,
            idx2 <= n,
            mat@.len() == idx2,
            forall|t: int| 0 <= t < idx2 as int ==> (#[trigger] mat@[t])@ == a@[t]@,
        decreases n - idx2,
    {
        let row = copy_vec(&a[idx2]);
        mat.push(row);
        idx2 = idx2 + 1;
    }
    let mut rhs = copy_vec(b);
    proof {
        assert(mview(mat@) =~~= mview(a@));
    }
    let ghost target = solve_linear_v(mview(a@), b@);
    // Forward elimination with partial pivoting.
    let mut i: usize = 0;
    while i < n
        invariant
            n == b@.len(),
            mat@.len() == n,
            forall|t: int| 0 <= t < n ==> (#[trigger] mat@[t])@.len() == n,
            rhs@.len() == n,
            i <= n,
            target == solve_linear_v(mview(a@), b@),
            target == solve_from_v(mview(mat@), rhs@, i as int, n as int),
        decreases n - i,
    {
        let ghost m_pre = mview(mat@);
        let ghost r_pre = rhs@;
        let p = find_pivot(&mat, i, n);
        // Swap row i with the pivot row, in the matrix and the right-hand side.
        let row_i = copy_vec(&mat[i]);
        let row_p = copy_vec(&mat[p]);
        proof {
            lemma_mview_update(mat@, i as int, row_p);
            lemma_mview_update(mat@.update(i as int, row_p), p as int, row_i);
        }
        mat[i] = row_p;
        mat[p] = row_i;
        let ri = rhs[i];
        let rp = rhs[p];
        rhs[i] = rp;
        rhs[p] = ri;
        proof {
            assert(mview(mat@) == m_pre.update(i as int, m_pre[p as int]).update(
                p as int,
                m_pre[i as int],
            ));
            assert(rhs@ =~= r_pre.update(i as int, r_pre[p as int]).update(
                p as int,
                r_pre[i as int],
            ));
        }
        if mat[i][i] == 0 {
            proof {
                assert(elim_v(m_pre, r_pre, i as int, n as int) == Err::<
                    (Seq<Seq<i64>>, Seq<i64>),
                    SimError,
                >(SimError::SingularSystem));
            }
            return Err(SimError::SingularSystem);
        }
        let ghost m1 = mview(mat@);
        let ghost r1 = rhs@;
        proof {
            assert(elim_v(m_pre, r_pre, i as int, n as int) == match elim_rows_v(
                m1,
                r1,
                i as int,
                i as int + 1,
                n as int,
            ) {
                Err(e) => Err(e),
                Ok(pr) => elim_v(pr.0, pr.1, i as int + 1, n as int),
            });
            assert(target == solve_after_rows_v(
                elim_rows_v(m1, r1, i as int, i as int + 1, n as int),
                i as int,
                n as int,
            ));
        }
        // Eliminate the entries of column i below the pivot.
        let mut k: usize = i + 1;
        while k < n
            invariant
                n == b@.len(),
                mat@.len() == n,
                forall|t: int| 0 <= t < n ==> (#[trigger] mat@[t])@.len() == n,
                rhs@.len() == n,
                i < n,
                i < k <= n,
                target == solve_linear_v(mview(a@), b@),
                target == solve_after_rows_v(
                    elim_rows_v(mview(mat@), rhs@, i as int, k as int, n as int),
                    i as int,
                    n as int,
                ),
            decreases n - k,
        {
            let ghost m_at = mview(mat@);
            let ghost r_at = rhs@;
            let nm = match fx_neg(mat[k][i]) {
                Err(e) => {
                    proof {
                        assert(elim_rows_v(m_at, r_at, i as int, k as int, n as int) == Err::<
                            (Seq<Seq<i64>>, Seq<i64>),
                            SimError,
                        >(e));
                    }
                    return Err(e);
                },
                Ok(v) => v,
            };
            let c = match fx_div(nm, mat[i][i]) {
                Err(e) => {
                    proof {
                        assert(elim_rows_v(m_at, r_at, i as int, k as int, n as int) == Err::<
                            (Seq<Seq<i64>>, Seq<i64>),
                            SimError,
                        >(e));
                    }
                    return Err(e);
                },
                Ok(v) => v,
            };
            let row_i2 = copy_vec(&mat[i]);
            let newrow = match elim_row(&mat[k], &row_i2, c, i) {
                Err(e) => {
                    proof {
                        assert(elim_rows_v(m_at, r_at, i as int, k as int, n as int) == Err::<
                            (Seq<Seq<i64>>, Seq<i64>),
                            SimError,
                        >(e));
                    }
                    return Err(e);
                },
                Ok(v) => v,
            };
            let pterm = match fx_mul(c, rhs[i]) {
                Err(e) => {
                    proof {
                        assert(elim_rows_v(m_at, r_at, i as int, k as int, n as int) == Err::<
                            (Seq<Seq<i64>>, Seq<i64>),
                            SimError,
                        >(e));
                    }
                    return Err(e);
                },
                Ok(v) => v,
            };
            let s = match fx_add(rhs[k], pterm) {
                Err(e) => {
                    proof {
                        assert(elim_rows_v(m_at, r_at, i as int, k as int, n as int) == Err::<
                            (Seq<Seq<i64>>, Seq<i64>),
                            SimError,
                        >(e));
                    }
                    return Err(e);
                },
                Ok(v) => v,
            };
            proof {
                lemma_mview_update(mat@, k as int, newrow);
            }
            mat[k] = newrow;
            rhs[k] = s;
            proof {
                assert(rhs@ =~= r_at.update(k as int, s));
                assert(elim_rows_v(m_at, r_at, i as int, k as int, n as int) == elim_rows_v(
                    mview(mat@),
                    rhs@,
                    i as int,
                    k as int + 1,
                    n as int,
                ));
            }
            k = k + 1;
        }
        proof {
            assert(elim_rows_v(mview(mat@), rhs@, i as int, n as int, n as int) == Ok::<
                (Seq<Seq<i64>>, Seq<i64>),
                SimError,
            >((mview(mat@), rhs@)));
        }
        i = i + 1;
    }
    // Back-substitution.
    let mut x: Vec<i64> = Vec::new();
    let mut z: usize = 0;
    while z < n
        invariant
            z <= n,
            x@.len() == z,
            forall|t: int| 0 <= t < z as int ==> x@[t] == 0,
        decreases n - z,
    {
        x.push(0);
        z = z + 1;
    }
    proof {
        assert(x@ =~= zero_seq(n as int));
    }
    let ghost m2 = mview(mat@);
    let ghost r2 = rhs@;
    let mut ii: usize = n;
    while ii > 0
        invariant
            n == b@.len(),
            mat@.len() == n,
            forall|t: int| 0 <= t < n ==> (#[trigger] mat@[t])@.len() == n,
            rhs@.len() == n,
            x@.len() == n,
            ii <= n,
            m2 == mview(mat@),
            r2 == rhs@,
            target == solve_linear_v(mview(a@), b@),
            target == back_sub_v(m2, r2, x@, ii as int - 1, n as int),
        decreases ii,
    {
        let i2 = ii - 1;
        let mut acc: i64 = 0;
        let mut j: usize = i2 + 1;
        while j < n
            invariant
                n == b@.len(),
                mat@.len() == n,
                forall|t: int| 0 <= t < n ==> (#[trigger] mat@[t])@.len() == n,
                x@.len() == n,
                i2 < n,
                i2 < j <= n,
                m2 == mview(mat@),
                r2 == rhs@,
                target == solve_linear_v(mview(a@), b@),
                target == back_sub_v(m2, r2, x@, i2 as int, n as int),
                bsum_v(m2[i2 as int], x@, i2 as int + 1, n as int, 0) == bsum_v(
                    m2[i2 as int],
                    x@,
                    j as int,
                    n as int,
                    acc,
                ),
            decreases n - j,
        {
            let pterm = match fx_mul(mat[i2][j], x[j]) {
                Err(e) => {
                    proof {
                        assert(bsum_v(m2[i2 as int], x@, j as int, n as int, acc) == Err::<
                            i64,
                            SimError,
                        >(e));
                        assert(back_sub_v(m2, r2, x@, i2 as int, n as int) == Err::<
                            Seq<i64>,
                            SimError,
                        >(e));
                    }
                    return Err(e);
                },
                Ok(v) => v,
            };
            let prev = acc;
            acc = match fx_add(acc, pterm) {
                Err(e) => {
                    proof {
                        assert(bsum_v(m2[i2 as int], x@, j as int, n as int, prev) == Err::<
                            i64,
                            SimError,
                        >(e));
                        assert(back_sub_v(m2, r2, x@, i2 as int, n as int) == Err::<
                            Seq<i64>,
                            SimError,
                        >(e));
                    }
                    return Err(e);
                },
                Ok(v) => v,
            };
            proof {
                assert(bsum_v(m2[i2 as int], x@, j as int, n as int, prev) == bsum_v(
                    m2[i2 as int],
                    x@,
                    j as int + 1,
                    n as int,
                    acc,
                ));
            }
            j = j + 1;
        }
        proof {
            assert(bsum_v(m2[i2 as int], x@, n as int, n as int, acc) == Ok::<i64, SimError>(acc));
            assert(bsum_v(m2[i2 as int], x@, i2 as int + 1, n as int, 0) == Ok::<i64, SimError>(
                acc,
            ));
        }
        let num = match fx_sub(rhs[i2], acc) {
            Err(e) => {
                proof {
                    assert(back_sub_v(m2, r2, x@, i2 as int, n as int) == Err::<Seq<i64>, SimError>(
                        e,
                    ));
                }
                return Err(e);
            },
            Ok(v) => v,
        };
        let v = match fx_div(num, mat[i2][i2]) {
            Err(e) => {
                proof {
                    assert(back_sub_v(m2, r2, x@, i2 as int, n as int) == Err::<Seq<i64>, SimError>(
                        e,
                    ));
                }
                return Err(e);
            },
            Ok(v) => v,
        };
        let ghost x_old = x@;
        x[i2] = v;
        proof {
            assert(back_sub_v(m2, r2, x_old, i2 as int, n as int) == back_sub_v(
                m2,
                r2,
                x@,
                i2 as int - 1,
                n as int,
            ));
        }
        ii = ii - 1;
    }
    proof {
        assert(back_sub_v(m2, r2, x@, -1, n as int) == Ok::<Seq<i64>, SimError>(x@));
    }
    Ok(x)
}

/// Entry `i` of the right-hand side `-(C + G)`.
pub open spec fn rhs_entry_v(cv: Seq<i64>, gv: Seq<i64>, i: int) -> Result<i64, SimError> {
    match add_v(cv[i], gv[i]) {
        Err(e) => Err(e),
        Ok(s) => neg_v(s),
    }
}

/// All right-hand-side entries stay within the representable range.
pub open spec fn rhs_ok(cv: Seq<i64>, gv: Seq<i64>, n: int) -> bool {
    forall|i: int| 0 <= i < n ==> (#[trigger] rhs_entry_v(cv, gv, i)) is Ok
}

/// The right-hand side `-(C + G)`, or the failure that building it raises.
pub open spec fn rhs_vec_v(cv: Seq<i64>, gv: Seq<i64>, n: int) -> Result<Seq<i64>, SimError> {
    if !rhs_ok(cv, gv, n) {
        Err(SimError::NumericFault)
    } else {
        Ok(Seq::new(n as nat, |i: int| rhs_entry_v(cv, gv, i)->Ok_0))
    }
}

/// Angular accelerations at a configuration: the solution of
/// `M * alpha = -(C + G)`.
#[verifier::opaque]
pub open spec fn accel_v(
    ms: Seq<i64>,
    ls: Seq<i64>,
    g: i64,
    angs: Seq<i64>,
    vels: Seq<i64>,
    n: int,
) -> Result<Seq<i64>, SimError> {
    match mass_matrix_v(ms, ls, angs, n) {
        Err(e) => Err(e),
        Ok(mm) => match centri_vec_v(ms, ls, angs, vels, n) {
            Err(e) => Err(e),
            Ok(cv) => match grav_vec_v(ms, ls, angs, g, n) {
                Err(e) => Err(e),
                Ok(gv) => match rhs_vec_v(cv, gv, n) {
                    Err(e) => Err(e),
                    Ok(rv) => solve_linear_v(mm, rv),
                },
            },
        },
    }
}

/// State derivative `dy/dt = [velocities, accelerations]` for the state
/// `y = [angles, velocities]` of length `2 n`.
#[verifier::opaque]
pub open spec fn deriv_v(ms: Seq<i64>, ls: Seq<i64>, g: i64, n: int, y: Seq<i64>) -> Result<
    Seq<i64>,
    SimError,
> {
    if y.len() != 2 * n {
        Err(SimError::InvalidDimension)
    } else {
        let angs = y.subrange(0, n);
        let vels = y.subrange(n, 2 * n);
        match accel_v(ms, ls, g, angs, vels, n) {
            Err(e) => Err(e),
            Ok(alpha) => Ok(vels + alpha),
        }
    }
}

/// Entry `i` of `y + s * k`.
pub open spec fn axpy_entry_v(y: Seq<i64>, s: i64, k: Seq<i64>, i: int) -> Result<i64, SimError> {
    match mul_v(s, k[i]) {
        Err(e) => Err(e),
        Ok(p) => add_v(y[i], p),
    }
}

/// All entries of `y + s * k` stay within the representable range.
pub open spec fn axpy_ok(y: Seq<i64>, s: i64, k: Seq<i64>, m: int) -> bool {
    forall|i: int| 0 <= i < m ==> (#[trigger] axpy_entry_v(y, s, k, i)) is Ok
}

/// The vector `y + s * k` over the first `m` entries, or the failure that
/// building it raises.
pub open spec fn axpy_v(y: Seq<i64>, s: i64, k: Seq<i64>, m: int) -> Result<Seq<i64>, SimError> {
    if !axpy_ok(y, s, k, m) {
        Err(SimError::NumericFault)
    } else {
        Ok(Seq::new(m as nat, |i: int| axpy_entry_v(y, s, k, i)->Ok_0))
    }
}

/// Entry `i` of the weighted Runge-Kutta combination
/// `y + dt6 * (k1 + 2 k2 + 2 k3 + k4)`.
pub open spec fn comb_entry_v(
    y: Seq<i64>,
    k1: Seq<i64>,
    k2: Seq<i64>,
    k3: Seq<i64>,
    k4: Seq<i64>,
    dt6: i64,
    i: int,
) -> Result<i64, SimError> {
    match mul_v(TWO_FX, k2[i]) {
        Err(e) => Err(e),
        Ok(t2) => match mul_v(TWO_FX, k3[i]) {
            Err(e) => Err(e),
            Ok(t3) => match add_v(k1[i], t2) {
                Err(e) => Err(e),
                Ok(s1) => match add_v(s1, t3) {
                    Err(e) => Err(e),
                    Ok(s2) => match add_v(s2, k4[i]) {
                        Err(e) => Err(e),
                        Ok(s3) => match mul_v(dt6, s3) {
                            Err(e) => Err(e),
                            Ok(p) => add_v(y[i], p),
                        },
                    },
                },
            },
        },
    }
}

/// All combination entries stay within the representable range.
pub open spec fn comb_ok(
    y: Seq<i64>,
    k1: Seq<i64>,
    k2: Seq<i64>,
    k3: Seq<i64>,
    k4: Seq<i64>,
    dt6: i64,
    m: int,
) -> bool {
    forall|i: int| 0 <= i < m ==> (#[trigger] comb_entry_v(y, k1, k2, k3, k4, dt6, i)) is Ok
}

/// The weighted Runge-Kutta combination over the first `m` entries, or the
/// failure that building it raises.
pub open spec fn comb_v(
    y: Seq<i64>,
    k1: Seq<i64>,
    k2: Seq<i64>,
    k3: Seq<i64>,
    k4: Seq<i64>,
    dt6: i64,
    m: int,
) -> Result<Seq<i64>, SimError> {
    if !comb_ok(y, k1, k2, k3, k4, dt6, m) {
        Err(SimError::NumericFault)
    } else {
        Ok(Seq::new(m as nat, |i: int| comb_entry_v(y, k1, k2, k3, k4, dt6, i)->Ok_0))
    }
}

/// One fixed-step classic fourth-order Runge-Kutta step:
/// `k1 = f(y)`, `k2 = f(y + dt/2 k1)`, `k3 = f(y + dt/2 k2)`,
/// `k4 = f(y + dt k3)`, `y_next = y + dt/6 (k1 + 2 k2 + 2 k3 + k4)`.
#[verifier::opaque]
pub open spec fn rk4_step_v(ms: Seq<i64>, ls: Seq<i64>, g: i64, n: int, y: Seq<i64>, dt: i64) -> Result<
    Seq<i64>,
    SimError,
> {
    let m = 2 * n;
    match deriv_v(ms, ls, g, n, y) {
        Err(e) => Err(e),
        Ok(k1) => match mul_v(HALF_FX, dt) {
            Err(e) => Err(e),
            Ok(hd) => match axpy_v(y, hd, k1, m) {
                Err(e) => Err(e),
                Ok(y2) => match deriv_v(ms, ls, g, n, y2) {
                    Err(e) => Err(e),
                    Ok(k2) => match axpy_v(y, hd, k2, m) {
                        Err(e) => Err(e),
                        Ok(y3) => match deriv_v(ms, ls, g, n, y3) {
                            Err(e) => Err(e),
                            Ok(k3) => match axpy_v(y, dt, k3, m) {
                                Err(e) => Err(e),
                                Ok(y4) => match deriv_v(ms, ls, g, n, y4) {
                                    Err(e) => Err(e),
                                    Ok(k4) => match div_v(dt, SIX_FX) {
                                        Err(e) => Err(e),
                                        Ok(dt6) => comb_v(y, k1, k2, k3, k4, dt6, m),
                                    },
                                },
                            },
                        },
                    },
                },
            },
        },
    }
}

/// Time of sample `k` on the grid of `np1 + 1` samples over `[0, t_max]`:
/// the truncated quotient of `k * t_max` by `np1`.  Sample 0 falls exactly
/// on 0 and sample `np1` exactly on `t_max`, with spacing constant to
/// within one raw unit.
pub open spec fn sample_time_v(t_max: i64, np1: i64, k: int) -> int {
    tdiv(k * (t_max as int), np1 as int)
}

/// A sample time never exceeds `t_max` in magnitude.
pub proof fn lemma_sample_time_bound(t_max: i64, np1: i64, k: int)
    requires
        1 <= np1,
        0 <= k <= np1 as int,
    ensures
        iabs(sample_time_v(t_max, np1, k)) <= iabs(t_max as int),
{
    let t = t_max as int;
    let d = np1 as int;
    let p = k * t;
    let m = iabs(t);
    assert(-(d * m) <= p <= d * m) by (nonlinear_arith)
        requires
            p == k * t,
            0 <= k <= d,
            -m <= t <= m,
            0 <= m,
    ;
    vstd::arithmetic::div_mod::lemma_div_basics(d);
    if p == 0 {
    } else if p > 0 {
        vstd::arithmetic::div_mod::lemma_div_is_ordered(0, p, d);
        vstd::arithmetic::div_mod::lemma_div_is_ordered(p, d * m, d);
        vstd::arithmetic::div_mod::lemma_div_multiples_vanish(m, d);
    } else {
        vstd::arithmetic::div_mod::lemma_div_is_ordered(0, -p, d);
        vstd::arithmetic::div_mod::lemma_div_is_ordered(-p, d * m, d);
        vstd::arithmetic::div_mod::lemma_div_multiples_vanish(m, d);
    }
}

/// The time grid starts exactly at zero and ends exactly at `t_max`.
pub proof fn lemma_sample_time_endpoints(t_max: i64, np1: i64)
    requires
        1 <= np1,
    ensures
        sample_time_v(t_max, np1, 0) == 0,
        sample_time_v(t_max, np1, np1 as int) == t_max as int,
{
    let t = t_max as int;
    let d = np1 as int;
    assert((0int) * t == 0);
    let p = d * t;
    assert(np1 as int * t == p) by (nonlinear_arith)
        requires
            p == d * t,
            d == np1 as int,
    ;
    if t == 0 {
        assert(p == 0) by (nonlinear_arith)
            requires
                t == 0,
                p == d * t,
        ;
    } else if t > 0 {
        assert(p > 0) by (nonlinear_arith)
            requires
                d >= 1,
                t > 0,
                p == d * t,
        ;
        vstd::arithmetic::div_mod::lemma_div_multiples_vanish(t, d);
    } else {
        assert(p < 0) by (nonlinear_arith)
            requires
                d >= 1,
                t < 0,
                p == d * t,
        ;
        assert(-(d * t) == d * (-t)) by (nonlinear_arith);
        vstd::arithmetic::div_mod::lemma_div_multiples_vanish(-t, d);
    }
}

/// Time of sample `k`, as an executable value.
fn sample_time(t_max: i64, np1: i64, k: i64) -> (t: i64)
    requires
        1 <= np1,
        0 <= k <= np1,
        in_bound(t_max as int),
    ensures
        t as int == sample_time_v(t_max, np1, k as int),
        in_bound(t as int),
{
    proof {
        lemma_sample_time_bound(t_max, np1, k as int);
        crate::fixed::lemma_mul_bound(k as int, t_max as int, i64::MAX as int);
    }
    let p: i128 = (k as i128) * (t_max as i128);
    proof {
        assert(p != i128::MIN);
        crate::fixed::lemma_checked_div_is_tdiv(p, np1 as i128);
    }
    let q: i128 = p.checked_div(np1 as i128).unwrap();
    q as i64
}

/// Runge-Kutta steps from sample `k` on: from state `y`, append sample `k`'s
/// time and the stepped state to the trajectory accumulated so far, up to
/// and including sample `np1`.
pub open spec fn sim_steps_v(
    ms: Seq<i64>,
    ls: Seq<i64>,
    g: i64,
    n: int,
    y: Seq<i64>,
    dt: i64,
    t_max: i64,
    np1: i64,
    k: int,
    ts: Seq<i64>,
    sol: Seq<Seq<i64>>,
) -> Result<(Seq<i64>, Seq<Seq<i64>>), SimError>
    decreases np1 as int + 1 - k,
{
    if k < 1 || k > np1 as int {
        Ok((ts, sol))
    } else {
        match rk4_step_v(ms, ls, g, n, y, dt) {
            Err(e) => Err(e),
            Ok(y2) => sim_steps_v(
                ms,
                ls,
                g,
                n,
                y2,
                dt,
                t_max,
                np1,
                k + 1,
                ts.push(sample_time_v(t_max, np1, k) as i64),
                sol.push(y2),
            ),
        }
    }
}

/// The whole simulation: `n_points` evenly spaced samples over
/// `[0, t_max]`, the first at time zero with the given initial state, each
/// later one a Runge-Kutta step of `dt = t_max / (n_points - 1)` after the
/// one before it.  Sample `k` carries the time `k * t_max / (n_points - 1)`
/// (truncated), so the grid ends exactly at `t_max`.
pub open spec fn simulate_v(
    ms: Seq<i64>,
    ls: Seq<i64>,
    g: i64,
    n: int,
    init_angles: Seq<i64>,
    init_vels: Seq<i64>,
    t_max: i64,
    n_points: int,
) -> Result<(Seq<i64>, Seq<Seq<i64>>), SimError> {
    if init_angles.len() != n || init_vels.len() != n || n_points < 2 {
        Err(SimError::InvalidDimension)
    } else if n_points - 1 > i64::MAX as int {
        Err(SimError::NumericFault)
    } else {
        match from_int_v((n_points - 1) as i64) {
            Err(e) => Err(e),
            Ok(npf) => match div_v(t_max, npf) {
                Err(e) => Err(e),
                Ok(dt) => {
                    let y0 = init_angles + init_vels;
                    sim_steps_v(
                        ms,
                        ls,
                        g,
                        n,
                        y0,
                        dt,
                        t_max,
                        (n_points - 1) as i64,
                        1,
                        seq![0i64],
                        seq![y0],
                    )
                },
            },
        }
    }
}

/// A pair result agrees with its specification-level counterpart.
pub open spec fn pair_res_matches(
    r: Result<(Vec<i64>, Vec<Vec<i64>>), SimError>,
    s: Result<(Seq<i64>, Seq<Seq<i64>>), SimError>,
) -> bool {
    match r {
        Ok(pr) => s is Ok && pr.0@ == s->Ok_0.0 && mview(pr.1@) == s->Ok_0.1,
        Err(e) => s is Err && e == s->Err_0,
    }
}


/// Once the step size is fixed, the simulation is the step recursion from
/// the concatenated initial state.
proof fn lemma_simulate_unfold(
    ms: Seq<i64>,
    ls: Seq<i64>,
    g: i64,
    n: int,
    angs: Seq<i64>,
    vels: Seq<i64>,
    t_max: i64,
    n_points: int,
    npf: i64,
    dt: i64,
)
    requires
        angs.len() == n,
        vels.len() == n,
        n_points >= 2,
        n_points - 1 <= i64::MAX as int,
        from_int_v((n_points - 1) as i64) == Ok::<i64, SimError>(npf),
        div_v(t_max, npf) == Ok::<i64, SimError>(dt),
    ensures
        simulate_v(ms, ls, g, n, angs, vels, t_max, n_points) == sim_steps_v(
            ms,
            ls,
            g,
            n,
            angs + vels,
            dt,
            t_max,
            (n_points - 1) as i64,
            1,
            seq![0i64],
            seq![angs + vels],
        ),
{
}

/// Back substitution keeps the length of the solution vector.
proof fn lemma_back_sub_len(m: Seq<Seq<i64>>, r: Seq<i64>, x: Seq<i64>, i: int, n: int)
    requires
        x.len() == n,
        i < n,
    ensures
        back_sub_v(m, r, x, i, n) is Ok ==> back_sub_v(m, r, x, i, n)->Ok_0.len() == x.len(),
    decreases i + 1,
{
    if i >= 0 {
        match bsum_v(m[i], x, i + 1, n, 0) {
            Err(e) => {
                assert(back_sub_v(m, r, x, i, n) == Err::<Seq<i64>, SimError>(e));
            },
            Ok(su) => match sub_v(r[i], su) {
                Err(e) => {
                    assert(back_sub_v(m, r, x, i, n) == Err::<Seq<i64>, SimError>(e));
                },
                Ok(num) => match div_v(num, m[i][i]) {
                    Err(e) => {
                        assert(back_sub_v(m, r, x, i, n) == Err::<Seq<i64>, SimError>(e));
                    },
                    Ok(v) => {
                        assert(back_sub_v(m, r, x, i, n) == back_sub_v(
                            m,
                            r,
                            x.update(i, v),
                            i - 1,
                            n,
                        ));
                        lemma_back_sub_len(m, r, x.update(i, v), i - 1, n);
                    },
                },
            },
        }
    }
}

/// A successful solve returns one entry per right-hand-side entry.
proof fn lemma_solve_linear_len(a: Seq<Seq<i64>>, b: Seq<i64>)
    ensures
        solve_linear_v(a, b) is Ok ==> solve_linear_v(a, b)->Ok_0.len() == b.len(),
{
    let n = b.len() as int;
    if square_v(a, n) {
        let er = elim_v(a, b, 0, n);
        if er is Ok {
            lemma_back_sub_len(er->Ok_0.0, er->Ok_0.1, zero_seq(n), n - 1, n);
        }
    }
}

/// Successful accelerations have one entry per pendulum.
proof fn lemma_accel_len(ms: Seq<i64>, ls: Seq<i64>, g: i64, angs: Seq<i64>, vels: Seq<i64>, n: int)
    ensures
        accel_v(ms, ls, g, angs, vels, n) is Ok ==> accel_v(ms, ls, g, angs, vels, n)->Ok_0.len()
            == n,
{
    reveal(accel_v);
    let mmr = mass_matrix_v(ms, ls, angs, n);
    if mmr is Ok {
        let cvr = centri_vec_v(ms, ls, angs, vels, n);
        if cvr is Ok {
            let gvr = grav_vec_v(ms, ls, angs, g, n);
            if gvr is Ok {
                let rvr = rhs_vec_v(cvr->Ok_0, gvr->Ok_0, n);
                if rvr is Ok {
                    lemma_solve_linear_len(mmr->Ok_0, rvr->Ok_0);
                }
            }
        }
    }
}

/// A successful derivative has the full state length, and so had the state.
proof fn lemma_deriv_len(ms: Seq<i64>, ls: Seq<i64>, g: i64, n: int, y: Seq<i64>)
    ensures
        deriv_v(ms, ls, g, n, y) is Ok ==> deriv_v(ms, ls, g, n, y)->Ok_0.len() == 2 * n && y.len()
            == 2 * n,
{
    reveal(deriv_v);
    if y.len() == 2 * n {
        lemma_accel_len(ms, ls, g, y.subrange(0, n), y.subrange(n, 2 * n), n);
    }
}

/// The vector `y + s * k`.
fn axpy(y: &Vec<i64>, s: i64, k: &Vec<i64>) -> (res: Result<Vec<i64>, SimError>)
    requires
        y@.len() == k@.len(),
    ensures
        vec_res_matches(res, axpy_v(y@, s, k@, y@.len() as int)),
{
    let m = y.len();
    let mut out: Vec<i64> = Vec::new();
    let mut i: usize = 0;
    while i < m
        invariant
            m == y@.len(),
            m == k@.len(),
            i <= m,
            out@.len() == i,
            forall|p: int| 0 <= p < i as int ==> (#[trigger] axpy_entry_v(y@, s, k@, p)) is Ok,
            forall|p: int|
                0 <= p < i as int ==> #[trigger] out@[p] == axpy_entry_v(y@, s, k@, p)->Ok_0,
        decreases m - i,
    {
        let p = match fx_mul(s, k[i]) {
            Err(_) => {
                assert(axpy_entry_v(y@, s, k@, i as int) is Err);
                assert(!axpy_ok(y@, s, k@, m as int));
                return Err(SimError::NumericFault);
            },
            Ok(v) => v,
        };
        let a = match fx_add(y[i], p) {
            Err(_) => {
                assert(axpy_entry_v(y@, s, k@, i as int) is Err);
                assert(!axpy_ok(y@, s, k@, m as int));
                return Err(SimError::NumericFault);
            },
            Ok(v) => v,
        };
        out.push(a);
        i = i + 1;
    }
    proof {
        assert(axpy_ok(y@, s, k@, m as int));
        assert(out@ =~= axpy_v(y@, s, k@, m as int)->Ok_0);
    }
    Ok(out)
}

/// Solver for a fixed chain: the pendulum count and the (immutable) masses
/// and rod lengths.  Angles and velocities arrive with each call.
pub struct NPendulumSolver {
    /// Number of pendulums.
    pub n: usize,
    /// Mass of each pendulum.
    pub masses: Vec<i64>,
    /// Rod length of each pendulum.
    pub lengths: Vec<i64>,
    /// Gravitational constant.
    pub g: i64,
}

impl NPendulumSolver {
    /// Builds a solver over the given parameters, with the gravitational
    /// constant at its default of 9.81.
    pub fn new(n: usize, masses: Vec<i64>, lengths: Vec<i64>) -> (s: Self)
        ensures
            s.n == n,
            s.masses == masses,
            s.lengths == lengths,
            s.g == G_FX,
    {
        Self { n, masses, lengths, g: G_FX }
    }

    /// Builds a solver with an explicit gravitational constant (zero
    /// isolates the inertial-only dynamics).
    pub fn with_gravity(n: usize, masses: Vec<i64>, lengths: Vec<i64>, g: i64) -> (s: Self)
        ensures
            s.n == n,
            s.masses == masses,
            s.lengths == lengths,
            s.g == g,
    {
        Self { n, masses, lengths, g }
    }

    /// Angular accelerations `alpha = M^{-1} (-C - G)` at the given angles
    /// and angular velocities.
    pub fn accelerations(&self, angles: &Vec<i64>, ang_vels: &Vec<i64>) -> (res: Result<
        Vec<i64>,
        SimError,
    >)
        ensures
            vec_res_matches(
                res,
                accel_v(self.masses@, self.lengths@, self.g, angles@, ang_vels@, self.n as int),
            ),
    {
        proof {
            reveal(accel_v);
        }
        let math = NPendulumMath::with_gravity(
            self.n,
            copy_vec(&self.masses),
            copy_vec(&self.lengths),
            copy_vec(angles),
            copy_vec(ang_vels),
            self.g,
        );
        let m_mat = match math.set_mass_matrix() {
            Err(e) => {
                return Err(e);
            },
            Ok(v) => v,
        };
        let c_vec = match math.set_centripetal_matrix() {
            Err(e) => {
                return Err(e);
            },
            Ok(v) => v,
        };
        let g_vec = match math.set_grav_matrix() {
            Err(e) => {
                return Err(e);
            },
            Ok(v) => v,
        };
        let ghost cv = c_vec@;
        let ghost gv = g_vec@;
        let ghost mm = mview(m_mat@);
        let ghost av = accel_v(
            self.masses@,
            self.lengths@,
            self.g,
            angles@,
            ang_vels@,
            self.n as int,
        );
        let n = self.n;
        proof {
            assert(av == match rhs_vec_v(cv, gv, n as int) {
                Err(e) => Err(e),
                Ok(rv) => solve_linear_v(mm, rv),
            });
        }
        let mut rhs: Vec<i64> = Vec::new();
        let mut i: usize = 0;
        while i < n
            invariant
                cv == c_vec@,
                gv == g_vec@,
                mm == mview(m_mat@),
                n == self.n,
                av == accel_v(
                    self.masses@,
                    self.lengths@,
                    self.g,
                    angles@,
                    ang_vels@,
                    self.n as int,
                ),
                av == (match rhs_vec_v(cv, gv, n as int) {
                    Err(e) => Err(e),
                    Ok(rv) => solve_linear_v(mm, rv),
                }),
                c_vec@.len() == n,
                g_vec@.len() == n,
                i <= n,
                rhs@.len() == i,
                forall|p: int| 0 <= p < i as int ==> (#[trigger] rhs_entry_v(cv, gv, p)) is Ok,
                forall|p: int|
                    0 <= p < i as int ==> #[trigger] rhs@[p] == rhs_entry_v(cv, gv, p)->Ok_0,
            decreases n - i,
        {
            let s = match fx_add(c_vec[i], g_vec[i]) {
                Err(_) => {
                    assert(rhs_entry_v(cv, gv, i as int) is Err);
                    assert(!rhs_ok(cv, gv, n as int));
                    return Err(SimError::NumericFault);
                },
                Ok(v) => v,
            };
            let ns = match fx_neg(s) {
                Err(_) => {
                    assert(rhs_entry_v(cv, gv, i as int) is Err);
                    assert(!rhs_ok(cv, gv, n as int));
                    return Err(SimError::NumericFault);
                },
                Ok(v) => v,
            };
            rhs.push(ns);
            i = i + 1;
        }
        proof {
            assert(rhs_ok(cv, gv, n as int));
            assert(rhs@ =~= rhs_vec_v(cv, gv, n as int)->Ok_0);
        }
        solve_linear_system(&m_mat, &rhs)
    }

    /// State derivative for `y = [angles, velocities]` (length `2 n`): the
    /// derivative of each angle is its velocity, the derivative of each
    /// velocity is its solved acceleration.  The time argument is accepted
    /// for interface uniformity; the dynamics are autonomous and ignore it.
    #[verifier::rlimit(50)]
    pub fn deriv(&self, y: &Vec<i64>, _t: i64) -> (res: Result<Vec<i64>, SimError>)
        ensures
            vec_res_matches(res, deriv_v(self.masses@, self.lengths@, self.g, self.n as int, y@)),
    {
        proof {
            reveal(deriv_v);
        }
        let n = self.n;
        let yl = y.len();
        let two_n = match n.checked_mul(2) {
            Some(v) => v,
            None => {
                assert(y@.len() <= usize::MAX as int);
                assert(y@.len() != 2 * (n as int));
                return Err(SimError::InvalidDimension);
            },
        };
        if yl != two_n {
            return Err(SimError::InvalidDimension);
        }
        let mut angles: Vec<i64> = Vec::new();
        let mut i: usize = 0;
        while i < n
            invariant
                n <= y@.len(),
                i <= n,
                angles@ == y@.subrange(0, i as int),
            decreases n - i,
        {
            angles.push(y[i]);
            assert(angles@ =~= y@.subrange(0, i as int + 1));
            i = i + 1;
        }
        let mut vels: Vec<i64> = Vec::new();
        let mut j: usize = 0;
        while j < n
            invariant
                n + n == y@.len(),
                y@.len() <= usize::MAX,
                j <= n,
                vels@ == y@.subrange(n as int, n as int + j as int),
            decreases n - j,
        {
            vels.push(y[n + j]);
            assert(vels@ =~= y@.subrange(n as int, n as int + j as int + 1));
            j = j + 1;
        }
        proof {
            assert(angles@ == y@.subrange(0, n as int));
            assert(vels@ == y@.subrange(n as int, 2 * n as int));
        }
        let alpha = match self.accelerations(&angles, &vels) {
            Err(e) => {
                return Err(e);
            },
            Ok(v) => v,
        };
        let ghost vels_v = vels@;
        let ghost alpha_v = alpha@;
        let mut dydt = vels;
        let mut p: usize = 0;
        while p < alpha.len()
            invariant
                alpha_v == alpha@,
                p <= alpha@.len(),
                dydt@ == vels_v + alpha_v.subrange(0, p as int),
            decreases alpha@.len() - p,
        {
            dydt.push(alpha[p]);
            assert(dydt@ =~= vels_v + alpha_v.subrange(0, p as int + 1));
            p = p + 1;
        }
        proof {
            assert(dydt@ =~= vels_v + alpha_v);
        }
        Ok(dydt)
    }

    /// One Runge-Kutta step of size `dt` from state `y`.  The time argument
    /// is carried for interface uniformity; the dynamics ignore it.
    #[verifier::rlimit(100)]
    fn rk4_step(&self, y: &Vec<i64>, t: i64, dt: i64) -> (res: Result<Vec<i64>, SimError>)
        ensures
            vec_res_matches(
                res,
                rk4_step_v(self.masses@, self.lengths@, self.g, self.n as int, y@, dt),
            ),
    {
        proof {
            reveal(rk4_step_v);
        }
        let ghost ms = self.masses@;
        let ghost ls = self.lengths@;
        let ghost gg = self.g;
        let ghost n = self.n as int;
        let k1 = match self.deriv(y, t) {
            Err(e) => {
                return Err(e);
            },
            Ok(v) => v,
        };
        proof {
            lemma_deriv_len(ms, ls, gg, n, y@);
        }
        let hd = match fx_mul(HALF_FX, dt) {
            Err(e) => {
                return Err(e);
            },
            Ok(v) => v,
        };
        let y2 = match axpy(y, hd, &k1) {
            Err(e) => {
                return Err(e);
            },
            Ok(v) => v,
        };
        let k2 = match self.deriv(&y2, t) {
            Err(e) => {
                return Err(e);
            },
            Ok(v) => v,
        };
        proof {
            lemma_deriv_len(ms, ls, gg, n, y2@);
        }
        let y3 = match axpy(y, hd, &k2) {
            Err(e) => {
                return Err(e);
            },
            Ok(v) => v,
        };
        let k3 = match self.deriv(&y3, t) {
            Err(e) => {
                return Err(e);
            },
            Ok(v) => v,
        };
        proof {
            lemma_deriv_len(ms, ls, gg, n, y3@);
        }
        let y4 = match axpy(y, dt, &k3) {
            Err(e) => {
                return Err(e);
            },
            Ok(v) => v,
        };
        let k4 = match self.deriv(&y4, t) {
            Err(e) => {
                return Err(e);
            },
            Ok(v) => v,
        };
        proof {
            lemma_deriv_len(ms, ls, gg, n, y4@);
        }
        let dt6 = match fx_div(dt, SIX_FX) {
            Err(e) => {
                return Err(e);
            },
            Ok(v) => v,
        };
        let m = y.len();
        let ghost yv = y@;
        let ghost k1v = k1@;
        let ghost k2v = k2@;
        let ghost k3v = k3@;
        let ghost k4v = k4@;
        let ghost target = rk4_step_v(ms, ls, gg, n, y@, dt);
        proof {
            assert(m as int == 2 * n);
            assert(target == comb_v(yv, k1v, k2v, k3v, k4v, dt6, m as int));
        }
        let mut y_new: Vec<i64> = Vec::new();
        let mut i: usize = 0;
        while i < m
            invariant
                yv == y@,
                k1v == k1@,
                k2v == k2@,
                k3v == k3@,
                k4v == k4@,
                target == rk4_step_v(self.masses@, self.lengths@, self.g, self.n as int, y@, dt),
                target == comb_v(yv, k1v, k2v, k3v, k4v, dt6, m as int),
                m == y@.len(),
                m == k1@.len(),
                m == k2@.len(),
                m == k3@.len(),
                m == k4@.len(),
                i <= m,
                y_new@.len() == i,
                forall|p: int|
                    0 <= p < i as int ==> (#[trigger] comb_entry_v(yv, k1v, k2v, k3v, k4v, dt6, p))
                        is Ok,
                forall|p: int|
                    0 <= p < i as int ==> #[trigger] y_new@[p] == comb_entry_v(
                        yv,
                        k1v,
                        k2v,
                        k3v,
                        k4v,
                        dt6,
                        p,
                    )->Ok_0,
            decreases m - i,
        {
            let t2 = match fx_mul(TWO_FX, k2[i]) {
                Err(_) => {
                    assert(comb_entry_v(yv, k1v, k2v, k3v, k4v, dt6, i as int) is Err);
                    assert(!comb_ok(yv, k1v, k2v, k3v, k4v, dt6, m as int));
                    return Err(SimError::NumericFault);
                },
                Ok(v) => v,
            };
            let t3 = match fx_mul(TWO_FX, k3[i]) {
                Err(_) => {
                    assert(comb_entry_v(yv, k1v, k2v, k3v, k4v, dt6, i as int) is Err);
                    assert(!comb_ok(yv, k1v, k2v, k3v, k4v, dt6, m as int));
                    return Err(SimError::NumericFault);
                },
                Ok(v) => v,
            };
            let s1 = match fx_add(k1[i], t2) {
                Err(_) => {
                    assert(comb_entry_v(yv, k1v, k2v, k3v, k4v, dt6, i as int) is Err);
                    assert(!comb_ok(yv, k1v, k2v, k3v, k4v, dt6, m as int));
                    return Err(SimError::NumericFault);
                },
                Ok(v) => v,
            };
            let s2 = match fx_add(s1, t3) {
                Err(_) => {
                    assert(comb_entry_v(yv, k1v, k2v, k3v, k4v, dt6, i as int) is Err);
                    assert(!comb_ok(yv, k1v, k2v, k3v, k4v, dt6, m as int));
                    return Err(SimError::NumericFault);
                },
                Ok(v) => v,
            };
            let s3 = match fx_add(s2, k4[i]) {
                Err(_) => {
                    assert(comb_entry_v(yv, k1v, k2v, k3v, k4v, dt6, i as int) is Err);
                    assert(!comb_ok(yv, k1v, k2v, k3v, k4v, dt6, m as int));
                    return Err(SimError::NumericFault);
                },
                Ok(v) => v,
            };
            let pterm = match fx_mul(dt6, s3) {
                Err(_) => {
                    assert(comb_entry_v(yv, k1v, k2v, k3v, k4v, dt6, i as int) is Err);
                    assert(!comb_ok(yv, k1v, k2v, k3v, k4v, dt6, m as int));
                    return Err(SimError::NumericFault);
                },
                Ok(v) => v,
            };
            let e = match fx_add(y[i], pterm) {
                Err(_) => {
                    assert(comb_entry_v(yv, k1v, k2v, k3v, k4v, dt6, i as int) is Err);
                    assert(!comb_ok(yv, k1v, k2v, k3v, k4v, dt6, m as int));
                    return Err(SimError::NumericFault);
                },
                Ok(v) => v,
            };
            y_new.push(e);
            i = i + 1;
        }
        proof {
            assert(comb_ok(yv, k1v, k2v, k3v, k4v, dt6, m as int));
            assert(y_new@ =~= comb_v(yv, k1v, k2v, k3v, k4v, dt6, m as int)->Ok_0);
        }
        Ok(y_new)
    }

    /// The whole trajectory: `n_points` evenly spaced samples over
    /// `[0, t_max]`, the first at time zero with the given initial state,
    /// each later one a Runge-Kutta step of `dt = t_max / (n_points - 1)`
    /// after the one before it.  Identical inputs always yield identical
    /// outputs; a failure at any step aborts the run with no partial
    /// trajectory.
    /// Runs Runge-Kutta steps of size `dt` from state `y0_vec`, producing
    /// samples 1 through `np1` of the time grid over `[0, t_max]`.
    #[verifier::rlimit(100)]
    fn sim_run(&self, y0_vec: Vec<i64>, dt: i64, t_max: i64, np1: usize) -> (res: Result<
        (Vec<i64>, Vec<Vec<i64>>),
        SimError,
    >)
        requires
            1 <= np1,
            np1 as int <= i64::MAX as int,
            in_bound(t_max as int),
        ensures
            pair_res_matches(
                res,
                sim_steps_v(
                    self.masses@,
                    self.lengths@,
                    self.g,
                    self.n as int,
                    y0_vec@,
                    dt,
                    t_max,
                    np1 as i64,
                    1,
                    seq![0i64],
                    seq![y0_vec@],
                ),
            ),
    {
        let ghost ms = self.masses@;
        let ghost ls = self.lengths@;
        let ghost gg = self.g;
        let n = self.n;
        let ghost y0 = y0_vec@;
        let ghost target = sim_steps_v(
            ms,
            ls,
            gg,
            n as int,
            y0,
            dt,
            t_max,
            np1 as i64,
            1,
            seq![0i64],
            seq![y0],
        );
        let mut y = y0_vec;
        let mut t_vec: Vec<i64> = Vec::new();
        t_vec.push(0);
        let mut sol: Vec<Vec<i64>> = Vec::new();
        let first = copy_vec(&y);
        sol.push(first);
        let mut step: usize = 0;
        proof {
            assert(t_vec@ =~= seq![0i64]);
            assert(mview(sol@) =~~= seq![y0]);
        }
        while step < np1
            invariant
                ms == self.masses@,
                ls == self.lengths@,
                gg == self.g,
                n == self.n,
                1 <= np1,
                np1 as int <= i64::MAX as int,
                in_bound(t_max as int),
                step <= np1,
                target == sim_steps_v(
                    ms,
                    ls,
                    gg,
                    n as int,
                    y0,
                    dt,
                    t_max,
                    np1 as i64,
                    1,
                    seq![0i64],
                    seq![y0],
                ),
                y0 == y0_vec@,
                target == sim_steps_v(
                    ms,
                    ls,
                    gg,
                    n as int,
                    y@,
                    dt,
                    t_max,
                    np1 as i64,
                    step as int + 1,
                    t_vec@,
                    mview(sol@),
                ),
            decreases np1 - step,
        {
            let ghost y_at = y@;
            let ghost ts_at = t_vec@;
            let ghost sol_at = mview(sol@);
            let ghost kg = step as int + 1;
            let y_next = match self.rk4_step(&y, t_max, dt) {
                Err(e) => {
                    proof {
                        assert(sim_steps_v(ms, ls, gg, n as int, y_at, dt, t_max, np1 as i64,
                            kg, ts_at, sol_at) == Err::<(Seq<i64>, Seq<Seq<i64>>), SimError>(e));
                    }
                    return Err(e);
                },
                Ok(v) => v,
            };
            let tk = sample_time(t_max, np1 as i64, (step as i64) + 1);
            y = y_next;
            t_vec.push(tk);
            let yc = copy_vec(&y);
            proof {
                lemma_mview_push(sol@, yc);
            }
            sol.push(yc);
            step = step + 1;
            proof {
                lemma_sample_time_bound(t_max, np1 as i64, kg);
                assert(tk == sample_time_v(t_max, np1 as i64, kg) as i64);
                assert(sim_steps_v(ms, ls, gg, n as int, y_at, dt, t_max, np1 as i64, kg,
                    ts_at, sol_at) == sim_steps_v(ms, ls, gg, n as int, y@, dt, t_max,
                    np1 as i64, kg + 1, t_vec@, mview(sol@)));
            }
        }
        proof {
            assert(sim_steps_v(ms, ls, gg, n as int, y@, dt, t_max, np1 as i64,
                np1 as int + 1, t_vec@, mview(sol@)) == Ok::<(Seq<i64>, Seq<Seq<i64>>), SimError>(
                (t_vec@, mview(sol@)),
            ));
        }
        Ok((t_vec, sol))
    }

    /// The whole trajectory: `n_points` evenly spaced samples over
    /// `[0, t_max]`, the first at time zero with the given initial state,
    /// each later one a Runge-Kutta step of `dt = t_max / (n_points - 1)`
    /// after the one before it.  Sample `k` carries the time
    /// `k * t_max / (n_points - 1)` (truncated toward zero), so the grid
    /// ends exactly at `t_max`.  Identical inputs always yield identical
    /// outputs; a failure at any step aborts the run with no partial
    /// trajectory.
    pub fn solve(
        &self,
        initial_angles: Vec<i64>,
        initial_ang_vels: Vec<i64>,
        t_max: i64,
        n_points: usize,
    ) -> (res: Result<(Vec<i64>, Vec<Vec<i64>>), SimError>)
        ensures
            pair_res_matches(
                res,
                simulate_v(
                    self.masses@,
                    self.lengths@,
                    self.g,
                    self.n as int,
                    initial_angles@,
                    initial_ang_vels@,
                    t_max,
                    n_points as int,
                ),
            ),
    {
        let ghost ms = self.masses@;
        let ghost ls = self.lengths@;
        let ghost gg = self.g;
        let n = self.n;
        if initial_angles.len() != n || initial_ang_vels.len() != n || n_points < 2 {
            return Err(SimError::InvalidDimension);
        }
        let np1 = n_points - 1;
        if np1 as u64 > (i64::MAX as u64) {
            return Err(SimError::NumericFault);
        }
        let npf = match fx_from_int(np1 as i64) {
            Err(e) => {
                return Err(e);
            },
            Ok(v) => v,
        };
        let dt = match fx_div(t_max, npf) {
            Err(e) => {
                return Err(e);
            },
            Ok(v) => v,
        };
        let ghost angs_v = initial_angles@;
        let ghost vels_v = initial_ang_vels@;
        let mut y = initial_angles;
        let mut vi: usize = 0;
        while vi < n
            invariant
                vels_v == initial_ang_vels@,
                vels_v.len() == n,
                vi <= n,
                y@ == angs_v + vels_v.subrange(0, vi as int),
            decreases n - vi,
        {
            y.push(initial_ang_vels[vi]);
            assert(y@ =~= angs_v + vels_v.subrange(0, vi as int + 1));
            vi = vi + 1;
        }
        proof {
            assert(y@ =~= angs_v + vels_v);
            assert(in_bound(t_max as int));
            lemma_simulate_unfold(
                ms,
                ls,
                gg,
                n as int,
                angs_v,
                vels_v,
                t_max,
                n_points as int,
                npf,
                dt,
            );
        }
        self.sim_run(y, dt, t_max, np1)
    }
}

/// Helper for the time-grid law: a successful step recursion appends, after
/// the samples already accumulated, one sample per index from `k` to `np1`,
/// each carrying that index's grid time.
proof fn lemma_sim_steps_grid(
    ms: Seq<i64>,
    ls: Seq<i64>,
    g: i64,
    n: int,
    y: Seq<i64>,
    dt: i64,
    t_max: i64,
    np1: i64,
    k: int,
    ts: Seq<i64>,
    sol: Seq<Seq<i64>>,
    ts2: Seq<i64>,
    sol2: Seq<Seq<i64>>,
)
    requires
        1 <= np1,
        in_bound(t_max as int),
        1 <= k <= np1 as int + 1,
        sim_steps_v(ms, ls, g, n, y, dt, t_max, np1, k, ts, sol) == Ok::<
            (Seq<i64>, Seq<Seq<i64>>),
            SimError,
        >((ts2, sol2)),
    ensures
        ts2.len() == ts.len() + (np1 as int + 1 - k),
        sol2.len() == sol.len() + (np1 as int + 1 - k),
        forall|j: int| 0 <= j < ts.len() ==> ts2[j] == ts[j],
        forall|j: int| 0 <= j < sol.len() ==> sol2[j] == sol[j],
        forall|j: int|
            ts.len() <= j < ts2.len() ==> ts2[j] as int == sample_time_v(
                t_max,
                np1,
                k + j - ts.len(),
            ),
    decreases np1 as int + 1 - k,
{
    if k <= np1 as int {
        let r = rk4_step_v(ms, ls, g, n, y, dt);
        let y2 = r->Ok_0;
        lemma_sample_time_bound(t_max, np1, k);
        let tk = sample_time_v(t_max, np1, k) as i64;
        lemma_sim_steps_grid(
            ms,
            ls,
            g,
            n,
            y2,
            dt,
            t_max,
            np1,
            k + 1,
            ts.push(tk),
            sol.push(y2),
            ts2,
            sol2,
        );
        assert forall|j: int|
            ts.len() <= j < ts2.len() implies ts2[j] as int == sample_time_v(
                t_max,
                np1,
                k + j - ts.len(),
            ) by {
            if j == ts.len() {
                assert(ts2[j] == ts.push(tk)[j]);
                assert(ts.push(tk)[j] == tk);
            } else {
                assert(ts2[j] as int == sample_time_v(
                    t_max,
                    np1,
                    k + 1 + j - ts.push(tk).len() as int,
                ));
            }
        }
        assert forall|j: int| 0 <= j < ts.len() implies ts2[j] == ts[j] by {
            assert(ts2[j] == ts.push(tk)[j]);
        }
        assert forall|j: int| 0 <= j < sol.len() implies sol2[j] == sol[j] by {
            assert(sol2[j] == sol.push(y2)[j]);
        }
    }
}

/// The time grid of any returned trajectory: exactly `n_points` samples, the
/// first at time zero with the given initial state, sample `k` at the
/// truncated time `k * t_max / (n_points - 1)`, and the last sample exactly
/// at `t_max`.
pub proof fn lemma_trajectory_time_grid(
    ms: Seq<i64>,
    ls: Seq<i64>,
    g: i64,
    n: int,
    init_angles: Seq<i64>,
    init_vels: Seq<i64>,
    t_max: i64,
    n_points: int,
    ts: Seq<i64>,
    sol: Seq<Seq<i64>>,
)
    requires
        simulate_v(ms, ls, g, n, init_angles, init_vels, t_max, n_points) == Ok::<
            (Seq<i64>, Seq<Seq<i64>>),
            SimError,
        >((ts, sol)),
    ensures
        ts.len() == n_points,
        sol.len() == n_points,
        ts[0] == 0,
        sol[0] == init_angles + init_vels,
        ts[n_points - 1] == t_max,
        forall|k: int|
            0 <= k < n_points ==> ts[k] as int == sample_time_v(t_max, (n_points - 1) as i64, k),
{
    let np1 = (n_points - 1) as i64;
    let y0 = init_angles + init_vels;
    let npf = from_int_v((n_points - 1) as i64)->Ok_0;
    let dt = div_v(t_max, npf)->Ok_0;
    assert(in_bound(t_max as int));
    lemma_sim_steps_grid(
        ms,
        ls,
        g,
        n,
        y0,
        dt,
        t_max,
        np1,
        1,
        seq![0i64],
        seq![y0],
        ts,
        sol,
    );
    lemma_sample_time_endpoints(t_max, np1);
    assert(ts[0] == seq![0i64][0]);
    assert(sol[0] == seq![y0][0]);
    assert(ts[n_points - 1] as int == sample_time_v(t_max, np1, np1 as int));
    assert forall|k: int|
        0 <= k < n_points implies ts[k] as int == sample_time_v(t_max, np1, k) by {
        if k == 0 {
            assert(ts[0] == 0);
        } else {
            assert(ts[k] as int == sample_time_v(t_max, np1, 1 + k - 1));
        }
    }
}

/// Every entry of the sequence is the zero scalar.
pub open spec fn all_zero(s: Seq<i64>) -> bool {
    forall|i: int| 0 <= i < s.len() ==> s[i] == 0
}

/// Every state of the trajectory is the zero state.
pub open spec fn all_states_zero(sol: Seq<Seq<i64>>) -> bool {
    forall|i: int| 0 <= i < sol.len() ==> all_zero(#[trigger] sol[i])
}

/// A centripetal term at a zero configuration is zero (or a fault).
proof fn lemma_centri_term_zero(
    ms: Seq<i64>,
    ls: Seq<i64>,
    angs: Seq<i64>,
    vels: Seq<i64>,
    i: int,
    j: int,
)
    requires
        0 <= i < angs.len(),
        0 <= j < angs.len(),
        0 <= j < vels.len(),
        angs[i] == 0,
        angs[j] == 0,
        vels[j] == 0,
    ensures
        centri_term_v(ms, ls, angs, vels, i, j) is Ok ==> centri_term_v(ms, ls, angs, vels, i, j)
            == Ok::<i64, SimError>(0),
{
    crate::trig::lemma_sin_zero();
}

/// A centripetal row sum over a zero configuration stays zero (or faults).
proof fn lemma_centri_sum_zero(
    ms: Seq<i64>,
    ls: Seq<i64>,
    angs: Seq<i64>,
    vels: Seq<i64>,
    n: int,
    i: int,
    j: int,
)
    requires
        angs.len() == n,
        vels.len() == n,
        all_zero(angs),
        all_zero(vels),
        0 <= i < n,
    ensures
        centri_sum_v(ms, ls, angs, vels, n, i, j, 0) is Ok ==> centri_sum_v(
            ms,
            ls,
            angs,
            vels,
            n,
            i,
            j,
            0,
        ) == Ok::<i64, SimError>(0),
    decreases n - j,
{
    if 0 <= j < n {
        lemma_centri_term_zero(ms, ls, angs, vels, i, j);
        lemma_centri_sum_zero(ms, ls, angs, vels, n, i, j + 1);
    }
}

/// A gravity entry at a zero configuration is zero (or a fault).
proof fn lemma_grav_entry_zero(ms: Seq<i64>, ls: Seq<i64>, angs: Seq<i64>, g: i64, i: int)
    requires
        0 <= i < angs.len(),
        angs[i] == 0,
    ensures
        grav_entry_v(ms, ls, angs, g, i) is Ok ==> grav_entry_v(ms, ls, angs, g, i) == Ok::<
            i64,
            SimError,
        >(0),
{
    crate::trig::lemma_sin_zero();
}

/// A back-substitution sum over a zero solution vector is zero (or faults).
proof fn lemma_bsum_zero(mrow: Seq<i64>, x: Seq<i64>, j: int, n: int)
    requires
        x.len() == n,
        all_zero(x),
    ensures
        bsum_v(mrow, x, j, n, 0) is Ok ==> bsum_v(mrow, x, j, n, 0) == Ok::<i64, SimError>(0),
    decreases n - j,
{
    if 0 <= j < n {
        lemma_bsum_zero(mrow, x, j + 1, n);
    }
}

/// Back substitution with a zero right-hand side and zero start leaves every
/// entry zero (or faults).
proof fn lemma_back_sub_zero(m: Seq<Seq<i64>>, r: Seq<i64>, x: Seq<i64>, i: int, n: int)
    requires
        r.len() == n,
        x.len() == n,
        i < n,
        all_zero(r),
        all_zero(x),
    ensures
        back_sub_v(m, r, x, i, n) is Ok ==> all_zero(back_sub_v(m, r, x, i, n)->Ok_0),
    decreases i + 1,
{
    if i >= 0 {
        lemma_bsum_zero(m[i], x, i + 1, n);
        match bsum_v(m[i], x, i + 1, n, 0) {
            Err(_) => {},
            Ok(su) => match sub_v(r[i], su) {
                Err(_) => {},
                Ok(num) => match div_v(num, m[i][i]) {
                    Err(_) => {},
                    Ok(v) => {
                        assert(v == 0);
                        assert(all_zero(x.update(i, v)));
                        lemma_back_sub_zero(m, r, x.update(i, v), i - 1, n);
                    },
                },
            },
        }
    }
}

/// The row of the largest pivot candidate lies within the matrix.
proof fn lemma_max_row_bounds(m: Seq<Seq<i64>>, col: int, k: int, best: int, n: int)
    requires
        0 <= best < n,
    ensures
        0 <= max_row_v(m, col, k, best, n) < n,
    decreases n - k,
{
    if 0 <= k < n {
        let nb = if iabs(m[k][col] as int) > iabs(m[best][col] as int) {
            k
        } else {
            best
        };
        lemma_max_row_bounds(m, col, k + 1, nb, n);
    }
}

/// Eliminating below a pivot keeps a zero right-hand side zero (or faults).
proof fn lemma_elim_rows_zero(m: Seq<Seq<i64>>, r: Seq<i64>, i: int, k: int, n: int)
    requires
        r.len() == n,
        0 <= i < n,
        all_zero(r),
    ensures
        elim_rows_v(m, r, i, k, n) is Ok ==> {
            let pr = elim_rows_v(m, r, i, k, n)->Ok_0;
            all_zero(pr.1) && pr.1.len() == n
        },
    decreases n - k,
{
    if 0 <= k < n {
        match neg_v(m[k][i]) {
            Err(_) => {},
            Ok(nm) => match div_v(nm, m[i][i]) {
                Err(_) => {},
                Ok(c) => match elim_row_v(m[k], m[i], c, i, i, n) {
                    Err(_) => {},
                    Ok(newrow) => {
                        assert(mul_v(c, r[i]) == Ok::<i64, SimError>(0));
                        assert(all_zero(r.update(k, 0)));
                        lemma_elim_rows_zero(m.update(k, newrow), r.update(k, 0), i, k + 1, n);
                    },
                },
            },
        }
    }
}

/// Forward elimination keeps a zero right-hand side zero (or faults).
proof fn lemma_elim_zero(m: Seq<Seq<i64>>, r: Seq<i64>, i: int, n: int)
    requires
        r.len() == n,
        0 <= i,
        all_zero(r),
    ensures
        elim_v(m, r, i, n) is Ok ==> {
            let pr = elim_v(m, r, i, n)->Ok_0;
            all_zero(pr.1) && pr.1.len() == n
        },
    decreases n - i,
{
    if i < n {
        lemma_max_row_bounds(m, i, i + 1, i, n);
        let p = max_row_v(m, i, i + 1, i, n);
        let m1 = m.update(i, m[p]).update(p, m[i]);
        let r1 = r.update(i, r[p]).update(p, r[i]);
        assert(all_zero(r1));
        if m1[i][i] != 0 {
            lemma_elim_rows_zero(m1, r1, i, i + 1, n);
            match elim_rows_v(m1, r1, i, i + 1, n) {
                Err(_) => {},
                Ok(pr) => {
                    lemma_elim_zero(pr.0, pr.1, i + 1, n);
                },
            }
        }
    }
}

/// The solver maps a zero right-hand side to a zero solution (or faults).
proof fn lemma_solve_linear_zero(a: Seq<Seq<i64>>, b: Seq<i64>)
    requires
        all_zero(b),
    ensures
        solve_linear_v(a, b) is Ok ==> all_zero(solve_linear_v(a, b)->Ok_0),
{
    let n = b.len() as int;
    if square_v(a, n) {
        if n > 0 {
            lemma_elim_zero(a, b, 0, n);
        }
        match elim_v(a, b, 0, n) {
            Err(_) => {},
            Ok(pr) => {
                assert(all_zero(zero_seq(n)));
                lemma_back_sub_zero(pr.0, pr.1, zero_seq(n), n - 1, n);
            },
        }
    }
}

/// Accelerations at a zero configuration are zero (or a fault).
proof fn lemma_accel_zero(ms: Seq<i64>, ls: Seq<i64>, g: i64, angs: Seq<i64>, vels: Seq<i64>, n: int)
    requires
        all_zero(angs),
        all_zero(vels),
    ensures
        accel_v(ms, ls, g, angs, vels, n) is Ok ==> all_zero(accel_v(ms, ls, g, angs, vels, n)->Ok_0),
{
    reveal(accel_v);
    if mass_matrix_v(ms, ls, angs, n) is Ok && centri_vec_v(ms, ls, angs, vels, n) is Ok
        && grav_vec_v(ms, ls, angs, g, n) is Ok {
        let cv = centri_vec_v(ms, ls, angs, vels, n)->Ok_0;
        let gv = grav_vec_v(ms, ls, angs, g, n)->Ok_0;
        assert forall|i: int| 0 <= i < n implies cv[i] == 0 by {
            lemma_centri_sum_zero(ms, ls, angs, vels, n, i, 0);
        }
        assert forall|i: int| 0 <= i < n implies gv[i] == 0 by {
            lemma_grav_entry_zero(ms, ls, angs, g, i);
        }
        if rhs_vec_v(cv, gv, n) is Ok {
            let rv = rhs_vec_v(cv, gv, n)->Ok_0;
            assert forall|i: int| 0 <= i < n implies rv[i] == 0 by {
                assert(rhs_entry_v(cv, gv, i) is Ok);
            }
            assert(all_zero(rv));
            lemma_solve_linear_zero(mass_matrix_v(ms, ls, angs, n)->Ok_0, rv);
        }
    }
}

/// The state derivative at the zero state is zero (or a fault).
proof fn lemma_deriv_zero(ms: Seq<i64>, ls: Seq<i64>, g: i64, n: int, y: Seq<i64>)
    requires
        all_zero(y),
    ensures
        deriv_v(ms, ls, g, n, y) is Ok ==> all_zero(deriv_v(ms, ls, g, n, y)->Ok_0),
{
    reveal(deriv_v);
    if y.len() == 2 * n {
        let angs = y.subrange(0, n);
        let vels = y.subrange(n, 2 * n);
        assert(all_zero(angs));
        assert(all_zero(vels));
        lemma_accel_zero(ms, ls, g, angs, vels, n);
        if accel_v(ms, ls, g, angs, vels, n) is Ok {
            let alpha = accel_v(ms, ls, g, angs, vels, n)->Ok_0;
            assert(all_zero(vels + alpha));
        }
    }
}

/// A scaled zero increment leaves a zero state zero (or faults).
proof fn lemma_axpy_zero(y: Seq<i64>, sc: i64, k: Seq<i64>, m: int)
    requires
        all_zero(y),
        all_zero(k),
        y.len() == m,
        k.len() == m,
    ensures
        axpy_v(y, sc, k, m) is Ok ==> all_zero(axpy_v(y, sc, k, m)->Ok_0),
{
    if axpy_ok(y, sc, k, m) {
        let out = axpy_v(y, sc, k, m)->Ok_0;
        assert forall|i: int| 0 <= i < m implies out[i] == 0 by {
            assert(axpy_entry_v(y, sc, k, i) is Ok);
        }
    }
}

/// A Runge-Kutta step from the zero state stays at zero (or faults).
proof fn lemma_rk4_zero(ms: Seq<i64>, ls: Seq<i64>, g: i64, n: int, y: Seq<i64>, dt: i64)
    requires
        all_zero(y),
    ensures
        rk4_step_v(ms, ls, g, n, y, dt) is Ok ==> all_zero(rk4_step_v(ms, ls, g, n, y, dt)->Ok_0),
{
    reveal(rk4_step_v);
    let m = 2 * n;
    lemma_deriv_len(ms, ls, g, n, y);
    lemma_deriv_zero(ms, ls, g, n, y);
    if deriv_v(ms, ls, g, n, y) is Ok {
        let k1 = deriv_v(ms, ls, g, n, y)->Ok_0;
        match mul_v(HALF_FX, dt) {
            Err(_) => {},
            Ok(hd) => {
                lemma_axpy_zero(y, hd, k1, m);
                if axpy_v(y, hd, k1, m) is Ok {
                    let y2 = axpy_v(y, hd, k1, m)->Ok_0;
                    lemma_deriv_len(ms, ls, g, n, y2);
                    lemma_deriv_zero(ms, ls, g, n, y2);
                    if deriv_v(ms, ls, g, n, y2) is Ok {
                        let k2 = deriv_v(ms, ls, g, n, y2)->Ok_0;
                        lemma_axpy_zero(y, hd, k2, m);
                        if axpy_v(y, hd, k2, m) is Ok {
                            let y3 = axpy_v(y, hd, k2, m)->Ok_0;
                            lemma_deriv_len(ms, ls, g, n, y3);
                            lemma_deriv_zero(ms, ls, g, n, y3);
                            if deriv_v(ms, ls, g, n, y3) is Ok {
                                let k3 = deriv_v(ms, ls, g, n, y3)->Ok_0;
                                lemma_axpy_zero(y, dt, k3, m);
                                if axpy_v(y, dt, k3, m) is Ok {
                                    let y4 = axpy_v(y, dt, k3, m)->Ok_0;
                                    lemma_deriv_len(ms, ls, g, n, y4);
                                    lemma_deriv_zero(ms, ls, g, n, y4);
                                    if deriv_v(ms, ls, g, n, y4) is Ok {
                                        let k4 = deriv_v(ms, ls, g, n, y4)->Ok_0;
                                        match div_v(dt, SIX_FX) {
                                            Err(_) => {},
                                            Ok(dt6) => {
                                                if comb_ok(y, k1, k2, k3, k4, dt6, m) {
                                                    let out = comb_v(y, k1, k2, k3, k4, dt6, m)->Ok_0;
                                                    assert forall|i: int|
                                                        0 <= i < m implies out[i] == 0 by {
                                                        assert(y[i] == 0);
                                                        assert(k1[i] == 0);
                                                        assert(k2[i] == 0);
                                                        assert(k3[i] == 0);
                                                        assert(k4[i] == 0);
                                                        assert(comb_entry_v(y, k1, k2, k3, k4, dt6, i)
                                                            == Ok::<i64, SimError>(0));
                                                    }
                                                }
                                            },
                                        }
                                    }
                                }
                            }
                        }
                    }
                }
            },
        }
    }
}

/// Steps from the zero state only ever append zero states (or fault).
proof fn lemma_sim_steps_zero(
    ms: Seq<i64>,
    ls: Seq<i64>,
    g: i64,
    n: int,
    y: Seq<i64>,
    dt: i64,
    t_max: i64,
    np1: i64,
    k: int,
    ts: Seq<i64>,
    sol: Seq<Seq<i64>>,
    ts2: Seq<i64>,
    sol2: Seq<Seq<i64>>,
)
    requires
        all_zero(y),
        all_states_zero(sol),
        sim_steps_v(ms, ls, g, n, y, dt, t_max, np1, k, ts, sol) == Ok::<
            (Seq<i64>, Seq<Seq<i64>>),
            SimError,
        >((ts2, sol2)),
    ensures
        all_states_zero(sol2),
    decreases np1 as int + 1 - k,
{
    if 1 <= k <= np1 as int {
        let r = rk4_step_v(ms, ls, g, n, y, dt);
        let y2 = r->Ok_0;
        lemma_rk4_zero(ms, ls, g, n, y, dt);
        assert(all_states_zero(sol.push(y2)));
        let tk = sample_time_v(t_max, np1, k) as i64;
        lemma_sim_steps_zero(
            ms,
            ls,
            g,
            n,
            y2,
            dt,
            t_max,
            np1,
            k + 1,
            ts.push(tk),
            sol.push(y2),
            ts2,
            sol2,
        );
    }
}

/// Equilibrium invariance: started with every angle and every angular
/// velocity exactly zero, any trajectory the simulation returns holds the
/// zero state at every sample, for any masses, lengths, gravity, duration
/// and sample count.
pub proof fn lemma_equilibrium_trajectory(
    ms: Seq<i64>,
    ls: Seq<i64>,
    g: i64,
    n: int,
    init_angles: Seq<i64>,
    init_vels: Seq<i64>,
    t_max: i64,
    n_points: int,
    ts: Seq<i64>,
    sol: Seq<Seq<i64>>,
)
    requires
        all_zero(init_angles),
        all_zero(init_vels),
        simulate_v(ms, ls, g, n, init_angles, init_vels, t_max, n_points) == Ok::<
            (Seq<i64>, Seq<Seq<i64>>),
            SimError,
        >((ts, sol)),
    ensures
        all_states_zero(sol),
{
    let y0 = init_angles + init_vels;
    assert(all_zero(y0));
    assert(all_states_zero(seq![y0]));
    let npf = from_int_v((n_points - 1) as i64)->Ok_0;
    let dt = div_v(t_max, npf)->Ok_0;
    lemma_sim_steps_zero(
        ms,
        ls,
        g,
        n,
        y0,
        dt,
        t_max,
        (n_points - 1) as i64,
        1,
        seq![0i64],
        seq![y0],
        ts,
        sol,
    );
}

/// Determinism: the simulation's contract pins its outcome to a function of
/// the inputs alone, so two runs on identical inputs agree bit for bit —
/// the same sample times, the same states, or the same error.
pub proof fn lemma_solve_deterministic(
    r1: Result<(Vec<i64>, Vec<Vec<i64>>), SimError>,
    r2: Result<(Vec<i64>, Vec<Vec<i64>>), SimError>,
    s: Result<(Seq<i64>, Seq<Seq<i64>>), SimError>,
)
    requires
        pair_res_matches(r1, s),
        pair_res_matches(r2, s),
    ensures
        r1 is Ok <==> r2 is Ok,
        r1 is Ok ==> r1->Ok_0.0@ == r2->Ok_0.0@ && mview(r1->Ok_0.1@) == mview(r2->Ok_0.1@),
        r1 is Err ==> r1->Err_0 == r2->Err_0,
{
}

} // verus!
