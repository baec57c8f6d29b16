//! Dynamics model of the pendulum chain.
//!
//! At a configuration given by angles and angular velocities, the model
//! produces the three terms of the Lagrangian equations of motion
//! `M * alpha + C + G = 0`: the mass matrix `M`, the centripetal vector `C`
//! and the gravity vector `G`.  Pendulum `i` (zero-based) has mass
//! `masses[i]` and rod length `lengths[i]`.
//!
//! Every entry is pinned down exactly by a specification function over the
//! same fixed-point arithmetic the executable code uses, so the mass-matrix
//! symmetry below is a theorem, not a tolerance.

use vstd::prelude::*;

use crate::fixed::{SimError, in_bound, add_v, mul_v, sub_v, fx_add, fx_mul, fx_sub};
use crate::trig::{sin_v, cos_v, fx_sin, fx_cos, lemma_cos_even};

verus! {

/// The gravitational constant 9.81, in raw fixed-point units.
pub const G_FX: i64 = 42133629174;

/// Left fold of checked additions over `l`, beginning at index `i` with the
/// partial sum `acc`.
pub open spec fn lsum_rec(l: Seq<i64>, i: int, acc: i64) -> Result<i64, SimError>
    decreases l.len() - i,
{
    if i < 0 || i >= l.len() {
        Ok(acc)
    } else {
        match add_v(acc, l[i]) {
            Err(e) => Err(e),
            Ok(s) => lsum_rec(l, i + 1, s),
        }
    }
}

/// Checked sum of a sequence of fixed-point scalars.
pub open spec fn lsum_v(l: Seq<i64>) -> Result<i64, SimError> {
    lsum_rec(l, 0, 0)
}

/// Sum of the elements of `l`.
pub fn lsum(l: &[i64]) -> (r: Result<i64, SimError>)
    ensures
        r == lsum_v(l@),
{
    let n = l.len();
    let mut acc: i64 = 0;
    let mut j: usize = 0;
    while j < n
        invariant
            j <= n,
            n == l@.len(),
            lsum_v(l@) == lsum_rec(l@, j as int, acc),
        decreases n - j,
    {
        match fx_add(acc, l[j]) {
            Err(e) => {
                return Err(e);
            },
            Ok(s) => {
                acc = s;
            },
        }
        j = j + 1;
    }
    Ok(acc)
}

/// Entry `(r, c)` of the mass matrix:
/// `(sum of masses from max(r, c)) * lengths[r] * lengths[c]
///  * cos(angles[r] - angles[c])`.
pub open spec fn mass_entry_v(
    ms: Seq<i64>,
    ls: Seq<i64>,
    angs: Seq<i64>,
    r: int,
    c: int,
) -> Result<i64, SimError> {
    let k = if r >= c {
        r
    } else {
        c
    };
    match lsum_v(ms.subrange(k, ms.len() as int)) {
        Err(e) => Err(e),
        Ok(csum) => match mul_v(ls[r], ls[c]) {
            Err(e) => Err(e),
            Ok(lt) => match mul_v(csum, lt) {
                Err(e) => Err(e),
                Ok(mlt) => match sub_v(angs[r], angs[c]) {
                    Err(e) => Err(e),
                    Ok(d) => match cos_v(d) {
                        Err(e) => Err(e),
                        Ok(ct) => mul_v(mlt, ct),
                    },
                },
            },
        },
    }
}

/// All mass-matrix entries stay within the representable range.
pub open spec fn mass_ok(ms: Seq<i64>, ls: Seq<i64>, angs: Seq<i64>, n: int) -> bool {
    forall|r: int, c: int|
        0 <= r < n && 0 <= c < n ==> (#[trigger] mass_entry_v(ms, ls, angs, r, c)) is Ok
}

/// The full mass matrix, or the failure that building it raises.
pub open spec fn mass_matrix_v(ms: Seq<i64>, ls: Seq<i64>, angs: Seq<i64>, n: int) -> Result<
    Seq<Seq<i64>>,
    SimError,
> {
    if ms.len() != n || ls.len() != n || angs.len() != n {
        Err(SimError::InvalidDimension)
    } else if !mass_ok(ms, ls, angs, n) {
        Err(SimError::NumericFault)
    } else {
        Ok(
            Seq::new(
                n as nat,
                |r: int| Seq::new(n as nat, |c: int| mass_entry_v(ms, ls, angs, r, c)->Ok_0),
            ),
        )
    }
}

/// Term `(i, j)` of the centripetal sum:
/// `(sum of masses from max(i, j)) * lengths[i] * lengths[j]
///  * sin(angles[i] - angles[j]) * velocities[j]^2`.
pub open spec fn centri_term_v(
    ms: Seq<i64>,
    ls: Seq<i64>,
    angs: Seq<i64>,
    vels: Seq<i64>,
    i: int,
    j: int,
) -> Result<i64, SimError> {
    let k = if i >= j {
        i
    } else {
        j
    };
    match lsum_v(ms.subrange(k, ms.len() as int)) {
        Err(e) => Err(e),
        Ok(m_val) => match mul_v(ls[i], ls[j]) {
            Err(e) => Err(e),
            Ok(lilj) => match sub_v(angs[i], angs[j]) {
                Err(e) => Err(e),
                Ok(d) => match sin_v(d) {
                    Err(e) => Err(e),
                    Ok(sv) => match mul_v(vels[j], vels[j]) {
                        Err(e) => Err(e),
                        Ok(velsq) => match mul_v(m_val, lilj) {
                            Err(e) => Err(e),
                            Ok(t1) => match mul_v(t1, sv) {
                                Err(e) => Err(e),
                                Ok(t2) => mul_v(t2, velsq),
                            },
                        },
                    },
                },
            },
        },
    }
}

/// Left fold of the centripetal terms of row `i`, over `j` from the given
/// index up to `n`.
pub open spec fn centri_sum_v(
    ms: Seq<i64>,
    ls: Seq<i64>,
    angs: Seq<i64>,
    vels: Seq<i64>,
    n: int,
    i: int,
    j: int,
    acc: i64,
) -> Result<i64, SimError>
    decreases n - j,
{
    if j < 0 || j >= n {
        Ok(acc)
    } else {
        match centri_term_v(ms, ls, angs, vels, i, j) {
            Err(e) => Err(e),
            Ok(t) => match add_v(acc, t) {
                Err(e) => Err(e),
                Ok(s) => centri_sum_v(ms, ls, angs, vels, n, i, j + 1, s),
            },
        }
    }
}

/// Entry `i` of the centripetal vector.
pub open spec fn centri_entry_v(
    ms: Seq<i64>,
    ls: Seq<i64>,
    angs: Seq<i64>,
    vels: Seq<i64>,
    n: int,
    i: int,
) -> Result<i64, SimError> {
    centri_sum_v(ms, ls, angs, vels, n, i, 0, 0)
}

/// All centripetal entries stay within the representable range.
pub open spec fn centri_ok(
    ms: Seq<i64>,
    ls: Seq<i64>,
    angs: Seq<i64>,
    vels: Seq<i64>,
    n: int,
) -> bool {
    forall|i: int|
        0 <= i < n ==> (#[trigger] centri_entry_v(ms, ls, angs, vels, n, i)) is Ok
}

/// The full centripetal vector, or the failure that building it raises.
pub open spec fn centri_vec_v(
    ms: Seq<i64>,
    ls: Seq<i64>,
    angs: Seq<i64>,
    vels: Seq<i64>,
    n: int,
) -> Result<Seq<i64>, SimError> {
    if ms.len() != n || ls.len() != n || angs.len() != n || vels.len() != n {
        Err(SimError::InvalidDimension)
    } else if !centri_ok(ms, ls, angs, vels, n) {
        Err(SimError::NumericFault)
    } else {
        Ok(Seq::new(n as nat, |i: int| centri_entry_v(ms, ls, angs, vels, n, i)->Ok_0))
    }
}

/// Entry `i` of the gravity vector:
/// `(sum of masses from i) * g * lengths[i] * sin(angles[i])`.
pub open spec fn grav_entry_v(
    ms: Seq<i64>,
    ls: Seq<i64>,
    angs: Seq<i64>,
    g: i64,
    i: int,
) -> Result<i64, SimError> {
    match lsum_v(ms.subrange(i, ms.len() as int)) {
        Err(e) => Err(e),
        Ok(mass) => match mul_v(mass, g) {
            Err(e) => Err(e),
            Ok(t1) => match mul_v(t1, ls[i]) {
                Err(e) => Err(e),
                Ok(t2) => match sin_v(angs[i]) {
                    Err(e) => Err(e),
                    Ok(sv) => mul_v(t2, sv),
                },
            },
        },
    }
}

/// All gravity entries stay within the representable range.
pub open spec fn grav_ok(ms: Seq<i64>, ls: Seq<i64>, angs: Seq<i64>, g: i64, n: int) -> bool {
    forall|i: int| 0 <= i < n ==> (#[trigger] grav_entry_v(ms, ls, angs, g, i)) is Ok
}

/// The full gravity vector, or the failure that building it raises.
pub open spec fn grav_vec_v(ms: Seq<i64>, ls: Seq<i64>, angs: Seq<i64>, g: i64, n: int) -> Result<
    Seq<i64>,
    SimError,
> {
    if ms.len() != n || ls.len() != n || angs.len() != n {
        Err(SimError::InvalidDimension)
    } else if !grav_ok(ms, ls, angs, g, n) {
        Err(SimError::NumericFault)
    } else {
        Ok(Seq::new(n as nat, |i: int| grav_entry_v(ms, ls, angs, g, i)->Ok_0))
    }
}

/// A vector result agrees with its specification-level counterpart.
pub open spec fn vec_res_matches(
    r: Result<Vec<i64>, SimError>,
    s: Result<Seq<i64>, SimError>,
) -> bool {
    match r {
        Ok(v) => s is Ok && v@ == s->Ok_0,
        Err(e) => s is Err && e == s->Err_0,
    }
}

/// View of a vector of rows as a sequence of sequences.
pub open spec fn mview(m: Seq<Vec<i64>>) -> Seq<Seq<i64>> {
    Seq::new(m.len(), |i: int| m[i]@)
}

/// A matrix result agrees with its specification-level counterpart.
pub open spec fn mat_res_matches(
    r: Result<Vec<Vec<i64>>, SimError>,
    s: Result<Seq<Seq<i64>>, SimError>,
) -> bool {
    match r {
        Ok(v) => s is Ok && mview(v@) == s->Ok_0,
        Err(e) => s is Err && e == s->Err_0,
    }
}

/// Swapping the two indices of a mass-matrix entry changes nothing: the mass
/// sum ranges over `max(r, c)` either way, the length product commutes, and
/// the cosine is even in the angle difference.  Faults are symmetric too.
pub proof fn lemma_mass_entry_symmetric(ms: Seq<i64>, ls: Seq<i64>, angs: Seq<i64>, r: int, c: int)
    ensures
        mass_entry_v(ms, ls, angs, r, c) == mass_entry_v(ms, ls, angs, c, r),
{
    assert(ls[r] as int * ls[c] as int == ls[c] as int * ls[r] as int);
    let a = angs[r];
    let b = angs[c];
    if in_bound(a as int) && in_bound(b as int) && in_bound(a as int - b as int) {
        let d1 = (a as int - b as int) as i64;
        let d2 = (b as int - a as int) as i64;
        lemma_cos_even(d1, d2);
    }
}

/// The mass matrix is symmetric: whenever it is built at all, entry `(r, c)`
/// equals entry `(c, r)`, exactly.
pub proof fn lemma_mass_matrix_symmetric(
    ms: Seq<i64>,
    ls: Seq<i64>,
    angs: Seq<i64>,
    n: int,
    m: Seq<Seq<i64>>,
)
    requires
        mass_matrix_v(ms, ls, angs, n) == Ok::<Seq<Seq<i64>>, SimError>(m),
    ensures
        forall|r: int, c: int| 0 <= r < n && 0 <= c < n ==> #[trigger] m[r][c] == m[c][r],
{
    assert forall|r: int, c: int| 0 <= r < n && 0 <= c < n implies #[trigger] m[r][c] == m[c][r] by {
        lemma_mass_entry_symmetric(ms, ls, angs, r, c);
    }
}

/// Parameters and instantaneous configuration of the chain: `n` pendulums
/// with their masses and rod lengths, and the angles (radians, from the
/// downward vertical) and angular velocities of the snapshot, all fixed-point.
pub struct NPendulumMath {
    /// Gravitational constant.
    pub g: i64,
    /// Number of pendulums.
    pub n: usize,
    /// Mass of each pendulum.
    pub masses: Vec<i64>,
    /// Rod length of each pendulum.
    pub lengths: Vec<i64>,
    /// Angle of each pendulum.
    pub angles: Vec<i64>,
    /// Angular velocity of each pendulum.
    pub ang_vels: Vec<i64>,
}

impl NPendulumMath {
    /// The mass, length and angle sequences all have the advertised length.
    pub open spec fn dims3_ok(&self) -> bool {
        &&& self.masses@.len() == self.n
        &&& self.lengths@.len() == self.n
        &&& self.angles@.len() == self.n
    }

    /// All four parameter sequences have the advertised length.
    pub open spec fn dims_ok(&self) -> bool {
        &&& self.dims3_ok()
        &&& self.ang_vels@.len() == self.n
    }

    /// Builds a snapshot of the configuration.  The gravitational constant is
    /// fixed at 9.81.
    pub fn new(
        n: usize,
        masses: Vec<i64>,
        lengths: Vec<i64>,
        angles: Vec<i64>,
        ang_vels: Vec<i64>,
    ) -> (s: Self)
        ensures
            s.g == G_FX,
            s.n == n,
            s.masses == masses,
            s.lengths == lengths,
            s.angles == angles,
            s.ang_vels == ang_vels,
    {
        Self { g: G_FX, n, masses, lengths, angles, ang_vels }
    }

    /// Builds a snapshot with an explicit gravitational constant.
    pub fn with_gravity(
        n: usize,
        masses: Vec<i64>,
        lengths: Vec<i64>,
        angles: Vec<i64>,
        ang_vels: Vec<i64>,
        g: i64,
    ) -> (s: Self)
        ensures
            s.g == g,
            s.n == n,
            s.masses == masses,
            s.lengths == lengths,
            s.angles == angles,
            s.ang_vels == ang_vels,
    {
        Self { g, n, masses, lengths, angles, ang_vels }
    }

    /// One mass-matrix entry.
    fn mass_entry(&self, row: usize, column: usize) -> (r: Result<i64, SimError>)
        requires
            self.dims3_ok(),
            row < self.n,
            column < self.n,
        ensures
            r == mass_entry_v(self.masses@, self.lengths@, self.angles@, row as int, column as int),
    {
        let k = if row >= column {
            row
        } else {
            column
        };
        let tail = vstd::slice::slice_subrange(self.masses.as_slice(), k, self.masses.len());
        let csum = match lsum(tail) {
            Err(e) => {
                return Err(e);
            },
            Ok(v) => v,
        };
        let lt = match fx_mul(self.lengths[row], self.lengths[column]) {
            Err(e) => {
                return Err(e);
            },
            Ok(v) => v,
        };
        let mlt = match fx_mul(csum, lt) {
            Err(e) => {
                return Err(e);
            },
            Ok(v) => v,
        };
        let d = match fx_sub(self.angles[row], self.angles[column]) {
            Err(e) => {
                return Err(e);
            },
            Ok(v) => v,
        };
        let ct = match fx_cos(d) {
            Err(e) => {
                return Err(e);
            },
            Ok(v) => v,
        };
        fx_mul(mlt, ct)
    }

    /// The mass matrix at the snapshot's configuration: entry `(r, c)` is
    /// `(sum of masses from max(r, c)) * lengths[r] * lengths[c]
    ///  * cos(angles[r] - angles[c])`.
    pub fn set_mass_matrix(&self) -> (r: Result<Vec<Vec<i64>>, SimError>)
        ensures
            mat_res_matches(
                r,
                mass_matrix_v(self.masses@, self.lengths@, self.angles@, self.n as int),
            ),
    {
        let ghost ms = self.masses@;
        let ghost ls = self.lengths@;
        let ghost angs = self.angles@;
        let n = self.n;
        if self.masses.len() != n || self.lengths.len() != n || self.angles.len() != n {
            return Err(SimError::InvalidDimension);
        }
        let mut m_matrix: Vec<Vec<i64>> = Vec::new();
        let mut row: usize = 0;
        while row < n
            invariant
                self.dims3_ok(),
                n == self.n,
                ms == self.masses@,
                ls == self.lengths@,
                angs == self.angles@,
                row <= n,
                m_matrix@.len() == row as int,
                forall|i: int, j: int|
                    0 <= i < row as int && 0 <= j < n as int ==> (#[trigger] mass_entry_v(
                        ms,
                        ls,
                        angs,
                        i,
                        j,
                    )) is Ok,
                forall|i: int|
                    0 <= i < row as int ==> (#[trigger] m_matrix@[i])@.len() == n as int,
                forall|i: int, j: int|
                    0 <= i < row as int && 0 <= j < n as int ==> #[trigger] m_matrix@[i]@[j]
                        == mass_entry_v(ms, ls, angs, i, j)->Ok_0,
            decreases n - row,
        {
            let mut mm_row: Vec<i64> = Vec::new();
            let mut column: usize = 0;
            while column < n
                invariant
                    self.dims3_ok(),
                    n == self.n,
                    ms == self.masses@,
                    ls == self.lengths@,
                    angs == self.angles@,
                    row < n,
                    column <= n,
                    mm_row@.len() == column as int,
                    forall|j: int|
                        0 <= j < column as int ==> (#[trigger] mass_entry_v(
                            ms,
                            ls,
                            angs,
                            row as int,
                            j,
                        )) is Ok,
                    forall|j: int|
                        0 <= j < column as int ==> #[trigger] mm_row@[j] == mass_entry_v(
                            ms,
                            ls,
                            angs,
                            row as int,
                            j,
                        )->Ok_0,
                decreases n - column,
            {
                match self.mass_entry(row, column) {
                    Err(_) => {
                        assert(!mass_ok(ms, ls, angs, n as int));
                        return Err(SimError::NumericFault);
                    },
                    Ok(v) => {
                        mm_row.push(v);
                    },
                }
                column = column + 1;
            }
            m_matrix.push(mm_row);
            row = row + 1;
        }
        proof {
            assert(mass_ok(ms, ls, angs, n as int));
            let s = mass_matrix_v(ms, ls, angs, n as int)->Ok_0;
            assert(mview(m_matrix@) =~~= s);
        }
        Ok(m_matrix)
    }

    /// The centripetal vector at the snapshot's configuration: entry `i` is
    /// the sum over `j` of
    /// `(sum of masses from max(i, j)) * lengths[i] * lengths[j]
    ///  * sin(angles[i] - angles[j]) * velocities[j]^2`.
    pub fn set_centripetal_matrix(&self) -> (r: Result<Vec<i64>, SimError>)
        ensures
            vec_res_matches(
                r,
                centri_vec_v(
                    self.masses@,
                    self.lengths@,
                    self.angles@,
                    self.ang_vels@,
                    self.n as int,
                ),
            ),
    {
        let ghost ms = self.masses@;
        let ghost ls = self.lengths@;
        let ghost angs = self.angles@;
        let ghost vels = self.ang_vels@;
        let n = self.n;
        if self.masses.len() != n || self.lengths.len() != n || self.angles.len() != n
            || self.ang_vels.len() != n {
            return Err(SimError::InvalidDimension);
        }
        let mut c_matrix: Vec<i64> = Vec::new();
        let mut i: usize = 0;
        while i < n
            invariant
                self.dims_ok(),
                n == self.n,
                ms == self.masses@,
                ls == self.lengths@,
                angs == self.angles@,
                vels == self.ang_vels@,
                i <= n,
                c_matrix@.len() == i as int,
                forall|p: int|
                    0 <= p < i as int ==> (#[trigger] centri_entry_v(
                        ms,
                        ls,
                        angs,
                        vels,
                        n as int,
                        p,
                    )) is Ok,
                forall|p: int|
                    0 <= p < i as int ==> #[trigger] c_matrix@[p] == centri_entry_v(
                        ms,
                        ls,
                        angs,
                        vels,
                        n as int,
                        p,
                    )->Ok_0,
            decreases n - i,
        {
            let mut f_term: i64 = 0;
            let mut j: usize = 0;
            while j < n
                invariant
                    self.dims_ok(),
                    n == self.n,
                    ms == self.masses@,
                    ls == self.lengths@,
                    angs == self.angles@,
                    vels == self.ang_vels@,
                    i < n,
                    j <= n,
                    centri_entry_v(ms, ls, angs, vels, n as int, i as int) == centri_sum_v(
                        ms,
                        ls,
                        angs,
                        vels,
                        n as int,
                        i as int,
                        j as int,
                        f_term,
                    ),
                decreases n - j,
            {
                match self.centri_term(i, j) {
                    Err(_) => {
                        assert(!centri_ok(ms, ls, angs, vels, n as int));
                        return Err(SimError::NumericFault);
                    },
                    Ok(t) => {
                        match fx_add(f_term, t) {
                            Err(_) => {
                                assert(!centri_ok(ms, ls, angs, vels, n as int));
                                return Err(SimError::NumericFault);
                            },
                            Ok(s) => {
                                f_term = s;
                            },
                        }
                    },
                }
                j = j + 1;
            }
            c_matrix.push(f_term);
            i = i + 1;
        }
        proof {
            assert(centri_ok(ms, ls, angs, vels, n as int));
            let s = centri_vec_v(ms, ls, angs, vels, n as int)->Ok_0;
            assert(c_matrix@ =~= s);
        }
        Ok(c_matrix)
    }

    /// One centripetal term.
    fn centri_term(&self, i: usize, j: usize) -> (r: Result<i64, SimError>)
        requires
            self.dims_ok(),
            i < self.n,
            j < self.n,
        ensures
            r == centri_term_v(
                self.masses@,
                self.lengths@,
                self.angles@,
                self.ang_vels@,
                i as int,
                j as int,
            ),
    {
        let k = if i >= j {
            i
        } else {
            j
        };
        let tail = vstd::slice::slice_subrange(self.masses.as_slice(), k, self.masses.len());
        let m_val = match lsum(tail) {
            Err(e) => {
                return Err(e);
            },
            Ok(v) => v,
        };
        let lilj = match fx_mul(self.lengths[i], self.lengths[j]) {
            Err(e) => {
                return Err(e);
            },
            Ok(v) => v,
        };
        let d = match fx_sub(self.angles[i], self.angles[j]) {
            Err(e) => {
                return Err(e);
            },
            Ok(v) => v,
        };
        let sv = match fx_sin(d) {
            Err(e) => {
                return Err(e);
            },
            Ok(v) => v,
        };
        let velsq = match fx_mul(self.ang_vels[j], self.ang_vels[j]) {
            Err(e) => {
                return Err(e);
            },
            Ok(v) => v,
        };
        let t1 = match fx_mul(m_val, lilj) {
            Err(e) => {
                return Err(e);
            },
            Ok(v) => v,
        };
        let t2 = match fx_mul(t1, sv) {
            Err(e) => {
                return Err(e);
            },
            Ok(v) => v,
        };
        fx_mul(t2, velsq)
    }

    /// The gravity vector at the snapshot's configuration: entry `i` is
    /// `(sum of masses from i) * g * lengths[i] * sin(angles[i])`.
    pub fn set_grav_matrix(&self) -> (r: Result<Vec<i64>, SimError>)
        ensures
            vec_res_matches(
                r,
                grav_vec_v(self.masses@, self.lengths@, self.angles@, self.g, self.n as int),
            ),
    {
        let ghost ms = self.masses@;
        let ghost ls = self.lengths@;
        let ghost angs = self.angles@;
        let n = self.n;
        if self.masses.len() != n || self.lengths.len() != n || self.angles.len() != n {
            return Err(SimError::InvalidDimension);
        }
        let mut g_m: Vec<i64> = Vec::new();
        let mut i: usize = 0;
        while i < n
            invariant
                self.dims3_ok(),
                n == self.n,
                ms == self.masses@,
                ls == self.lengths@,
                angs == self.angles@,
                i <= n,
                g_m@.len() == i as int,
                forall|p: int|
                    0 <= p < i as int ==> (#[trigger] grav_entry_v(ms, ls, angs, self.g, p)) is Ok,
                forall|p: int|
                    0 <= p < i as int ==> #[trigger] g_m@[p] == grav_entry_v(
                        ms,
                        ls,
                        angs,
                        self.g,
                        p,
                    )->Ok_0,
            decreases n - i,
        {
            match self.grav_entry(i) {
                Err(_) => {
                    assert(!grav_ok(ms, ls, angs, self.g, n as int));
                    return Err(SimError::NumericFault);
                },
                Ok(v) => {
                    g_m.push(v);
                },
            }
            i = i + 1;
        }
        proof {
            assert(grav_ok(ms, ls, angs, self.g, n as int));
            let s = grav_vec_v(ms, ls, angs, self.g, n as int)->Ok_0;
            assert(g_m@ =~= s);
        }
        Ok(g_m)
    }

    /// One gravity entry.
    fn grav_entry(&self, i: usize) -> (r: Result<i64, SimError>)
        requires
            self.dims3_ok(),
            i < self.n,
        ensures
            r == grav_entry_v(self.masses@, self.lengths@, self.angles@, self.g, i as int),
    {
        let tail = vstd::slice::slice_subrange(self.masses.as_slice(), i, self.masses.len());
        let mass = match lsum(tail) {
            Err(e) => {
                return Err(e);
            },
            Ok(v) => v,
        };
        let t1 = match fx_mul(mass, self.g) {
            Err(e) => {
                return Err(e);
            },
            Ok(v) => v,
        };
        let t2 = match fx_mul(t1, self.lengths[i]) {
            Err(e) => {
                return Err(e);
            },
            Ok(v) => v,
        };
        let sv = match fx_sin(self.angles[i]) {
            Err(e) => {
                return Err(e);
            },
            Ok(v) => v,
        };
        fx_mul(t2, sv)
    }
}

} // verus!
