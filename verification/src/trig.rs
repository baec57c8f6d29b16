//! Fixed-point sine and cosine.
//!
//! The argument is reduced modulo one turn, folded into the first quarter
//! turn by the usual reflection identities, and the quarter-turn values come
//! from truncated Taylor polynomials evaluated in Horner form.  The cosine is
//! computed from the magnitude of its argument, so evenness holds exactly;
//! the sine carries the sign separately, so `sin 0` is exactly zero.

use vstd::prelude::*;

use crate::fixed::{SimError, SCALE, BOUND, in_bound, iabs, mul_v, sub_v, neg_v, fx_mul, fx_sub,
    fx_neg};

verus! {

/// One half turn (pi), in raw fixed-point units.
pub const PI_FX: i64 = 13493037705;

/// One full turn (two pi), in raw fixed-point units.
pub const TWO_PI_FX: i64 = 26986075409;

/// One quarter turn (pi over two), in raw fixed-point units.
pub const HALF_PI_FX: i64 = 6746518852;

/// Reciprocal factorial 1/2!, in raw fixed-point units.
pub const COS_C2: i64 = 2147483648;

/// Reciprocal factorial 1/4!.
pub const COS_C4: i64 = 178956971;

/// Reciprocal factorial 1/6!.
pub const COS_C6: i64 = 5965232;

/// Reciprocal factorial 1/8!.
pub const COS_C8: i64 = 106522;

/// Reciprocal factorial 1/10!.
pub const COS_C10: i64 = 1184;

/// Reciprocal factorial 1/12!.
pub const COS_C12: i64 = 9;

/// Reciprocal factorial 1/3!.
pub const SIN_C3: i64 = 715827883;

/// Reciprocal factorial 1/5!.
pub const SIN_C5: i64 = 35791394;

/// Reciprocal factorial 1/7!.
pub const SIN_C7: i64 = 852176;

/// Reciprocal factorial 1/9!.
pub const SIN_C9: i64 = 11836;

/// Reciprocal factorial 1/11!.
pub const SIN_C11: i64 = 108;

/// Reciprocal factorial 1/13!.
pub const SIN_C13: i64 = 1;

/// Reduction of a nonnegative raw angle modulo one turn, folded into the
/// half-open interval just above minus one half turn and up to one half turn.
pub open spec fn reduce_v(u: int) -> int {
    let r = u % (TWO_PI_FX as int);
    if r > PI_FX as int {
        r - TWO_PI_FX as int
    } else {
        r
    }
}

/// One Horner step of a truncated Taylor polynomial: `c - u2 * acc`.
pub open spec fn horner_v(u2: i64, c: i64, acc: Result<i64, SimError>) -> Result<i64, SimError> {
    match acc {
        Err(e) => Err(e),
        Ok(a) => match mul_v(u2, a) {
            Err(e) => Err(e),
            Ok(m) => sub_v(c, m),
        },
    }
}

/// Cosine of a raw angle within the first quarter turn.
pub open spec fn cos_quarter_v(u: i64) -> Result<i64, SimError> {
    match mul_v(u, u) {
        Err(e) => Err(e),
        Ok(u2) => horner_v(
            u2,
            SCALE,
            horner_v(
                u2,
                COS_C2,
                horner_v(
                    u2,
                    COS_C4,
                    horner_v(u2, COS_C6, horner_v(u2, COS_C8, horner_v(u2, COS_C10, Ok(COS_C12)))),
                ),
            ),
        ),
    }
}

/// Sine of a raw angle within the first quarter turn.
pub open spec fn sin_quarter_v(u: i64) -> Result<i64, SimError> {
    match mul_v(u, u) {
        Err(e) => Err(e),
        Ok(u2) => match horner_v(
            u2,
            SCALE,
            horner_v(
                u2,
                SIN_C3,
                horner_v(
                    u2,
                    SIN_C5,
                    horner_v(u2, SIN_C7, horner_v(u2, SIN_C9, horner_v(u2, SIN_C11, Ok(SIN_C13)))),
                ),
            ),
        ) {
            Err(e) => Err(e),
            Ok(a) => mul_v(u, a),
        },
    }
}

/// Cosine of an arbitrary raw angle.
pub open spec fn cos_v(x: i64) -> Result<i64, SimError> {
    if !in_bound(x as int) {
        Err(SimError::NumericFault)
    } else {
        let w = iabs(reduce_v(iabs(x as int)));
        if w > HALF_PI_FX as int {
            match cos_quarter_v((PI_FX as int - w) as i64) {
                Err(e) => Err(e),
                Ok(c) => neg_v(c),
            }
        } else {
            cos_quarter_v(w as i64)
        }
    }
}

/// Sine of an arbitrary raw angle.
pub open spec fn sin_v(x: i64) -> Result<i64, SimError> {
    if !in_bound(x as int) {
        Err(SimError::NumericFault)
    } else {
        let r = reduce_v(iabs(x as int));
        let w = iabs(r);
        let q = if w > HALF_PI_FX as int {
            sin_quarter_v((PI_FX as int - w) as i64)
        } else {
            sin_quarter_v(w as i64)
        };
        match q {
            Err(e) => Err(e),
            Ok(s) => if (x < 0) != (r < 0) {
                neg_v(s)
            } else {
                Ok(s)
            },
        }
    }
}

/// The cosine is an even function of its argument, exactly, faults included.
pub proof fn lemma_cos_even(a: i64, b: i64)
    requires
        a as int == -(b as int),
    ensures
        cos_v(a) == cos_v(b),
{
    assert(iabs(a as int) == iabs(b as int));
    assert(in_bound(a as int) == in_bound(b as int));
}

/// The sine of an exactly zero angle is exactly zero.
pub proof fn lemma_sin_zero()
    ensures
        sin_v(0) == Ok::<i64, SimError>(0),
{
    assert(0int % (TWO_PI_FX as int) == 0);
    assert(sin_quarter_v(0) == Ok::<i64, SimError>(0));
}

/// Reduction modulo one turn, for nonnegative angles.
fn reduce(u: i64) -> (r: i64)
    requires
        0 <= u,
    ensures
        r as int == reduce_v(u as int),
        -(PI_FX as int) < r <= PI_FX as int,
{
    let m: u64 = (u as u64) % (TWO_PI_FX as u64);
    if m > PI_FX as u64 {
        (m as i64) - TWO_PI_FX
    } else {
        m as i64
    }
}

/// One executable Horner step.
fn horner_step(u2: i64, c: i64, acc: Result<i64, SimError>) -> (r: Result<i64, SimError>)
    ensures
        r == horner_v(u2, c, acc),
{
    match acc {
        Err(e) => Err(e),
        Ok(a) => match fx_mul(u2, a) {
            Err(e) => Err(e),
            Ok(m) => fx_sub(c, m),
        },
    }
}

/// Cosine over the first quarter turn.
fn cos_quarter(u: i64) -> (r: Result<i64, SimError>)
    ensures
        r == cos_quarter_v(u),
{
    match fx_mul(u, u) {
        Err(e) => Err(e),
        Ok(u2) => {
            let acc = horner_step(u2, COS_C10, Ok(COS_C12));
            let acc = horner_step(u2, COS_C8, acc);
            let acc = horner_step(u2, COS_C6, acc);
            let acc = horner_step(u2, COS_C4, acc);
            let acc = horner_step(u2, COS_C2, acc);
            horner_step(u2, SCALE, acc)
        },
    }
}

/// Sine over the first quarter turn.
fn sin_quarter(u: i64) -> (r: Result<i64, SimError>)
    ensures
        r == sin_quarter_v(u),
{
    match fx_mul(u, u) {
        Err(e) => Err(e),
        Ok(u2) => {
            let acc = horner_step(u2, SIN_C11, Ok(SIN_C13));
            let acc = horner_step(u2, SIN_C9, acc);
            let acc = horner_step(u2, SIN_C7, acc);
            let acc = horner_step(u2, SIN_C5, acc);
            let acc = horner_step(u2, SIN_C3, acc);
            match horner_step(u2, SCALE, acc) {
                Err(e) => Err(e),
                Ok(a) => fx_mul(u, a),
            }
        },
    }
}

/// Fixed-point cosine.
pub fn fx_cos(x: i64) -> (r: Result<i64, SimError>)
    ensures
        r == cos_v(x),
{
    if x < -BOUND || x > BOUND {
        return Err(SimError::NumericFault);
    }
    let u = if x < 0 {
        -x
    } else {
        x
    };
    let red = reduce(u);
    let w = if red < 0 {
        -red
    } else {
        red
    };
    if w > HALF_PI_FX {
        match cos_quarter(PI_FX - w) {
            Err(e) => Err(e),
            Ok(c) => fx_neg(c),
        }
    } else {
        cos_quarter(w)
    }
}

/// Fixed-point sine.
pub fn fx_sin(x: i64) -> (r: Result<i64, SimError>)
    ensures
        r == sin_v(x),
{
    if x < -BOUND || x > BOUND {
        return Err(SimError::NumericFault);
    }
    let u = if x < 0 {
        -x
    } else {
        x
    };
    let red = reduce(u);
    let w = if red < 0 {
        -red
    } else {
        red
    };
    let q = if w > HALF_PI_FX {
        sin_quarter(PI_FX - w)
    } else {
        sin_quarter(w)
    };
    match q {
        Err(e) => Err(e),
        Ok(s) => if (x < 0) != (red < 0) {
            fx_neg(s)
        } else {
            Ok(s)
        },
    }
}

} // verus!
