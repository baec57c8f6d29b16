//! Fixed-point scalar arithmetic for the pendulum core.
//!
//! A real quantity is carried as a signed 64-bit integer holding the value
//! scaled by `SCALE` (2^32): `raw` stands for the real number `raw / SCALE`.
//! Every operation checks its operands and its result against `BOUND`; a
//! value that leaves the representable range surfaces as
//! `SimError::NumericFault` instead of wrapping silently.

use vstd::prelude::*;

verus! {

/// Failure taxonomy of the simulation core.  All three conditions are fatal
/// to the simulation request that raised them; no partial results are kept.
#[derive(Clone, Copy, Debug, PartialEq, Eq, Structural)]
pub enum SimError {
    /// A parameter sequence's length does not match the pendulum count.
    InvalidDimension,
    /// The mass matrix offered no usable pivot at some elimination stage.
    SingularSystem,
    /// A fixed-point operation left the representable range.
    NumericFault,
}

/// One unit: the raw representation of the real number 1.
pub const SCALE: i64 = 4294967296;

/// Largest raw magnitude a scalar may take (2^62 - 1).  Keeping a bit of
/// headroom below `i64::MAX` lets sums of two scalars be formed without
/// machine overflow before the range check.
pub const BOUND: i64 = 4611686018427387903;

/// A raw value within the representable range.
pub open spec fn in_bound(a: int) -> bool {
    -(BOUND as int) <= a <= BOUND as int
}

/// Absolute value on mathematical integers.
pub open spec fn iabs(x: int) -> int {
    if x < 0 { -x } else { x }
}

/// Division truncating toward zero, as the machine division does.
/// Only meaningful for `d != 0`.
pub open spec fn tdiv(x: int, d: int) -> int {
    if x == 0 {
        0
    } else if x > 0 && d > 0 {
        x / d
    } else if x < 0 && d < 0 {
        (x * -1) / (d * -1)
    } else if x < 0 {
        ((x * -1) / d) * -1
    } else {
        (x / (d * -1)) * -1
    }
}

/// Checked fixed-point addition.
pub open spec fn add_v(a: i64, b: i64) -> Result<i64, SimError> {
    if !in_bound(a as int) || !in_bound(b as int) {
        Err(SimError::NumericFault)
    } else if in_bound(a + b) {
        Ok((a + b) as i64)
    } else {
        Err(SimError::NumericFault)
    }
}

/// Checked fixed-point subtraction.
pub open spec fn sub_v(a: i64, b: i64) -> Result<i64, SimError> {
    if !in_bound(a as int) || !in_bound(b as int) {
        Err(SimError::NumericFault)
    } else if in_bound(a - b) {
        Ok((a - b) as i64)
    } else {
        Err(SimError::NumericFault)
    }
}

/// Checked fixed-point negation.  Never fails on an in-range operand,
/// since the range is symmetric.
pub open spec fn neg_v(a: i64) -> Result<i64, SimError> {
    if !in_bound(a as int) {
        Err(SimError::NumericFault)
    } else {
        Ok((-(a as int)) as i64)
    }
}

/// Checked fixed-point multiplication: the double-width product is divided
/// by `SCALE`, truncating toward zero.
pub open spec fn mul_v(a: i64, b: i64) -> Result<i64, SimError> {
    if !in_bound(a as int) || !in_bound(b as int) {
        Err(SimError::NumericFault)
    } else {
        let q = tdiv(a as int * b as int, SCALE as int);
        if in_bound(q) {
            Ok(q as i64)
        } else {
            Err(SimError::NumericFault)
        }
    }
}

/// Checked fixed-point division: the numerator is widened by `SCALE` and
/// divided truncating toward zero.  Division by zero is a numeric fault.
pub open spec fn div_v(a: i64, b: i64) -> Result<i64, SimError> {
    if !in_bound(a as int) || !in_bound(b as int) || b == 0 {
        Err(SimError::NumericFault)
    } else {
        let q = tdiv(a as int * SCALE as int, b as int);
        if in_bound(q) {
            Ok(q as i64)
        } else {
            Err(SimError::NumericFault)
        }
    }
}

/// Conversion of a plain integer to its fixed-point representation.
pub open spec fn from_int_v(i: i64) -> Result<i64, SimError> {
    if in_bound(i as int * SCALE as int) {
        Ok((i as int * SCALE as int) as i64)
    } else {
        Err(SimError::NumericFault)
    }
}

/// The product of two integers bounded by `m` in magnitude is bounded by
/// `m * m` in magnitude.
pub proof fn lemma_mul_bound(a: int, b: int, m: int)
    requires
        0 <= m,
        -m <= a <= m,
        -m <= b <= m,
    ensures
        -(m * m) <= a * b <= m * m,
{
    assert(-(m * m) <= a * b <= m * m) by (nonlinear_arith)
        requires
            0 <= m,
            -m <= a <= m,
            -m <= b <= m,
    ;
}

/// Truncating division never grows the magnitude when the divisor's
/// magnitude is at least one.
proof fn lemma_tdiv_bound(x: int, d: int)
    requires
        d != 0,
    ensures
        iabs(tdiv(x, d)) <= iabs(x),
{
    if x == 0 {
    } else if x > 0 && d > 0 {
        lemma_nonneg_div_le(x, d);
    } else if x < 0 && d < 0 {
        lemma_nonneg_div_le(x * -1, d * -1);
    } else if x < 0 {
        lemma_nonneg_div_le(x * -1, d);
    } else {
        lemma_nonneg_div_le(x, d * -1);
    }
}

/// Euclidean division of a nonnegative integer by a positive one does not
/// exceed the dividend.
proof fn lemma_nonneg_div_le(x: int, d: int)
    requires
        0 <= x,
        1 <= d,
    ensures
        0 <= x / d <= x,
{
    assert(0 <= x / d <= x) by (nonlinear_arith)
        requires
            0 <= x,
            1 <= d,
    ;
}

/// The machine's truncating quotient agrees with `tdiv`.
pub proof fn lemma_checked_div_is_tdiv(x: i128, d: i128)
    requires
        d != 0,
        x != i128::MIN,
    ensures
        x.checked_div(d) matches Some(q) && q as int == tdiv(x as int, d as int),
{
    lemma_tdiv_bound(x as int, d as int);
    let xi = x as int;
    let di = d as int;
    let out = tdiv(xi, di);
    assert(iabs(out) <= iabs(xi));
    assert(i128::MIN as int <= out <= i128::MAX as int);
    assert(x.checked_div(d) == Some(out as i128));
}

/// Fixed-point addition; relies on nothing outside this crate.
pub fn fx_add(a: i64, b: i64) -> (r: Result<i64, SimError>)
    ensures
        r == add_v(a, b),
{
    if a < -BOUND || a > BOUND || b < -BOUND || b > BOUND {
        Err(SimError::NumericFault)
    } else {
        let s = a + b;
        if s < -BOUND || s > BOUND {
            Err(SimError::NumericFault)
        } else {
            Ok(s)
        }
    }
}

/// Fixed-point subtraction.
pub fn fx_sub(a: i64, b: i64) -> (r: Result<i64, SimError>)
    ensures
        r == sub_v(a, b),
{
    if a < -BOUND || a > BOUND || b < -BOUND || b > BOUND {
        Err(SimError::NumericFault)
    } else {
        let s = a - b;
        if s < -BOUND || s > BOUND {
            Err(SimError::NumericFault)
        } else {
            Ok(s)
        }
    }
}

/// Fixed-point negation.
pub fn fx_neg(a: i64) -> (r: Result<i64, SimError>)
    ensures
        r == neg_v(a),
{
    if a < -BOUND || a > BOUND {
        Err(SimError::NumericFault)
    } else {
        Ok(-a)
    }
}

/// Fixed-point multiplication.
pub fn fx_mul(a: i64, b: i64) -> (r: Result<i64, SimError>)
    ensures
        r == mul_v(a, b),
{
    if a < -BOUND || a > BOUND || b < -BOUND || b > BOUND {
        Err(SimError::NumericFault)
    } else {
        proof {
            lemma_mul_bound(a as int, b as int, BOUND as int);
        }
        let p: i128 = (a as i128) * (b as i128);
        proof {
            assert(p != i128::MIN);
            lemma_checked_div_is_tdiv(p, SCALE as i128);
        }
        let q: i128 = p.checked_div(SCALE as i128).unwrap();
        if q < -(BOUND as i128) || q > BOUND as i128 {
            Err(SimError::NumericFault)
        } else {
            Ok(q as i64)
        }
    }
}

/// Fixed-point division.
pub fn fx_div(a: i64, b: i64) -> (r: Result<i64, SimError>)
    ensures
        r == div_v(a, b),
{
    if a < -BOUND || a > BOUND || b < -BOUND || b > BOUND || b == 0 {
        Err(SimError::NumericFault)
    } else {
        proof {
            lemma_mul_bound(a as int, SCALE as int, BOUND as int);
        }
        let p: i128 = (a as i128) * (SCALE as i128);
        proof {
            assert(p != i128::MIN);
            lemma_checked_div_is_tdiv(p, b as i128);
        }
        let q: i128 = p.checked_div(b as i128).unwrap();
        if q < -(BOUND as i128) || q > BOUND as i128 {
            Err(SimError::NumericFault)
        } else {
            Ok(q as i64)
        }
    }
}

/// Conversion of a plain integer count to a fixed-point scalar.
pub fn fx_from_int(i: i64) -> (r: Result<i64, SimError>)
    ensures
        r == from_int_v(i),
{
    let p: i128 = (i as i128) * (SCALE as i128);
    if p < -(BOUND as i128) || p > BOUND as i128 {
        Err(SimError::NumericFault)
    } else {
        Ok(p as i64)
    }
}

} // verus!
