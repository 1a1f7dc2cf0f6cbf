//! Fixed-point trigonometry.
//!
//! Angles are 16.16 fixed-point radians.  `sin_fx` and `cos_fx` reduce
//! their argument into one period, fold it into the first quadrant, and
//! evaluate a polynomial there — an odd degree-7 one for the sine, an
//! even degree-8 one for the cosine, so that a zero reduced angle gives
//! exactly `ONE` for the cosine and `0` for the sine.  Results are
//! clamped into `[-ONE, ONE]`.  The spec functions state that
//! computation exactly, so callers reason about a fully determined
//! value.

use vstd::prelude::*;
use crate::fixed::{
    abs_int, div_trunc, fx_div, fx_div_spec, fx_mul, fx_mul_spec, lemma_fx_mul_nonneg, ONE,
};

verus! {

/// One half turn (pi) in fixed-point radians.
pub const PI_FX: i64 = 205887;

/// One quarter turn (pi / 2) in fixed-point radians.
pub const HALF_PI_FX: i64 = 102944;

/// One full turn (2 pi) in fixed-point radians.
pub const TWO_PI_FX: i64 = 411775;

/// Half a turn in fixed-point degrees, the divisor of the
/// degree-to-radian conversion.
pub const HALF_TURN_DEG_FX: i64 = 11796480;

/// Largest magnitude of a degree argument accepted by [`radians`].
pub const DEG_LIMIT: i64 = 17592186044416;

/// Exact value returned by [`radians`].
pub open spec fn radians_spec(d: int) -> int {
    div_trunc(d * (PI_FX as int), HALF_TURN_DEG_FX as int)
}

/// Converts fixed-point degrees to fixed-point radians.
pub fn radians(d: i64) -> (r: i64)
    requires
        abs_int(d as int) <= DEG_LIMIT,
    ensures
        r == radians_spec(d as int),
        abs_int(r as int) <= abs_int(d as int),
{
    proof {
        assert(abs_int(d as int * (PI_FX as int)) == abs_int(d as int) * (PI_FX as int))
            by (nonlinear_arith);
        assert(abs_int(d as int) * (PI_FX as int) <= DEG_LIMIT * (PI_FX as int))
            by (nonlinear_arith)
            requires
                0 <= abs_int(d as int) <= DEG_LIMIT,
        ;
        vstd::arithmetic::div_mod::lemma_div_is_ordered(
            abs_int(d as int * (PI_FX as int)),
            abs_int(d as int) * (HALF_TURN_DEG_FX as int),
            HALF_TURN_DEG_FX as int,
        );
        assert(abs_int(d as int) * (PI_FX as int) <= abs_int(d as int) * (
        HALF_TURN_DEG_FX as int)) by (nonlinear_arith)
            requires
                0 <= abs_int(d as int),
        ;
        vstd::arithmetic::div_mod::lemma_div_multiples_vanish(
            abs_int(d as int),
            HALF_TURN_DEG_FX as int,
        );
    }
    let p: i128 = (d as i128) * 205887;
    let neg: bool = p < 0;
    let mag: u128 = if neg {
        (-p) as u128
    } else {
        p as u128
    };
    let q: u128 = mag / 11796480;
    let r128: i128 = if neg {
        -(q as i128)
    } else {
        q as i128
    };
    r128 as i64
}

/// Reduction of an angle into `[0, TWO_PI_FX)`, exactly as the
/// executable code performs it.
pub open spec fn reduce_spec(x: int) -> int {
    if x >= 0 {
        x % (TWO_PI_FX as int)
    } else {
        let n = (-x) % (TWO_PI_FX as int);
        if n == 0 {
            0
        } else {
            (TWO_PI_FX as int) - n
        }
    }
}

/// Degree-7 polynomial approximating the sine on the first quadrant,
/// evaluated in fixed point with truncating divisions.
pub open spec fn sin_poly_spec(u: int) -> int {
    let u2 = fx_mul_spec(u, u);
    let u3 = fx_mul_spec(u2, u);
    let u5 = fx_mul_spec(u3, u2);
    let u7 = fx_mul_spec(u5, u2);
    u - u3 / 6 + u5 / 120 - u7 / 5040
}

/// Clamp into `[0, ONE]`, applied to the quadrant polynomial.
pub open spec fn clamp_unit_spec(v: int) -> int {
    if v < 0 {
        0
    } else if v > ONE as int {
        ONE as int
    } else {
        v
    }
}

/// Exact value returned by [`sin_fx`]: period reduction, quadrant
/// folding, polynomial, clamp, sign.
pub open spec fn sin_fx_spec(x: int) -> int {
    let m = reduce_spec(x);
    if m < HALF_PI_FX as int {
        clamp_unit_spec(sin_poly_spec(m))
    } else if m < PI_FX as int {
        clamp_unit_spec(sin_poly_spec(PI_FX as int - m))
    } else if m < PI_FX as int + HALF_PI_FX as int {
        -clamp_unit_spec(sin_poly_spec(m - PI_FX as int))
    } else {
        -clamp_unit_spec(sin_poly_spec((TWO_PI_FX as int) - m))
    }
}

/// Degree-8 even polynomial approximating the cosine on the first
/// quadrant, evaluated in fixed point with truncating divisions.  At a
/// zero argument every term after the leading `ONE` vanishes, so the
/// cosine of a zero reduced angle is exactly `ONE`.
pub open spec fn cos_poly_spec(u: int) -> int {
    let u2 = fx_mul_spec(u, u);
    let u4 = fx_mul_spec(u2, u2);
    let u6 = fx_mul_spec(u4, u2);
    let u8 = fx_mul_spec(u6, u2);
    (ONE as int) - u2 / 2 + u4 / 24 - u6 / 720 + u8 / 40320
}

/// Exact value returned by [`cos_fx`]: period reduction, quadrant
/// folding, the even polynomial, clamp, sign.
pub open spec fn cos_fx_spec(x: int) -> int {
    let m = reduce_spec(x);
    if m < HALF_PI_FX as int {
        clamp_unit_spec(cos_poly_spec(m))
    } else if m < PI_FX as int {
        -clamp_unit_spec(cos_poly_spec(PI_FX as int - m))
    } else if m < PI_FX as int + HALF_PI_FX as int {
        -clamp_unit_spec(cos_poly_spec(m - PI_FX as int))
    } else {
        clamp_unit_spec(cos_poly_spec((TWO_PI_FX as int) - m))
    }
}

/// Reduces an angle into `[0, TWO_PI_FX)`.
fn reduce(x: i64) -> (r: i64)
    ensures
        r == reduce_spec(x as int),
        0 <= r < TWO_PI_FX,
{
    if x >= 0 {
        ((x as u64) % 411775) as i64
    } else {
        let n: u64 = ((-(x as i128)) as u64) % 411775;
        if n == 0 {
            0
        } else {
            411775 - (n as i64)
        }
    }
}

/// Evaluates the quadrant polynomial and clamps it into `[0, ONE]`.
fn sin_quadrant(u: i64) -> (r: i64)
    requires
        0 <= u <= HALF_PI_FX,
    ensures
        r == clamp_unit_spec(sin_poly_spec(u as int)),
        0 <= r <= ONE,
{
    proof {
        lemma_fx_mul_nonneg(u as int, u as int, HALF_PI_FX as int, HALF_PI_FX as int);
        assert(102944int * 102944int == 10597467136int) by (nonlinear_arith);
        assert(10597467136int / 65536int == 161704int);
    }
    let u2: i64 = fx_mul(u, u);
    proof {
        lemma_fx_mul_nonneg(u2 as int, u as int, 161704, HALF_PI_FX as int);
        assert(161704int * 102944int == 16646456576int) by (nonlinear_arith);
        assert(16646456576int / 65536int == 254004int);
    }
    let u3: i64 = fx_mul(u2, u);
    proof {
        lemma_fx_mul_nonneg(u3 as int, u2 as int, 254004, 161704);
        assert(254004int * 161704int == 41073462816int) by (nonlinear_arith);
        assert(41073462816int / 65536int == 626731int);
    }
    let u5: i64 = fx_mul(u3, u2);
    proof {
        lemma_fx_mul_nonneg(u5 as int, u2 as int, 626731, 161704);
        assert(626731int * 161704int == 101344909624int) by (nonlinear_arith);
        assert(101344909624int / 65536int == 1546400int);
    }
    let u7: i64 = fx_mul(u5, u2);
    let d3: i64 = ((u3 as u64) / 6) as i64;
    let d5: i64 = ((u5 as u64) / 120) as i64;
    let d7: i64 = ((u7 as u64) / 5040) as i64;
    let p: i64 = u - d3 + d5 - d7;
    if p < 0 {
        0
    } else if p > ONE {
        ONE
    } else {
        p
    }
}

/// Fixed-point sine of a fixed-point radian angle.  The result is the
/// clamped quadrant polynomial stated by [`sin_fx_spec`], and always
/// lies in `[-ONE, ONE]`.
pub fn sin_fx(x: i64) -> (r: i64)
    ensures
        r == sin_fx_spec(x as int),
        -ONE <= r <= ONE,
{
    let m: i64 = reduce(x);
    if m < HALF_PI_FX {
        sin_quadrant(m)
    } else if m < PI_FX {
        sin_quadrant(PI_FX - m)
    } else if m < PI_FX + HALF_PI_FX {
        -sin_quadrant(m - PI_FX)
    } else {
        -sin_quadrant(TWO_PI_FX - m)
    }
}

/// Evaluates the even quadrant polynomial and clamps it into
/// `[0, ONE]`.
fn cos_quadrant(u: i64) -> (r: i64)
    requires
        0 <= u <= HALF_PI_FX,
    ensures
        r == clamp_unit_spec(cos_poly_spec(u as int)),
        0 <= r <= ONE,
{
    proof {
        lemma_fx_mul_nonneg(u as int, u as int, HALF_PI_FX as int, HALF_PI_FX as int);
        assert(102944int * 102944int == 10597467136int) by (nonlinear_arith);
        assert(10597467136int / 65536int == 161704int);
    }
    let u2: i64 = fx_mul(u, u);
    proof {
        lemma_fx_mul_nonneg(u2 as int, u2 as int, 161704, 161704);
        assert(161704int * 161704int == 26148183616int) by (nonlinear_arith);
        assert(26148183616int / 65536int == 398989int);
    }
    let u4: i64 = fx_mul(u2, u2);
    proof {
        lemma_fx_mul_nonneg(u4 as int, u2 as int, 398989, 161704);
        assert(398989int * 161704int == 64518117256int) by (nonlinear_arith);
        assert(64518117256int / 65536int == 984468int);
    }
    let u6: i64 = fx_mul(u4, u2);
    proof {
        lemma_fx_mul_nonneg(u6 as int, u2 as int, 984468, 161704);
        assert(984468int * 161704int == 159192413472int) by (nonlinear_arith);
        assert(159192413472int / 65536int == 2429083int);
    }
    let u8: i64 = fx_mul(u6, u2);
    let d2: i64 = ((u2 as u64) / 2) as i64;
    let d4: i64 = ((u4 as u64) / 24) as i64;
    let d6: i64 = ((u6 as u64) / 720) as i64;
    let d8: i64 = ((u8 as u64) / 40320) as i64;
    let p: i64 = ONE - d2 + d4 - d6 + d8;
    if p < 0 {
        0
    } else if p > ONE {
        ONE
    } else {
        p
    }
}

/// Fixed-point cosine of a fixed-point radian angle.  The result is
/// the clamped even quadrant polynomial stated by [`cos_fx_spec`], and
/// always lies in `[-ONE, ONE]`.  A zero reduced angle gives exactly
/// `ONE`.
pub fn cos_fx(x: i64) -> (r: i64)
    ensures
        r == cos_fx_spec(x as int),
        -ONE <= r <= ONE,
{
    let m: i64 = reduce(x);
    if m < HALF_PI_FX {
        cos_quadrant(m)
    } else if m < PI_FX {
        -cos_quadrant(PI_FX - m)
    } else if m < PI_FX + HALF_PI_FX {
        -cos_quadrant(m - PI_FX)
    } else {
        cos_quadrant(TWO_PI_FX - m)
    }
}

/// Fixed-point tangent: the sine divided by the cosine.  Returns `None`
/// exactly when the computed cosine is zero (a quarter-turn
/// singularity), so no division by zero can occur.
pub fn tan_fx(x: i64) -> (r: Option<i64>)
    ensures
        match r {
            Some(v) => cos_fx_spec(x as int) != 0 && v == fx_div_spec(
                sin_fx_spec(x as int),
                cos_fx_spec(x as int),
            ),
            None => cos_fx_spec(x as int) == 0,
        },
{
    let c: i64 = cos_fx(x);
    if c == 0 {
        None
    } else {
        let s: i64 = sin_fx(x);
        proof {
            assert(abs_int(s as int * (ONE as int)) <= (ONE as int) * (ONE as int))
                by (nonlinear_arith)
                requires
                    abs_int(s as int) <= ONE as int,
            ;
            vstd::arithmetic::div_mod::lemma_div_is_ordered(
                abs_int(s as int * (ONE as int)),
                (ONE as int) * (ONE as int),
                abs_int(c as int),
            );
            vstd::arithmetic::div_mod::lemma_div_is_ordered_by_denominator(
                (ONE as int) * (ONE as int),
                1,
                abs_int(c as int),
            );
        }
        Some(fx_div(s, c))
    }
}

} // verus!
