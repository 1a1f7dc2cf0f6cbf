//! Vectors, matrices and the camera.
//!
//! `Vec3` is a three-component vector and `Mat4x4` a row-major 4x4
//! matrix of homogeneous coordinates, both over 16.16 fixed-point
//! scalars.  Every operation's contract states the exact integer result;
//! the `requires` clauses hold only the machine limits that keep the
//! exact result representable in an `i64`.

use vstd::prelude::*;
use crate::fixed::{
    abs_int, div_trunc, fx_div, fx_div_spec, fx_mul, fx_mul_spec, isqrt_u64, sqrt_floor, sqrt_helper,
    lemma_fx_mul_abs, lemma_prod_abs_bound, ONE,
};
use crate::trig::{cos_fx, cos_fx_spec, radians, radians_spec, sin_fx, sin_fx_spec, DEG_LIMIT};

verus! {

/// Largest component magnitude accepted by the length, normalization
/// and matrix-building operations: 2^31 units, or 32768.0.
pub const LEN_LIMIT: i64 = 2147483648;

/// Largest magnitude a vector component may have for the componentwise
/// products and the dot product to stay within `i128` intermediates:
/// 2^62 units.
pub const COMP_LIMIT: i64 = 4611686018427387904;

/// A three-component fixed-point vector.
#[derive(Clone, Copy, Debug, PartialEq, Eq, Structural)]
pub struct Vec3 {
    pub x: i64,
    pub y: i64,
    pub z: i64,
}

/// The exact dot product of two vectors: the rescaled sum of the
/// componentwise products, rounded toward zero.
pub open spec fn dot_spec(a: Vec3, b: Vec3) -> int {
    div_trunc(
        a.x as int * b.x as int + a.y as int * b.y as int + a.z as int * b.z as int,
        ONE as int,
    )
}

/// The exact squared length of a vector.
pub open spec fn len_sq_spec(v: Vec3) -> int {
    dot_spec(v, v)
}

/// All three components have magnitude at most `m`.
pub open spec fn vec_bounded(v: Vec3, m: int) -> bool {
    abs_int(v.x as int) <= m && abs_int(v.y as int) <= m && abs_int(v.z as int) <= m
}

/// The exact fixed-point length of a vector: the integer square root of
/// the squared length brought back to scale.
pub open spec fn len_spec(v: Vec3) -> int {
    sqrt_floor(len_sq_spec(v) * (ONE as int))
}

/// One exact doubling of each component.
pub open spec fn vec_double(v: Vec3) -> Vec3 {
    Vec3 { x: (2 * v.x as int) as i64, y: (2 * v.y as int) as i64, z: (2 * v.z as int) as i64 }
}

/// `v` doubled until its fixed-point squared length reaches a quarter
/// unit, with at most `fuel` doublings.
pub open spec fn prescale_steps(v: Vec3, fuel: nat) -> Vec3
    decreases fuel,
{
    if fuel == 0 || len_sq_spec(v) >= 16384 {
        v
    } else {
        prescale_steps(vec_double(v), (fuel - 1) as nat)
    }
}

/// The pre-scaled form of `v` that normalization divides: `v` doubled,
/// at most seven times, until its fixed-point squared length is at
/// least a quarter unit.  Doubling is exact and keeps the direction,
/// and any vector of positive fixed-point squared length reaches the
/// threshold within seven doublings, so the division below is accurate
/// for every admitted input.
pub open spec fn prescaled(v: Vec3) -> Vec3 {
    prescale_steps(v, 7)
}

/// The vector `v` scaled to (approximately) unit length: each
/// component of the pre-scaled form divided by its fixed-point length,
/// rounded toward zero.
pub open spec fn normalized_spec(v: Vec3) -> Vec3 {
    let w = prescaled(v);
    Vec3 {
        x: div_trunc(w.x as int * (ONE as int), len_spec(w)) as i64,
        y: div_trunc(w.y as int * (ONE as int), len_spec(w)) as i64,
        z: div_trunc(w.z as int * (ONE as int), len_spec(w)) as i64,
    }
}

/// The raw sum of the squared components: the squared length before
/// rescaling by `ONE`.
spec fn sum_sq(v: Vec3) -> int {
    v.x as int * v.x as int + v.y as int * v.y as int + v.z as int * v.z as int
}

/// `w` is `v` scaled by the integer factor `m` in every component.
spec fn is_scale_of(w: Vec3, v: Vec3, m: int) -> bool {
    w.x as int == m * v.x as int && w.y as int == m * v.y as int && w.z as int == m * v.z as int
}

/// The powers of two.
spec fn two_pow(k: nat) -> int
    decreases k,
{
    if k == 0 {
        1
    } else {
        2 * two_pow((k - 1) as nat)
    }
}

impl Vec3 {
    /// The zero vector.
    pub fn zero() -> (r: Vec3)
        ensures
            r == (Vec3 { x: 0i64, y: 0i64, z: 0i64 }),
    {
        Vec3 { x: 0, y: 0, z: 0 }
    }

    /// Unit vector along positive y.
    pub fn up() -> (r: Vec3)
        ensures
            r == (Vec3 { x: 0i64, y: ONE, z: 0i64 }),
    {
        Vec3 { x: 0, y: ONE, z: 0 }
    }

    /// Unit vector along negative y.
    pub fn down() -> (r: Vec3)
        ensures
            r.x == 0 && r.y == -(ONE as int) && r.z == 0,
    {
        Vec3 { x: 0, y: -ONE, z: 0 }
    }

    /// Unit vector along positive z.
    pub fn front() -> (r: Vec3)
        ensures
            r == (Vec3 { x: 0i64, y: 0i64, z: ONE }),
    {
        Vec3 { x: 0, y: 0, z: ONE }
    }

    /// Unit vector along negative z.
    pub fn back() -> (r: Vec3)
        ensures
            r.x == 0 && r.y == 0 && r.z == -(ONE as int),
    {
        Vec3 { x: 0, y: 0, z: -ONE }
    }

    /// Unit vector along positive x.
    pub fn left() -> (r: Vec3)
        ensures
            r == (Vec3 { x: ONE, y: 0i64, z: 0i64 }),
    {
        Vec3 { x: ONE, y: 0, z: 0 }
    }

    /// Unit vector along negative x.
    pub fn right() -> (r: Vec3)
        ensures
            r.x == -(ONE as int) && r.y == 0 && r.z == 0,
    {
        Vec3 { x: -ONE, y: 0, z: 0 }
    }

    /// The x component.
    pub fn x(self) -> (r: i64)
        ensures
            r == self.x,
    {
        self.x
    }

    /// The y component.
    pub fn y(self) -> (r: i64)
        ensures
            r == self.y,
    {
        self.y
    }

    /// The z component.
    pub fn z(self) -> (r: i64)
        ensures
            r == self.z,
    {
        self.z
    }

    /// Componentwise sum.
    pub fn add(self, rhs: Vec3) -> (r: Vec3)
        requires
            i64::MIN <= self.x as int + rhs.x as int <= i64::MAX,
            i64::MIN <= self.y as int + rhs.y as int <= i64::MAX,
            i64::MIN <= self.z as int + rhs.z as int <= i64::MAX,
        ensures
            r.x == self.x as int + rhs.x as int,
            r.y == self.y as int + rhs.y as int,
            r.z == self.z as int + rhs.z as int,
    {
        Vec3 { x: self.x + rhs.x, y: self.y + rhs.y, z: self.z + rhs.z }
    }

    /// Componentwise difference.
    pub fn sub(self, rhs: Vec3) -> (r: Vec3)
        requires
            i64::MIN <= self.x as int - rhs.x as int <= i64::MAX,
            i64::MIN <= self.y as int - rhs.y as int <= i64::MAX,
            i64::MIN <= self.z as int - rhs.z as int <= i64::MAX,
        ensures
            r.x == self.x as int - rhs.x as int,
            r.y == self.y as int - rhs.y as int,
            r.z == self.z as int - rhs.z as int,
    {
        Vec3 { x: self.x - rhs.x, y: self.y - rhs.y, z: self.z - rhs.z }
    }

    /// Componentwise negation.
    pub fn neg(self) -> (r: Vec3)
        requires
            self.x != i64::MIN,
            self.y != i64::MIN,
            self.z != i64::MIN,
        ensures
            r.x == -(self.x as int),
            r.y == -(self.y as int),
            r.z == -(self.z as int),
    {
        Vec3 { x: -self.x, y: -self.y, z: -self.z }
    }

    /// Componentwise fixed-point product.
    pub fn mul(self, rhs: Vec3) -> (r: Vec3)
        requires
            i64::MIN <= fx_mul_spec(self.x as int, rhs.x as int) <= i64::MAX,
            i64::MIN <= fx_mul_spec(self.y as int, rhs.y as int) <= i64::MAX,
            i64::MIN <= fx_mul_spec(self.z as int, rhs.z as int) <= i64::MAX,
        ensures
            r.x == fx_mul_spec(self.x as int, rhs.x as int),
            r.y == fx_mul_spec(self.y as int, rhs.y as int),
            r.z == fx_mul_spec(self.z as int, rhs.z as int),
    {
        Vec3 { x: fx_mul(self.x, rhs.x), y: fx_mul(self.y, rhs.y), z: fx_mul(self.z, rhs.z) }
    }

    /// Componentwise fixed-point quotient.
    pub fn div(self, rhs: Vec3) -> (r: Vec3)
        requires
            rhs.x != 0 && rhs.y != 0 && rhs.z != 0,
            i64::MIN <= fx_div_spec(self.x as int, rhs.x as int) <= i64::MAX,
            i64::MIN <= fx_div_spec(self.y as int, rhs.y as int) <= i64::MAX,
            i64::MIN <= fx_div_spec(self.z as int, rhs.z as int) <= i64::MAX,
        ensures
            r.x == fx_div_spec(self.x as int, rhs.x as int),
            r.y == fx_div_spec(self.y as int, rhs.y as int),
            r.z == fx_div_spec(self.z as int, rhs.z as int),
    {
        Vec3 { x: fx_div(self.x, rhs.x), y: fx_div(self.y, rhs.y), z: fx_div(self.z, rhs.z) }
    }

    /// The vector scaled by a fixed-point scalar.
    pub fn mul_scalar(self, k: i64) -> (r: Vec3)
        requires
            i64::MIN <= fx_mul_spec(k as int, self.x as int) <= i64::MAX,
            i64::MIN <= fx_mul_spec(k as int, self.y as int) <= i64::MAX,
            i64::MIN <= fx_mul_spec(k as int, self.z as int) <= i64::MAX,
        ensures
            r.x == fx_mul_spec(k as int, self.x as int),
            r.y == fx_mul_spec(k as int, self.y as int),
            r.z == fx_mul_spec(k as int, self.z as int),
    {
        Vec3 { x: fx_mul(k, self.x), y: fx_mul(k, self.y), z: fx_mul(k, self.z) }
    }

    /// The vector divided by a fixed-point scalar.
    pub fn div_scalar(self, k: i64) -> (r: Vec3)
        requires
            k != 0,
            i64::MIN <= fx_div_spec(self.x as int, k as int) <= i64::MAX,
            i64::MIN <= fx_div_spec(self.y as int, k as int) <= i64::MAX,
            i64::MIN <= fx_div_spec(self.z as int, k as int) <= i64::MAX,
        ensures
            r.x == fx_div_spec(self.x as int, k as int),
            r.y == fx_div_spec(self.y as int, k as int),
            r.z == fx_div_spec(self.z as int, k as int),
    {
        Vec3 { x: fx_div(self.x, k), y: fx_div(self.y, k), z: fx_div(self.z, k) }
    }

    /// Dot product.
    pub fn dot(self, v: Vec3) -> (r: i64)
        requires
            vec_bounded(self, COMP_LIMIT as int),
            vec_bounded(v, COMP_LIMIT as int),
            i64::MIN <= dot_spec(self, v) <= i64::MAX,
        ensures
            r == dot_spec(self, v),
    {
        proof {
            lemma_prod_abs_bound(self.x as int, v.x as int, COMP_LIMIT as int);
            lemma_prod_abs_bound(self.y as int, v.y as int, COMP_LIMIT as int);
            lemma_prod_abs_bound(self.z as int, v.z as int, COMP_LIMIT as int);
        }
        let p: i128 = (self.x as i128) * (v.x as i128) + (self.y as i128) * (v.y as i128) + (
        self.z as i128) * (v.z as i128);
        let neg: bool = p < 0;
        let mag: u128 = if neg {
            (-p) as u128
        } else {
            p as u128
        };
        let q: u128 = mag / 65536;
        let r128: i128 = if neg {
            -(q as i128)
        } else {
            q as i128
        };
        r128 as i64
    }

    /// Cross product by the standard determinant expansion
    /// (right-hand rule).
    pub fn cross(self, v: Vec3) -> (r: Vec3)
        requires
            vec_bounded(self, LEN_LIMIT as int),
            vec_bounded(v, LEN_LIMIT as int),
        ensures
            r.x == fx_mul_spec(self.y as int, v.z as int) - fx_mul_spec(
                self.z as int,
                v.y as int,
            ),
            r.y == fx_mul_spec(self.z as int, v.x as int) - fx_mul_spec(
                self.x as int,
                v.z as int,
            ),
            r.z == fx_mul_spec(self.x as int, v.y as int) - fx_mul_spec(
                self.y as int,
                v.x as int,
            ),
    {
        proof {
            lemma_fx_mul_abs(self.y as int, v.z as int, LEN_LIMIT as int, LEN_LIMIT as int);
            lemma_fx_mul_abs(self.z as int, v.y as int, LEN_LIMIT as int, LEN_LIMIT as int);
            lemma_fx_mul_abs(self.z as int, v.x as int, LEN_LIMIT as int, LEN_LIMIT as int);
            lemma_fx_mul_abs(self.x as int, v.z as int, LEN_LIMIT as int, LEN_LIMIT as int);
            lemma_fx_mul_abs(self.x as int, v.y as int, LEN_LIMIT as int, LEN_LIMIT as int);
            lemma_fx_mul_abs(self.y as int, v.x as int, LEN_LIMIT as int, LEN_LIMIT as int);
        }
        Vec3 {
            x: fx_mul(self.y, v.z) - fx_mul(self.z, v.y),
            y: fx_mul(self.z, v.x) - fx_mul(self.x, v.z),
            z: fx_mul(self.x, v.y) - fx_mul(self.y, v.x),
        }
    }

    /// Squared length.
    pub fn len_squared(self) -> (r: i64)
        requires
            vec_bounded(self, LEN_LIMIT as int),
        ensures
            r == len_sq_spec(self),
            0 <= r <= 0xC00000000000,
    {
        proof {
            lemma_len_sq_bounds(self);
        }
        self.dot(self)
    }

    /// Fixed-point length: `sqrt(len_squared)` brought back to scale.
    pub fn len(self) -> (r: i64)
        requires
            vec_bounded(self, LEN_LIMIT as int),
        ensures
            r == len_spec(self),
            0 <= r,
            r * r <= len_sq_spec(self) * ONE < (r + 1) * (r + 1),
    {
        let sq: i64 = self.len_squared();
        let n: u64 = (sq as u64) * 65536;
        let root: u64 = isqrt_u64(n);
        proof {
            if root >= 4294967296 {
                assert(root as int * root as int >= 4294967296int * 4294967296int)
                    by (nonlinear_arith)
                    requires
                        root as int >= 4294967296,
                ;
                assert(false);
            }
        }
        root as i64
    }

    /// The vector scaled to unit length (within the fixed-point
    /// rounding stated by [`normalized_spec`]).  Requires a nonzero
    /// squared length; small vectors are first doubled onto the
    /// accuracy threshold, so for every admitted input the result's
    /// squared length is within 16 fixed-point units of `ONE`, and
    /// every component of the result is at most 2.0 in magnitude.
    pub fn normalized(self) -> (r: Vec3)
        requires
            vec_bounded(self, LEN_LIMIT as int),
            len_sq_spec(self) > 0,
        ensures
            r == normalized_spec(self),
            vec_bounded(r, 2 * ONE as int),
            (ONE as int) - 16 <= len_sq_spec(r) <= (ONE as int) + 16,
    {
        let mut w: Vec3 = self;
        let mut k: usize = 0;
        let mut sq: i64 = w.len_squared();
        while sq < 16384 && k < 7
            invariant
                k <= 7,
                vec_bounded(w, LEN_LIMIT as int),
                len_sq_spec(w) > 0,
                sq == len_sq_spec(w),
                prescale_steps(w, (7 - k) as nat) == prescaled(self),
            decreases 7 - k,
        {
            let ghost wp = w;
            proof {
                lemma_double_small(wp);
                assert(prescale_steps(wp, (7 - k) as nat) == prescale_steps(
                    vec_double(wp),
                    (7 - (k + 1)) as nat,
                ));
            }
            w = Vec3 { x: 2 * w.x, y: 2 * w.y, z: 2 * w.z };
            proof {
                assert(w == vec_double(wp));
            }
            k = k + 1;
            sq = w.len_squared();
        }
        proof {
            lemma_prescaled_props(self);
            if sq >= 16384 {
                assert(prescale_steps(w, (7 - k) as nat) == w);
            } else {
                assert(k == 7);
                assert(prescale_steps(w, (7 - k) as nat) == w);
            }
            assert(w == prescaled(self));
            lemma_norm_bounds(w);
            lemma_near_unit_direct(w);
        }
        let l: i64 = w.len();
        let r = Vec3 { x: fx_div(w.x, l), y: fx_div(w.y, l), z: fx_div(w.z, l) };
        proof {
            assert(r == normalized_spec(w));
            assert(r == normalized_spec(self));
        }
        r
    }
}

/// The squared length of a bounded vector is nonnegative and fits well
/// inside an `i64`.
proof fn lemma_len_sq_bounds(v: Vec3)
    requires
        vec_bounded(v, LEN_LIMIT as int),
    ensures
        0 <= len_sq_spec(v) <= 0xC00000000000,
        len_sq_spec(v) == (v.x as int * v.x as int + v.y as int * v.y as int + v.z as int
            * v.z as int) / (ONE as int),
{
    let q = v.x as int * v.x as int + v.y as int * v.y as int + v.z as int * v.z as int;
    assert(0 <= v.x as int * v.x as int <= LEN_LIMIT as int * LEN_LIMIT as int)
        by (nonlinear_arith)
        requires
            abs_int(v.x as int) <= LEN_LIMIT as int,
    ;
    assert(0 <= v.y as int * v.y as int <= LEN_LIMIT as int * LEN_LIMIT as int)
        by (nonlinear_arith)
        requires
            abs_int(v.y as int) <= LEN_LIMIT as int,
    ;
    assert(0 <= v.z as int * v.z as int <= LEN_LIMIT as int * LEN_LIMIT as int)
        by (nonlinear_arith)
        requires
            abs_int(v.z as int) <= LEN_LIMIT as int,
    ;
    vstd::arithmetic::div_mod::lemma_div_is_ordered(q, 3 * (LEN_LIMIT as int) * (LEN_LIMIT as int), ONE as int);
    vstd::arithmetic::div_mod::lemma_div_pos_is_pos(q, ONE as int);
    assert(3 * (LEN_LIMIT as int) * (LEN_LIMIT as int) / (ONE as int) == 0xC00000000000);
}

/// A vector with positive squared length has fixed-point length at
/// least 256 (the square root of `ONE`).
proof fn lemma_len_lower(v: Vec3)
    requires
        vec_bounded(v, LEN_LIMIT as int),
        len_sq_spec(v) > 0,
    ensures
        len_spec(v) >= 256,
{
    let s = len_sq_spec(v);
    let n = s * (ONE as int);
    let l = len_spec(v);
    lemma_len_sq_bounds(v);
    assert((ONE as int) <= n <= 0xC00000000000int * (ONE as int)) by (nonlinear_arith)
        requires
            1 <= s <= 0xC00000000000,
            n == s * (ONE as int),
    ;
    lemma_sqrt_floor_bracket(n);
    if l <= 255 {
        assert((l + 1) * (l + 1) <= 256 * 256) by (nonlinear_arith)
            requires
                0 <= l + 1 <= 256,
        ;
        assert(false);
    }
}

/// A vector of positive fixed-point squared length has a raw squared
/// length of at least `ONE`.
proof fn lemma_possq(v: Vec3)
    requires
        len_sq_spec(v) > 0,
    ensures
        sum_sq(v) >= 65536,
        sum_sq(v) >= 0,
{
    let q = sum_sq(v);
    assert(v.x as int * v.x as int + v.y as int * v.y as int + v.z as int * v.z as int >= 0)
        by (nonlinear_arith);
    assert(len_sq_spec(v) == div_trunc(q, ONE as int));
    vstd::arithmetic::div_mod::lemma_fundamental_div_mod(q, ONE as int);
    vstd::arithmetic::div_mod::lemma_mod_bound(q, ONE as int);
    assert(q == 65536 * (q / 65536) + q % 65536);
    assert(q / 65536 >= 1);
    assert(65536 * (q / 65536) >= 65536 * 1) by (nonlinear_arith)
        requires
            q / 65536 >= 1,
    ;
}

/// Doubling a vector short of the accuracy threshold is exact: its
/// components are small enough to double in an `i64`, the raw squared
/// length quadruples, and the squared length stays positive.
proof fn lemma_double_small(v: Vec3)
    requires
        0 < len_sq_spec(v) < 16384,
    ensures
        abs_int(v.x as int) <= 32767,
        abs_int(v.y as int) <= 32767,
        abs_int(v.z as int) <= 32767,
        vec_bounded(vec_double(v), LEN_LIMIT as int),
        sum_sq(vec_double(v)) == 4 * sum_sq(v),
        len_sq_spec(vec_double(v)) > 0,
{
    let q = sum_sq(v);
    lemma_possq(v);
    vstd::arithmetic::div_mod::lemma_fundamental_div_mod(q, ONE as int);
    vstd::arithmetic::div_mod::lemma_mod_bound(q, ONE as int);
    assert(q / 65536 <= 16383);
    assert(65536 * (q / 65536) <= 65536 * 16383) by (nonlinear_arith)
        requires
            q / 65536 <= 16383,
    ;
    assert(q <= 1073741823);
    assert(abs_int(v.x as int) <= 32767 && abs_int(v.y as int) <= 32767 && abs_int(v.z as int)
        <= 32767) by (nonlinear_arith)
        requires
            v.x as int * v.x as int + v.y as int * v.y as int + v.z as int * v.z as int
                <= 1073741823,
    ;
    let d = vec_double(v);
    assert(sum_sq(d) == 4 * q) by (nonlinear_arith)
        requires
            d.x as int == 2 * v.x as int,
            d.y as int == 2 * v.y as int,
            d.z as int == 2 * v.z as int,
            q == v.x as int * v.x as int + v.y as int * v.y as int + v.z as int * v.z as int,
    ;
    assert(len_sq_spec(d) == div_trunc(4 * q, ONE as int));
    vstd::arithmetic::div_mod::lemma_div_is_ordered(65536, 4 * q, ONE as int);
    assert(65536int / 65536int == 1);
}

/// Pre-scaling facts, by induction on the fuel: the pre-scaled vector
/// is a power-of-two multiple of `v`, stays bounded, keeps a positive
/// squared length, and falls short of the accuracy threshold only when
/// every doubling was spent.
proof fn lemma_prescale_steps(v: Vec3, fuel: nat)
    requires
        fuel <= 7,
        vec_bounded(v, LEN_LIMIT as int),
        len_sq_spec(v) > 0,
    ensures
        vec_bounded(prescale_steps(v, fuel), LEN_LIMIT as int),
        len_sq_spec(prescale_steps(v, fuel)) > 0,
        exists|m: int|
            1 <= m <= two_pow(fuel) && #[trigger] is_scale_of(prescale_steps(v, fuel), v, m)
                && sum_sq(prescale_steps(v, fuel)) == m * m * sum_sq(v) && (len_sq_spec(
                prescale_steps(v, fuel),
            ) < 16384 ==> m == two_pow(fuel)),
    decreases fuel,
{
    let r = prescale_steps(v, fuel);
    if fuel == 0 || len_sq_spec(v) >= 16384 {
        assert(r == v);
        assert(is_scale_of(v, v, 1));
        assert(1 * 1 * sum_sq(v) == sum_sq(v)) by (nonlinear_arith);
        if fuel != 0 {
            assert(two_pow(fuel) >= 2) by {
                lemma_two_pow_at_least(fuel);
            };
        }
        assert(1 <= 1 <= two_pow(fuel) && is_scale_of(r, v, 1) && sum_sq(r) == 1 * 1 * sum_sq(v)
            && (len_sq_spec(r) < 16384 ==> 1 == two_pow(fuel)));
    } else {
        lemma_double_small(v);
        let d = vec_double(v);
        lemma_prescale_steps(d, (fuel - 1) as nat);
        assert(r == prescale_steps(d, (fuel - 1) as nat));
        let m0 = choose|m0: int|
            1 <= m0 <= two_pow((fuel - 1) as nat) && #[trigger] is_scale_of(r, d, m0) && sum_sq(r)
                == m0 * m0 * sum_sq(d) && (len_sq_spec(r) < 16384 ==> m0 == two_pow(
                (fuel - 1) as nat,
            ));
        let m = 2 * m0;
        assert(is_scale_of(r, v, m)) by (nonlinear_arith)
            requires
                is_scale_of(r, d, m0),
                d.x as int == 2 * v.x as int,
                d.y as int == 2 * v.y as int,
                d.z as int == 2 * v.z as int,
                m == 2 * m0,
        ;
        assert(sum_sq(r) == m * m * sum_sq(v)) by (nonlinear_arith)
            requires
                sum_sq(r) == m0 * m0 * sum_sq(d),
                sum_sq(d) == 4 * sum_sq(v),
                m == 2 * m0,
        ;
        assert(m <= two_pow(fuel));
        assert(1 <= m <= two_pow(fuel) && is_scale_of(r, v, m) && sum_sq(r) == m * m * sum_sq(v)
            && (len_sq_spec(r) < 16384 ==> m == two_pow(fuel)));
    }
}

/// Every power of two with a positive exponent is at least two.
proof fn lemma_two_pow_at_least(k: nat)
    requires
        k >= 1,
    ensures
        two_pow(k) >= 2,
    decreases k,
{
    if k > 1 {
        lemma_two_pow_at_least((k - 1) as nat);
    } else {
        assert(two_pow(0nat) == 1);
        assert(two_pow(1nat) == 2);
    }
}

/// The pre-scaled vector of any admitted input reaches the accuracy
/// threshold: its squared length is at least a quarter unit, its
/// components stay bounded, and it is a power-of-two multiple of the
/// input.
proof fn lemma_prescaled_props(v: Vec3)
    requires
        vec_bounded(v, LEN_LIMIT as int),
        len_sq_spec(v) > 0,
    ensures
        vec_bounded(prescaled(v), LEN_LIMIT as int),
        len_sq_spec(prescaled(v)) >= 16384,
        exists|m: int| 1 <= m <= 128 && #[trigger] is_scale_of(prescaled(v), v, m),
{
    lemma_prescale_steps(v, 7nat);
    assert(two_pow(0nat) == 1);
    assert(two_pow(1nat) == 2);
    assert(two_pow(2nat) == 4);
    assert(two_pow(3nat) == 8);
    assert(two_pow(4nat) == 16);
    assert(two_pow(5nat) == 32);
    assert(two_pow(6nat) == 64);
    assert(two_pow(7nat) == 128);
    let w = prescaled(v);
    let m0 = choose|m0: int|
        1 <= m0 <= two_pow(7nat) && #[trigger] is_scale_of(w, v, m0) && sum_sq(w) == m0 * m0
            * sum_sq(v) && (len_sq_spec(w) < 16384 ==> m0 == two_pow(7nat));
    if len_sq_spec(w) < 16384 {
        lemma_possq(v);
        assert(sum_sq(w) == 128 * 128 * sum_sq(v));
        assert(128int * 128 * sum_sq(v) >= 16384 * 65536) by (nonlinear_arith)
            requires
                sum_sq(v) >= 65536,
        ;
        assert(len_sq_spec(w) == div_trunc(sum_sq(w), ONE as int));
        vstd::arithmetic::div_mod::lemma_div_is_ordered(16384int * 65536int, sum_sq(w), ONE as int);
        vstd::arithmetic::div_mod::lemma_div_multiples_vanish(16384int, ONE as int);
        assert(false);
    }
}

/// Brackets `sqrt_floor(n)` for `0 <= n < 2^64`.
proof fn lemma_sqrt_floor_bracket(n: int)
    requires
        0 <= n < 18446744073709551616,
    ensures
        0 <= sqrt_floor(n),
        sqrt_floor(n) * sqrt_floor(n) <= n < (sqrt_floor(n) + 1) * (sqrt_floor(n) + 1),
{
    lemma_sqrt_helper_bracket(n, 4294967296nat);
}

#[verifier::rlimit(50)]
proof fn lemma_sqrt_helper_bracket(n: int, k: nat)
    requires
        0 <= n,
        n < (k as int + 1) * (k as int + 1),
    ensures
        0 <= sqrt_helper(n, k),
        sqrt_helper(n, k) * sqrt_helper(n, k) <= n < (sqrt_helper(n, k) + 1) * (sqrt_helper(n, k)
            + 1),
    decreases k,
{
    let r = sqrt_helper(n, k);
    if (k as int) * (k as int) <= n {
        assert(r == k as int);
        assert(r * r <= n);
        assert(n < (r + 1) * (r + 1));
    } else if k == 0 {
        assert(r == 0);
        assert(n < 1) by (nonlinear_arith)
            requires
                0 <= n,
                n < (k as int + 1) * (k as int + 1),
                k == 0,
        ;
        assert(r * r <= n);
        assert(n < (r + 1) * (r + 1));
    } else {
        assert(n < (k as int) * (k as int));
        lemma_sqrt_helper_bracket(n, (k - 1) as nat);
        assert(r == sqrt_helper(n, (k - 1) as nat));
        assert(r * r <= n);
        assert(n < (r + 1) * (r + 1));
    }
}

/// One component of [`Vec3::normalized`]: if the component's square is
/// at most the squared length, the divided component has magnitude at
/// most `2 * ONE`.
proof fn lemma_norm_component(x: int, s: int, l: int)
    requires
        x * x <= s * (ONE as int) + (ONE as int) - 1,
        s >= 1,
        l >= 256,
        l * l <= s * (ONE as int) < (l + 1) * (l + 1),
    ensures
        abs_int(fx_div_spec(x, l)) <= 2 * (ONE as int),
{
    assert(abs_int(x) <= 2 * l) by {
        if abs_int(x) > 2 * l {
            assert(x * x == abs_int(x) * abs_int(x)) by (nonlinear_arith);
            assert(abs_int(x) * abs_int(x) >= (2 * l + 1) * (2 * l + 1)) by (nonlinear_arith)
                requires
                    abs_int(x) >= 2 * l + 1 >= 0,
            ;
            assert((2 * l + 1) * (2 * l + 1) > (l + 1) * (l + 1) + (ONE as int) - 1)
                by (nonlinear_arith)
                requires
                    l >= 256,
            ;
            assert(false);
        }
    };
    assert(abs_int(x * (ONE as int)) == abs_int(x) * (ONE as int)) by (nonlinear_arith);
    assert(abs_int(x) * (ONE as int) <= l * (2 * (ONE as int))) by (nonlinear_arith)
        requires
            abs_int(x) <= 2 * l,
    ;
    vstd::arithmetic::div_mod::lemma_div_is_ordered(
        abs_int(x) * (ONE as int),
        l * (2 * (ONE as int)),
        l,
    );
    vstd::arithmetic::div_mod::lemma_div_multiples_vanish(2 * (ONE as int), l);
}

/// The bounds for [`Vec3::normalized`]: the fixed-point length is at
/// least 256, and each divided component has magnitude at most
/// `2 * ONE`.
proof fn lemma_norm_bounds(v: Vec3)
    requires
        vec_bounded(v, LEN_LIMIT as int),
        len_sq_spec(v) > 0,
    ensures
        len_spec(v) >= 256,
        abs_int(fx_div_spec(v.x as int, len_spec(v))) <= 2 * (ONE as int),
        abs_int(fx_div_spec(v.y as int, len_spec(v))) <= 2 * (ONE as int),
        abs_int(fx_div_spec(v.z as int, len_spec(v))) <= 2 * (ONE as int),
{
    let q = v.x as int * v.x as int + v.y as int * v.y as int + v.z as int * v.z as int;
    let s = len_sq_spec(v);
    let l = len_spec(v);
    lemma_len_sq_bounds(v);
    lemma_len_lower(v);
    assert((ONE as int) <= s * (ONE as int) <= 0xC00000000000int * (ONE as int))
        by (nonlinear_arith)
        requires
            1 <= s <= 0xC00000000000,
    ;
    lemma_sqrt_floor_bracket(s * (ONE as int));
    vstd::arithmetic::div_mod::lemma_fundamental_div_mod(q, ONE as int);
    vstd::arithmetic::div_mod::lemma_mod_bound(q, ONE as int);
    vstd::arithmetic::mul::lemma_mul_is_commutative(s, ONE as int);
    assert(q <= s * (ONE as int) + (ONE as int) - 1);
    assert(v.x as int * v.x as int <= q && v.y as int * v.y as int <= q && v.z as int
        * v.z as int <= q) by (nonlinear_arith)
        requires
            q == v.x as int * v.x as int + v.y as int * v.y as int + v.z as int * v.z as int,
    ;
    lemma_norm_component(v.x as int, s, l);
    lemma_norm_component(v.y as int, s, l);
    lemma_norm_component(v.z as int, s, l);
}

/// The accuracy core: a vector already past the threshold needs no
/// pre-scaling, and dividing it by its length lands within 16
/// fixed-point units of the unit sphere in squared length.
proof fn lemma_near_unit_direct(v: Vec3)
    requires
        vec_bounded(v, LEN_LIMIT as int),
        len_sq_spec(v) >= 16384,
    ensures
        prescaled(v) == v,
        (ONE as int) - 16 <= len_sq_spec(normalized_spec(v)) <= (ONE as int) + 16,
{
    assert(prescaled(v) == v);
    let q = v.x as int * v.x as int + v.y as int * v.y as int + v.z as int * v.z as int;
    let s = len_sq_spec(v);
    let l = len_spec(v);
    lemma_len_sq_bounds(v);
    lemma_norm_bounds(v);
    assert(16384int * 65536int <= s * 65536int <= 0xC00000000000int * 65536int)
        by (nonlinear_arith)
        requires
            16384 <= s <= 0xC00000000000,
    ;
    lemma_sqrt_floor_bracket(s * (ONE as int));
    assert(l * l <= s * 65536 < (l + 1) * (l + 1));
    assert(l >= 32768) by {
        if l + 1 <= 32768 {
            assert((l + 1) * (l + 1) <= 32768int * 32768int) by (nonlinear_arith)
                requires
                    0 <= l + 1 <= 32768,
            ;
            assert(false);
        }
    };
    vstd::arithmetic::div_mod::lemma_fundamental_div_mod(q, ONE as int);
    vstd::arithmetic::div_mod::lemma_mod_bound(q, ONE as int);
    vstd::arithmetic::mul::lemma_mul_is_commutative(s, ONE as int);
    assert(s * 65536 <= q <= s * 65536 + 65535);
    let rx = fx_div_spec(v.x as int, l);
    let ry = fx_div_spec(v.y as int, l);
    let rz = fx_div_spec(v.z as int, l);
    lemma_component_square_bracket(v.x as int, l, rx);
    lemma_component_square_bracket(v.y as int, l, ry);
    lemma_component_square_bracket(v.z as int, l, rz);
    let qq = rx * rx + ry * ry + rz * rz;
    assert(0 <= rx * rx && 0 <= ry * ry && 0 <= rz * rz) by (nonlinear_arith);
    // upper bound
    assert(qq * (l * l) <= q * 4294967296int) by (nonlinear_arith)
        requires
            rx * rx * (l * l) <= (v.x as int * v.x as int) * 4294967296int,
            ry * ry * (l * l) <= (v.y as int * v.y as int) * 4294967296int,
            rz * rz * (l * l) <= (v.z as int * v.z as int) * 4294967296int,
            qq == rx * rx + ry * ry + rz * rz,
            q == v.x as int * v.x as int + v.y as int * v.y as int + v.z as int * v.z as int,
    ;
    assert(q * 4294967296int <= (l * l) * 4294967296int + (2 * l + 65535) * 4294967296int)
        by (nonlinear_arith)
        requires
            q <= s * 65536 + 65535,
            s * 65536 < (l + 1) * (l + 1),
    ;
    assert((2 * l + 65535) * 4294967296int <= (l * l) * 1048576int) by (nonlinear_arith)
        requires
            l >= 32768,
    ;
    assert(qq * (l * l) <= (l * l) * (4294967296int + 1048576int)) by (nonlinear_arith)
        requires
            qq * (l * l) <= (l * l) * 4294967296int + (l * l) * 1048576int,
    ;
    assert(qq <= 4296015872int) by (nonlinear_arith)
        requires
            qq * (l * l) <= (l * l) * 4296015872int,
            l >= 32768,
    ;
    // lower bound
    let bx = rx * rx + 2 * abs_int(rx) + 1;
    let by = ry * ry + 2 * abs_int(ry) + 1;
    let bz = rz * rz + 2 * abs_int(rz) + 1;
    assert((l * l) * bx + (l * l) * by + (l * l) * bz == (l * l) * (bx + by + bz))
        by (nonlinear_arith);
    assert(q * 4294967296int == (v.x as int * v.x as int) * 4294967296int + (v.y as int
        * v.y as int) * 4294967296int + (v.z as int * v.z as int) * 4294967296int)
        by (nonlinear_arith)
        requires
            q == v.x as int * v.x as int + v.y as int * v.y as int + v.z as int * v.z as int,
    ;
    assert(q * 4294967296int <= (l * l) * (bx + by + bz));
    assert(bx + by + bz <= qq + 786435);
    assert((l * l) * (bx + by + bz) <= (l * l) * (qq + 786435int)) by (nonlinear_arith)
        requires
            bx + by + bz <= qq + 786435,
    ;
    assert(q * 4294967296int <= (l * l) * (qq + 786435int));
    assert((l * l) * 4294967296int <= q * 4294967296int) by (nonlinear_arith)
        requires
            l * l <= s * 65536,
            s * 65536 <= q,
    ;
    assert(4294967296int <= qq + 786435int) by (nonlinear_arith)
        requires
            (l * l) * 4294967296int <= (l * l) * (qq + 786435int),
            l >= 32768,
    ;
    // bring the bracket on qq down to the fixed-point squared length
    let n = normalized_spec(v);
    assert(n.x as int == rx && n.y as int == ry && n.z as int == rz);
    assert(len_sq_spec(n) == div_trunc(qq, 65536int));
    assert(div_trunc(qq, 65536int) == qq / 65536int);
    vstd::arithmetic::div_mod::lemma_div_is_ordered(qq, 65536int * 65552int, 65536int);
    vstd::arithmetic::div_mod::lemma_div_multiples_vanish(65552int, 65536int);
    assert(qq <= 65536int * 65552int);
    vstd::arithmetic::div_mod::lemma_div_is_ordered(65536int * 65523int, qq, 65536int);
    vstd::arithmetic::div_mod::lemma_div_multiples_vanish(65523int, 65536int);
    assert(65536int * 65523int <= qq);
    assert((ONE as int) - 16 <= qq / 65536int <= (ONE as int) + 16);
}

/// The normalization law: any vector of positive fixed-point squared
/// length is scaled onto the unit sphere within a fixed tolerance —
/// the squared length of the normalized vector differs from `ONE` by
/// at most 16 fixed-point units.  Pre-scaling brings even the smallest
/// admitted vectors onto the accuracy threshold first.
pub proof fn lemma_normalized_near_unit(v: Vec3)
    requires
        vec_bounded(v, LEN_LIMIT as int),
        len_sq_spec(v) > 0,
    ensures
        (ONE as int) - 16 <= len_sq_spec(normalized_spec(v)) <= (ONE as int) + 16,
{
    lemma_prescaled_props(v);
    let w = prescaled(v);
    lemma_near_unit_direct(w);
    assert(normalized_spec(v) == normalized_spec(w));
}

/// The two-sided relation between a component, the length and the
/// divided component: the divided component's square, scaled by the
/// squared length, brackets the component's square scaled by `ONE`
/// squared.
proof fn lemma_component_square_bracket(x: int, l: int, r: int)
    requires
        l >= 1,
        r == fx_div_spec(x, l),
    ensures
        r * r * (l * l) <= (x * x) * 4294967296,
        (x * x) * 4294967296 <= (l * l) * (r * r + 2 * abs_int(r) + 1),
{
    let p = abs_int(x) * (ONE as int);
    let m = abs_int(r);
    vstd::arithmetic::div_mod::lemma_fundamental_div_mod(p, l);
    vstd::arithmetic::div_mod::lemma_mod_bound(p, l);
    vstd::arithmetic::div_mod::lemma_div_pos_is_pos(p, l);
    assert(abs_int(x * (ONE as int)) == abs_int(x) * (ONE as int)) by (nonlinear_arith);
    assert(m == p / l);
    assert(m * l <= p <= (m + 1) * l - 1) by (nonlinear_arith)
        requires
            p == l * (p / l) + p % l,
            0 <= p % l < l,
            m == p / l,
    ;
    assert(abs_int(x) * abs_int(x) == x * x) by (nonlinear_arith);
    assert(abs_int(r) * abs_int(r) == r * r) by (nonlinear_arith);
    assert(r * r * (l * l) <= (x * x) * 4294967296int) by (nonlinear_arith)
        requires
            m * l <= p,
            p == abs_int(x) * 65536,
            m == abs_int(r),
            0 <= m,
            0 <= abs_int(x),
            abs_int(x) * abs_int(x) == x * x,
            abs_int(r) * abs_int(r) == r * r,
            l >= 1,
    ;
    assert((x * x) * 4294967296int <= (l * l) * (r * r + 2 * abs_int(r) + 1))
        by (nonlinear_arith)
        requires
            p <= (m + 1) * l - 1,
            p == abs_int(x) * 65536,
            m == abs_int(r),
            0 <= m,
            0 <= abs_int(x),
            abs_int(x) * abs_int(x) == x * x,
            abs_int(r) * abs_int(r) == r * r,
            l >= 1,
    ;
}

/// The direction core: a vector past the accuracy threshold, divided
/// by its own length, keeps a large dot product with itself — at least
/// `65530` times the length, which itself is at least half a unit.
proof fn lemma_points_along_direct(v: Vec3)
    requires
        vec_bounded(v, LEN_LIMIT as int),
        len_sq_spec(v) >= 16384,
    ensures
        len_spec(v) >= 32768,
        fx_div_spec(v.x as int, len_spec(v)) * (v.x as int) + fx_div_spec(
            v.y as int,
            len_spec(v),
        ) * (v.y as int) + fx_div_spec(v.z as int, len_spec(v)) * (v.z as int) >= 65530 * len_spec(
            v,
        ),
{
    let q = v.x as int * v.x as int + v.y as int * v.y as int + v.z as int * v.z as int;
    let s = len_sq_spec(v);
    let l = len_spec(v);
    lemma_len_sq_bounds(v);
    lemma_norm_bounds(v);
    assert((ONE as int) <= s * 65536 <= 0xC00000000000int * 65536int) by (nonlinear_arith)
        requires
            1 <= s <= 0xC00000000000,
    ;
    lemma_sqrt_floor_bracket(s * (ONE as int));
    assert(l * l <= s * 65536 < (l + 1) * (l + 1));
    assert(16384int * 65536int <= s * 65536) by (nonlinear_arith)
        requires
            16384 <= s,
    ;
    assert(l >= 32768) by {
        if l + 1 <= 32768 {
            assert((l + 1) * (l + 1) <= 32768int * 32768int) by (nonlinear_arith)
                requires
                    0 <= l + 1 <= 32768,
            ;
            assert(false);
        }
    };
    vstd::arithmetic::div_mod::lemma_fundamental_div_mod(q, ONE as int);
    vstd::arithmetic::div_mod::lemma_mod_bound(q, ONE as int);
    vstd::arithmetic::mul::lemma_mul_is_commutative(s, ONE as int);
    assert(s * 65536 <= q <= s * 65536 + 65535);
    let rx = fx_div_spec(v.x as int, l);
    let ry = fx_div_spec(v.y as int, l);
    let rz = fx_div_spec(v.z as int, l);
    lemma_component_along(v.x as int, l, rx);
    lemma_component_along(v.y as int, l, ry);
    lemma_component_along(v.z as int, l, rz);
    assert(v.x as int * v.x as int <= q && v.y as int * v.y as int <= q && v.z as int
        * v.z as int <= q) by (nonlinear_arith)
        requires
            q == v.x as int * v.x as int + v.y as int * v.y as int + v.z as int * v.z as int,
    ;
    // each component of v is at most 2l in magnitude
    assert(abs_int(v.x as int) <= 2 * l && abs_int(v.y as int) <= 2 * l && abs_int(v.z as int)
        <= 2 * l) by (nonlinear_arith)
        requires
            v.x as int * v.x as int <= q,
            v.y as int * v.y as int <= q,
            v.z as int * v.z as int <= q,
            q < (l + 1) * (l + 1) + 65536,
            l >= 256,
    ;
    let dd = rx * v.x as int + ry * v.y as int + rz * v.z as int;
    assert(dd * l >= 65536 * q - (l - 1) * (abs_int(v.x as int) + abs_int(v.y as int) + abs_int(
        v.z as int,
    ))) by (nonlinear_arith)
        requires
            rx * (v.x as int) * l >= (v.x as int * v.x as int) * 65536 - (l - 1) * abs_int(
                v.x as int,
            ),
            ry * (v.y as int) * l >= (v.y as int * v.y as int) * 65536 - (l - 1) * abs_int(
                v.y as int,
            ),
            rz * (v.z as int) * l >= (v.z as int * v.z as int) * 65536 - (l - 1) * abs_int(
                v.z as int,
            ),
            dd == rx * v.x as int + ry * v.y as int + rz * v.z as int,
            q == v.x as int * v.x as int + v.y as int * v.y as int + v.z as int * v.z as int,
    ;
    assert(dd * l >= l * (65530 * l)) by (nonlinear_arith)
        requires
            dd * l >= 65536 * q - (l - 1) * (abs_int(v.x as int) + abs_int(v.y as int) + abs_int(
                v.z as int,
            )),
            abs_int(v.x as int) <= 2 * l,
            abs_int(v.y as int) <= 2 * l,
            abs_int(v.z as int) <= 2 * l,
            0 <= abs_int(v.x as int),
            0 <= abs_int(v.y as int),
            0 <= abs_int(v.z as int),
            l * l <= q,
            l >= 256,
    ;
    assert(dd >= 65530 * l) by (nonlinear_arith)
        requires
            dd * l >= l * (65530 * l),
            l >= 256,
    ;
}

/// The direction law of normalization: a normalized vector keeps
/// pointing the way of the vector it came from — their dot product is
/// strictly positive.
pub proof fn lemma_normalized_points_along(v: Vec3)
    requires
        vec_bounded(v, LEN_LIMIT as int),
        len_sq_spec(v) > 0,
    ensures
        dot_spec(normalized_spec(v), v) > 0,
{
    lemma_prescaled_props(v);
    let w = prescaled(v);
    lemma_points_along_direct(w);
    let l = len_spec(w);
    let rx = fx_div_spec(w.x as int, l);
    let ry = fx_div_spec(w.y as int, l);
    let rz = fx_div_spec(w.z as int, l);
    let ddw = rx * w.x as int + ry * w.y as int + rz * w.z as int;
    let ddv = rx * v.x as int + ry * v.y as int + rz * v.z as int;
    let m = choose|m: int| 1 <= m <= 128 && #[trigger] is_scale_of(w, v, m);
    assert(rx * (w.x as int) == m * (rx * (v.x as int))) by (nonlinear_arith)
        requires
            w.x as int == m * v.x as int,
    ;
    assert(ry * (w.y as int) == m * (ry * (v.y as int))) by (nonlinear_arith)
        requires
            w.y as int == m * v.y as int,
    ;
    assert(rz * (w.z as int) == m * (rz * (v.z as int))) by (nonlinear_arith)
        requires
            w.z as int == m * v.z as int,
    ;
    assert(ddw == m * ddv) by (nonlinear_arith)
        requires
            rx * (w.x as int) == m * (rx * (v.x as int)),
            ry * (w.y as int) == m * (ry * (v.y as int)),
            rz * (w.z as int) == m * (rz * (v.z as int)),
            ddw == rx * w.x as int + ry * w.y as int + rz * w.z as int,
            ddv == rx * v.x as int + ry * v.y as int + rz * v.z as int,
    ;
    assert(ddw >= 65530 * 32768) by (nonlinear_arith)
        requires
            ddw >= 65530 * l,
            l >= 32768,
    ;
    assert(ddv >= 65536) by (nonlinear_arith)
        requires
            m * ddv >= 65530 * 32768,
            1 <= m <= 128,
    ;
    lemma_norm_bounds(w);
    let n = normalized_spec(v);
    assert(n.x as int == rx && n.y as int == ry && n.z as int == rz);
    assert(dot_spec(n, v) == div_trunc(ddv, 65536int));
    vstd::arithmetic::div_mod::lemma_div_is_ordered(65536, ddv, 65536int);
    assert(dot_spec(n, v) >= 1);
}

/// One component of the direction law: the divided component times the
/// original component, scaled by the length, nearly reaches the
/// component's square scaled by `ONE`.
proof fn lemma_component_along(x: int, l: int, r: int)
    requires
        l >= 1,
        r == fx_div_spec(x, l),
    ensures
        r * x * l >= (x * x) * 65536 - (l - 1) * abs_int(x),
{
    let p = abs_int(x) * (ONE as int);
    let m = abs_int(r);
    vstd::arithmetic::div_mod::lemma_fundamental_div_mod(p, l);
    vstd::arithmetic::div_mod::lemma_mod_bound(p, l);
    vstd::arithmetic::div_mod::lemma_div_pos_is_pos(p, l);
    assert(abs_int(x * (ONE as int)) == abs_int(x) * (ONE as int)) by (nonlinear_arith);
    assert(m == p / l);
    assert(abs_int(x) * abs_int(x) == x * x) by (nonlinear_arith);
    assert((x >= 0 ==> r >= 0) && (x < 0 ==> r <= 0));
    assert(m * l >= p - (l - 1)) by (nonlinear_arith)
        requires
            p == l * (p / l) + p % l,
            0 <= p % l < l,
            m == p / l,
    ;
    assert(r * x == m * abs_int(x)) by (nonlinear_arith)
        requires
            m == abs_int(r),
            (x >= 0 && r >= 0) || (x <= 0 && r <= 0),
    ;
    assert(r * x * l >= (x * x) * 65536 - (l - 1) * abs_int(x)) by (nonlinear_arith)
        requires
            r * x == m * abs_int(x),
            m * l >= p - (l - 1),
            p == abs_int(x) * 65536,
            0 <= abs_int(x),
            abs_int(x) * abs_int(x) == x * x,
            l >= 1,
    ;
}

/// Normalization keeps every component within twice unit length.
pub proof fn lemma_normalized_bounded(v: Vec3)
    requires
        vec_bounded(v, LEN_LIMIT as int),
        len_sq_spec(v) > 0,
    ensures
        vec_bounded(normalized_spec(v), 2 * ONE as int),
{
    lemma_prescaled_props(v);
    lemma_norm_bounds(prescaled(v));
}

/// A vector whose fixed-point squared length is zero has tiny
/// components: each is smaller than 256 in magnitude.
pub proof fn lemma_zero_len_sq_small(v: Vec3)
    requires
        vec_bounded(v, LEN_LIMIT as int),
        len_sq_spec(v) == 0,
    ensures
        vec_bounded(v, 255),
{
    let q = v.x as int * v.x as int + v.y as int * v.y as int + v.z as int * v.z as int;
    lemma_len_sq_bounds(v);
    if abs_int(v.x as int) >= 256 || abs_int(v.y as int) >= 256 || abs_int(v.z as int) >= 256 {
        assert(q >= 65536) by (nonlinear_arith)
            requires
                q == v.x as int * v.x as int + v.y as int * v.y as int + v.z as int * v.z as int,
                abs_int(v.x as int) >= 256 || abs_int(v.y as int) >= 256 || abs_int(v.z as int)
                    >= 256,
        ;
        vstd::arithmetic::div_mod::lemma_div_is_ordered(65536, q, ONE as int);
        assert(false);
    }
}

/// Largest entry magnitude accepted by the matrix operations: 2^45
/// units.
pub const MAT_LIMIT: i64 = 35184372088832;

/// A 4x4 fixed-point matrix in row-major order: `mIJ` is the entry of
/// row `I`, column `J`.
#[derive(Clone, Copy, Debug, PartialEq, Eq, Structural)]
pub struct Mat4x4 {
    pub m00: i64,
    pub m01: i64,
    pub m02: i64,
    pub m03: i64,
    pub m10: i64,
    pub m11: i64,
    pub m12: i64,
    pub m13: i64,
    pub m20: i64,
    pub m21: i64,
    pub m22: i64,
    pub m23: i64,
    pub m30: i64,
    pub m31: i64,
    pub m32: i64,
    pub m33: i64,
}

/// The entry of row `i`, column `j`.
pub open spec fn ent(m: Mat4x4, i: int, j: int) -> int {
    if i == 0 {
        if j == 0 {
            m.m00 as int
        } else if j == 1 {
            m.m01 as int
        } else if j == 2 {
            m.m02 as int
        } else {
            m.m03 as int
        }
    } else if i == 1 {
        if j == 0 {
            m.m10 as int
        } else if j == 1 {
            m.m11 as int
        } else if j == 2 {
            m.m12 as int
        } else {
            m.m13 as int
        }
    } else if i == 2 {
        if j == 0 {
            m.m20 as int
        } else if j == 1 {
            m.m21 as int
        } else if j == 2 {
            m.m22 as int
        } else {
            m.m23 as int
        }
    } else {
        if j == 0 {
            m.m30 as int
        } else if j == 1 {
            m.m31 as int
        } else if j == 2 {
            m.m32 as int
        } else {
            m.m33 as int
        }
    }
}

/// All sixteen entries have magnitude at most `b`.
pub open spec fn mat_bounded(m: Mat4x4, b: int) -> bool {
    forall|i: int, j: int| 0 <= i < 4 && 0 <= j < 4 ==> abs_int(#[trigger] ent(m, i, j)) <= b
}

/// The exact entry of the matrix product `a * b` at row `i`, column
/// `j`: the rescaled row-by-column sum, rounded toward zero.
pub open spec fn mm_e(a: Mat4x4, b: Mat4x4, i: int, j: int) -> int {
    div_trunc(
        ent(a, i, 0) * ent(b, 0, j) + ent(a, i, 1) * ent(b, 1, j) + ent(a, i, 2) * ent(b, 2, j)
            + ent(a, i, 3) * ent(b, 3, j),
        ONE as int,
    )
}

/// `c` is exactly the matrix product `a * b`.
pub open spec fn mat_is_product(c: Mat4x4, a: Mat4x4, b: Mat4x4) -> bool {
    forall|i: int, j: int| 0 <= i < 4 && 0 <= j < 4 ==> #[trigger] ent(c, i, j) == mm_e(a, b, i, j)
}

/// Every entry of the exact product of `a` and `b` is representable in
/// an `i64`.
pub open spec fn mm_fits(a: Mat4x4, b: Mat4x4) -> bool {
    forall|i: int, j: int|
        0 <= i < 4 && 0 <= j < 4 ==> i64::MIN <= #[trigger] mm_e(a, b, i, j) <= i64::MAX
}

/// The identity matrix.
pub open spec fn identity_spec() -> Mat4x4 {
    Mat4x4 {
        m00: ONE,
        m01: 0i64,
        m02: 0i64,
        m03: 0i64,
        m10: 0i64,
        m11: ONE,
        m12: 0i64,
        m13: 0i64,
        m20: 0i64,
        m21: 0i64,
        m22: ONE,
        m23: 0i64,
        m30: 0i64,
        m31: 0i64,
        m32: 0i64,
        m33: ONE,
    }
}

/// The elementary translation matrix for `v`: the identity with `v` in
/// the last column.
pub open spec fn translation_spec(v: Vec3) -> Mat4x4 {
    Mat4x4 { m03: v.x, m13: v.y, m23: v.z, ..identity_spec() }
}

/// The elementary scaling matrix for `v`: `v` on the diagonal.
pub open spec fn scaling_spec(v: Vec3) -> Mat4x4 {
    Mat4x4 { m00: v.x, m11: v.y, m22: v.z, ..identity_spec() }
}

/// The elementary rotation matrix for `d` fixed-point degrees around
/// the axis `v` (assumed unit length): the Rodrigues closed form over
/// the fixed-point sine and cosine of the converted angle.
pub open spec fn rotation_spec(d: int, v: Vec3) -> Mat4x4 {
    let c = cos_fx_spec(radians_spec(d));
    let s = sin_fx_spec(radians_spec(d));
    let t = (ONE as int) - c;
    Mat4x4 {
        m00: (fx_mul_spec(fx_mul_spec(v.x as int, v.x as int), t) + c) as i64,
        m01: (fx_mul_spec(fx_mul_spec(v.y as int, v.x as int), t) - fx_mul_spec(
            v.z as int,
            s,
        )) as i64,
        m02: (fx_mul_spec(fx_mul_spec(v.z as int, v.x as int), t) + fx_mul_spec(
            v.y as int,
            s,
        )) as i64,
        m10: (fx_mul_spec(fx_mul_spec(v.x as int, v.y as int), t) + fx_mul_spec(
            v.z as int,
            s,
        )) as i64,
        m11: (fx_mul_spec(fx_mul_spec(v.y as int, v.y as int), t) + c) as i64,
        m12: (fx_mul_spec(fx_mul_spec(v.z as int, v.y as int), t) - fx_mul_spec(
            v.x as int,
            s,
        )) as i64,
        m20: (fx_mul_spec(fx_mul_spec(v.x as int, v.z as int), t) - fx_mul_spec(
            v.y as int,
            s,
        )) as i64,
        m21: (fx_mul_spec(fx_mul_spec(v.y as int, v.z as int), t) + fx_mul_spec(
            v.x as int,
            s,
        )) as i64,
        m22: (fx_mul_spec(fx_mul_spec(v.z as int, v.z as int), t) + c) as i64,
        ..identity_spec()
    }
}

/// One row-by-column cell of a matrix product.
fn dot4(a0: i64, a1: i64, a2: i64, a3: i64, b0: i64, b1: i64, b2: i64, b3: i64) -> (r: i64)
    requires
        abs_int(a0 as int) <= COMP_LIMIT as int,
        abs_int(a1 as int) <= COMP_LIMIT as int,
        abs_int(a2 as int) <= COMP_LIMIT as int,
        abs_int(a3 as int) <= COMP_LIMIT as int,
        abs_int(b0 as int) <= COMP_LIMIT as int,
        abs_int(b1 as int) <= COMP_LIMIT as int,
        abs_int(b2 as int) <= COMP_LIMIT as int,
        abs_int(b3 as int) <= COMP_LIMIT as int,
        i64::MIN <= div_trunc(
            a0 as int * b0 as int + a1 as int * b1 as int + a2 as int * b2 as int + a3 as int
                * b3 as int,
            ONE as int,
        ) <= i64::MAX,
    ensures
        r == div_trunc(
            a0 as int * b0 as int + a1 as int * b1 as int + a2 as int * b2 as int + a3 as int
                * b3 as int,
            ONE as int,
        ),
{
    proof {
        lemma_prod_abs_bound(a0 as int, b0 as int, COMP_LIMIT as int);
        lemma_prod_abs_bound(a1 as int, b1 as int, COMP_LIMIT as int);
        lemma_prod_abs_bound(a2 as int, b2 as int, COMP_LIMIT as int);
        lemma_prod_abs_bound(a3 as int, b3 as int, COMP_LIMIT as int);
    }
    let p: i128 = (a0 as i128) * (b0 as i128) + (a1 as i128) * (b1 as i128) + (a2 as i128) * (
    b2 as i128) + (a3 as i128) * (b3 as i128);
    let neg: bool = p < 0;
    let mag: u128 = if neg {
        (-p) as u128
    } else {
        p as u128
    };
    let q: u128 = mag / 65536;
    let r128: i128 = if neg {
        -(q as i128)
    } else {
        q as i128
    };
    r128 as i64
}

impl Mat4x4 {
    /// The multiplicative identity.
    pub fn identity() -> (r: Mat4x4)
        ensures
            r == identity_spec(),
    {
        Mat4x4 {
            m00: ONE,
            m01: 0,
            m02: 0,
            m03: 0,
            m10: 0,
            m11: ONE,
            m12: 0,
            m13: 0,
            m20: 0,
            m21: 0,
            m22: ONE,
            m23: 0,
            m30: 0,
            m31: 0,
            m32: 0,
            m33: ONE,
        }
    }

    /// Pre-multiplies a fresh translation matrix for `v` onto `self`:
    /// `self = translation(v) * self`.
    pub fn translate(&mut self, v: Vec3)
        requires
            vec_bounded(v, LEN_LIMIT as int),
            mat_bounded(*old(self), MAT_LIMIT as int),
        ensures
            mat_is_product(*final(self), translation_spec(v), *old(self)),
    {
        let cur: Mat4x4 = *self;
        let mut e: Mat4x4 = Mat4x4::identity();
        e.m03 = v.x;
        e.m13 = v.y;
        e.m23 = v.z;
        proof {
            assert(e == translation_spec(v));
            assert forall|i: int, j: int| 0 <= i < 4 && 0 <= j < 4 implies abs_int(
                #[trigger] ent(e, i, j),
            ) <= LEN_LIMIT as int by {}
            lemma_mm_fits(e, cur, LEN_LIMIT as int, MAT_LIMIT as int);
        }
        e.mul_assign(&cur);
        *self = e;
    }

    /// Pre-multiplies a fresh scaling matrix for `v` onto `self`:
    /// `self = scaling(v) * self`.
    pub fn scale(&mut self, v: Vec3)
        requires
            vec_bounded(v, LEN_LIMIT as int),
            mat_bounded(*old(self), MAT_LIMIT as int),
        ensures
            mat_is_product(*final(self), scaling_spec(v), *old(self)),
    {
        let cur: Mat4x4 = *self;
        let mut e: Mat4x4 = Mat4x4::identity();
        e.m00 = v.x;
        e.m11 = v.y;
        e.m22 = v.z;
        proof {
            assert(e == scaling_spec(v));
            assert forall|i: int, j: int| 0 <= i < 4 && 0 <= j < 4 implies abs_int(
                #[trigger] ent(e, i, j),
            ) <= LEN_LIMIT as int by {}
            lemma_mm_fits(e, cur, LEN_LIMIT as int, MAT_LIMIT as int);
        }
        e.mul_assign(&cur);
        *self = e;
    }

    /// Pre-multiplies a fresh rotation matrix of `d` fixed-point
    /// degrees around the axis `v` (assumed unit length) onto `self`:
    /// `self = rotation(d, v) * self`.  A zero angle leaves the matrix
    /// unchanged.
    #[verifier::rlimit(100)]
    pub fn rotate(&mut self, d: i64, v: Vec3)
        requires
            abs_int(d as int) <= DEG_LIMIT as int,
            vec_bounded(v, 2 * ONE as int),
            mat_bounded(*old(self), MAT_LIMIT as int),
        ensures
            mat_is_product(*final(self), rotation_spec(d as int, v), *old(self)),
            d == 0 ==> *final(self) == *old(self),
    {
        let cur: Mat4x4 = *self;
        let ang: i64 = radians(d);
        let c: i64 = cos_fx(ang);
        let s: i64 = sin_fx(ang);
        let t: i64 = ONE - c;
        proof {
            lemma_fx_mul_abs(v.x as int, v.x as int, 131072, 131072);
            lemma_fx_mul_abs(v.y as int, v.x as int, 131072, 131072);
            lemma_fx_mul_abs(v.z as int, v.x as int, 131072, 131072);
            lemma_fx_mul_abs(v.x as int, v.y as int, 131072, 131072);
            lemma_fx_mul_abs(v.y as int, v.y as int, 131072, 131072);
            lemma_fx_mul_abs(v.z as int, v.y as int, 131072, 131072);
            lemma_fx_mul_abs(v.x as int, v.z as int, 131072, 131072);
            lemma_fx_mul_abs(v.y as int, v.z as int, 131072, 131072);
            lemma_fx_mul_abs(v.z as int, v.z as int, 131072, 131072);
            assert(131072int * 131072int == 17179869184int) by (nonlinear_arith);
            assert(17179869184int / 65536int == 262144int);
        }
        let xx: i64 = fx_mul(v.x, v.x);
        let yx: i64 = fx_mul(v.y, v.x);
        let zx: i64 = fx_mul(v.z, v.x);
        let xy: i64 = fx_mul(v.x, v.y);
        let yy: i64 = fx_mul(v.y, v.y);
        let zy: i64 = fx_mul(v.z, v.y);
        let xz: i64 = fx_mul(v.x, v.z);
        let yz: i64 = fx_mul(v.y, v.z);
        let zz: i64 = fx_mul(v.z, v.z);
        proof {
            lemma_fx_mul_abs(xx as int, t as int, 262144, 131072);
            lemma_fx_mul_abs(yx as int, t as int, 262144, 131072);
            lemma_fx_mul_abs(zx as int, t as int, 262144, 131072);
            lemma_fx_mul_abs(xy as int, t as int, 262144, 131072);
            lemma_fx_mul_abs(yy as int, t as int, 262144, 131072);
            lemma_fx_mul_abs(zy as int, t as int, 262144, 131072);
            lemma_fx_mul_abs(xz as int, t as int, 262144, 131072);
            lemma_fx_mul_abs(yz as int, t as int, 262144, 131072);
            lemma_fx_mul_abs(zz as int, t as int, 262144, 131072);
            lemma_fx_mul_abs(v.x as int, s as int, 131072, 65536);
            lemma_fx_mul_abs(v.y as int, s as int, 131072, 65536);
            lemma_fx_mul_abs(v.z as int, s as int, 131072, 65536);
            assert(262144int * 131072int == 34359738368int) by (nonlinear_arith);
            assert(34359738368int / 65536int == 524288int);
            assert(131072int * 65536int == 8589934592int) by (nonlinear_arith);
            assert(8589934592int / 65536int == 131072int);
        }
        let mut e: Mat4x4 = Mat4x4::identity();
        e.m00 = fx_mul(xx, t) + c;
        e.m01 = fx_mul(yx, t) - fx_mul(v.z, s);
        e.m02 = fx_mul(zx, t) + fx_mul(v.y, s);
        e.m10 = fx_mul(xy, t) + fx_mul(v.z, s);
        e.m11 = fx_mul(yy, t) + c;
        e.m12 = fx_mul(zy, t) - fx_mul(v.x, s);
        e.m20 = fx_mul(xz, t) - fx_mul(v.y, s);
        e.m21 = fx_mul(yz, t) + fx_mul(v.x, s);
        e.m22 = fx_mul(zz, t) + c;
        proof {
            assert(e == rotation_spec(d as int, v));
            assert forall|i: int, j: int| 0 <= i < 4 && 0 <= j < 4 implies abs_int(
                #[trigger] ent(e, i, j),
            ) <= 720896 by {}
            lemma_mm_fits(e, cur, 720896, MAT_LIMIT as int);
        }
        e.mul_assign(&cur);
        *self = e;
        proof {
            if d == 0 {
                lemma_rotation_zero(v);
                lemma_identity_product_exact(*self, cur);
            }
        }
    }

    /// Replaces `self` with the exact product `self * rhs`.
    pub fn mul_assign(&mut self, rhs: &Mat4x4)
        requires
            mat_bounded(*old(self), MAT_LIMIT as int),
            mat_bounded(*rhs, MAT_LIMIT as int),
            mm_fits(*old(self), *rhs),
        ensures
            mat_is_product(*final(self), *old(self), *rhs),
    {
        let a: Mat4x4 = *self;
        let b: Mat4x4 = *rhs;
        proof {
            assert forall|i: int, j: int| 0 <= i < 4 && 0 <= j < 4 implies abs_int(
                #[trigger] ent(a, i, j),
            ) <= COMP_LIMIT as int && i64::MIN <= mm_e(a, b, i, j) <= i64::MAX && abs_int(
                ent(b, i, j),
            ) <= COMP_LIMIT as int by {
                assert(abs_int(ent(a, i, j)) <= MAT_LIMIT as int);
                assert(abs_int(ent(b, i, j)) <= MAT_LIMIT as int);
            }
            assert(ent(a, 0, 0) == a.m00 as int && ent(a, 0, 1) == a.m01 as int && ent(a, 0, 2) == a.m02 as int && ent(a, 0, 3) == a.m03 as int && ent(a, 1, 0) == a.m10 as int && ent(a, 1, 1) == a.m11 as int && ent(a, 1, 2) == a.m12 as int && ent(a, 1, 3) == a.m13 as int && ent(a, 2, 0) == a.m20 as int && ent(a, 2, 1) == a.m21 as int && ent(a, 2, 2) == a.m22 as int && ent(a, 2, 3) == a.m23 as int && ent(a, 3, 0) == a.m30 as int && ent(a, 3, 1) == a.m31 as int && ent(a, 3, 2) == a.m32 as int && ent(a, 3, 3) == a.m33 as int && ent(b, 0, 0) == b.m00 as int && ent(b, 0, 1) == b.m01 as int && ent(b, 0, 2) == b.m02 as int && ent(b, 0, 3) == b.m03 as int && ent(b, 1, 0) == b.m10 as int && ent(b, 1, 1) == b.m11 as int && ent(b, 1, 2) == b.m12 as int && ent(b, 1, 3) == b.m13 as int && ent(b, 2, 0) == b.m20 as int && ent(b, 2, 1) == b.m21 as int && ent(b, 2, 2) == b.m22 as int && ent(b, 2, 3) == b.m23 as int && ent(b, 3, 0) == b.m30 as int && ent(b, 3, 1) == b.m31 as int && ent(b, 3, 2) == b.m32 as int && ent(b, 3, 3) == b.m33 as int);
        }
        let c00: i64 = dot4(a.m00, a.m01, a.m02, a.m03, b.m00, b.m10, b.m20, b.m30);
        let c01: i64 = dot4(a.m00, a.m01, a.m02, a.m03, b.m01, b.m11, b.m21, b.m31);
        let c02: i64 = dot4(a.m00, a.m01, a.m02, a.m03, b.m02, b.m12, b.m22, b.m32);
        let c03: i64 = dot4(a.m00, a.m01, a.m02, a.m03, b.m03, b.m13, b.m23, b.m33);
        let c10: i64 = dot4(a.m10, a.m11, a.m12, a.m13, b.m00, b.m10, b.m20, b.m30);
        let c11: i64 = dot4(a.m10, a.m11, a.m12, a.m13, b.m01, b.m11, b.m21, b.m31);
        let c12: i64 = dot4(a.m10, a.m11, a.m12, a.m13, b.m02, b.m12, b.m22, b.m32);
        let c13: i64 = dot4(a.m10, a.m11, a.m12, a.m13, b.m03, b.m13, b.m23, b.m33);
        let c20: i64 = dot4(a.m20, a.m21, a.m22, a.m23, b.m00, b.m10, b.m20, b.m30);
        let c21: i64 = dot4(a.m20, a.m21, a.m22, a.m23, b.m01, b.m11, b.m21, b.m31);
        let c22: i64 = dot4(a.m20, a.m21, a.m22, a.m23, b.m02, b.m12, b.m22, b.m32);
        let c23: i64 = dot4(a.m20, a.m21, a.m22, a.m23, b.m03, b.m13, b.m23, b.m33);
        let c30: i64 = dot4(a.m30, a.m31, a.m32, a.m33, b.m00, b.m10, b.m20, b.m30);
        let c31: i64 = dot4(a.m30, a.m31, a.m32, a.m33, b.m01, b.m11, b.m21, b.m31);
        let c32: i64 = dot4(a.m30, a.m31, a.m32, a.m33, b.m02, b.m12, b.m22, b.m32);
        let c33: i64 = dot4(a.m30, a.m31, a.m32, a.m33, b.m03, b.m13, b.m23, b.m33);
        *self = Mat4x4 {
            m00: c00,
            m01: c01,
            m02: c02,
            m03: c03,
            m10: c10,
            m11: c11,
            m12: c12,
            m13: c13,
            m20: c20,
            m21: c21,
            m22: c22,
            m23: c23,
            m30: c30,
            m31: c31,
            m32: c32,
            m33: c33,
        };
    }
}

/// Matrices bounded entrywise by `ba` and `bb` have an exactly
/// representable product whenever `4 * ba * bb` stays within
/// `i64::MAX` rescaled; every product entry is bounded by the rescaled
/// `4 * ba * bb`.
pub proof fn lemma_mm_fits(a: Mat4x4, b: Mat4x4, ba: int, bb: int)
    requires
        mat_bounded(a, ba),
        mat_bounded(b, bb),
        0 <= ba,
        0 <= bb,
        4 * ba * bb <= (i64::MAX as int) * (ONE as int),
    ensures
        mm_fits(a, b),
        forall|i: int, j: int|
            0 <= i < 4 && 0 <= j < 4 ==> abs_int(#[trigger] mm_e(a, b, i, j)) <= (4 * ba * bb) / (
            ONE as int),
{
    assert forall|i: int, j: int| 0 <= i < 4 && 0 <= j < 4 implies abs_int(
        #[trigger] mm_e(a, b, i, j),
    ) <= (4 * ba * bb) / (ONE as int) && i64::MIN <= mm_e(a, b, i, j) <= i64::MAX by {
        assert(abs_int(ent(a, i, 0)) <= ba);
        assert(abs_int(ent(a, i, 1)) <= ba);
        assert(abs_int(ent(a, i, 2)) <= ba);
        assert(abs_int(ent(a, i, 3)) <= ba);
        assert(abs_int(ent(b, 0, j)) <= bb);
        assert(abs_int(ent(b, 1, j)) <= bb);
        assert(abs_int(ent(b, 2, j)) <= bb);
        assert(abs_int(ent(b, 3, j)) <= bb);
        crate::fixed::lemma_prod_abs_bound2(ent(a, i, 0), ent(b, 0, j), ba, bb);
        crate::fixed::lemma_prod_abs_bound2(ent(a, i, 1), ent(b, 1, j), ba, bb);
        crate::fixed::lemma_prod_abs_bound2(ent(a, i, 2), ent(b, 2, j), ba, bb);
        crate::fixed::lemma_prod_abs_bound2(ent(a, i, 3), ent(b, 3, j), ba, bb);
        let s = ent(a, i, 0) * ent(b, 0, j) + ent(a, i, 1) * ent(b, 1, j) + ent(a, i, 2) * ent(
            b,
            2,
            j,
        ) + ent(a, i, 3) * ent(b, 3, j);
        assert(4 * ba * bb == 4 * (ba * bb)) by (nonlinear_arith);
        assert(abs_int(s) <= 4 * ba * bb);
        crate::fixed::lemma_div_trunc_bound(s, ONE as int, 4 * ba * bb);
        vstd::arithmetic::div_mod::lemma_div_is_ordered(
            4 * ba * bb,
            (i64::MAX as int) * (ONE as int),
            ONE as int,
        );
        vstd::arithmetic::div_mod::lemma_div_multiples_vanish(i64::MAX as int, ONE as int);
        assert((i64::MAX as int) * (ONE as int) == (ONE as int) * (i64::MAX as int));
    }
}

/// Left multiplication by the identity returns the other factor, entry
/// by entry: the model-level multiplicative identity law.
pub proof fn lemma_identity_mul(m: Mat4x4)
    ensures
        forall|i: int, j: int|
            0 <= i < 4 && 0 <= j < 4 ==> #[trigger] mm_e(identity_spec(), m, i, j) == ent(m, i, j),
{
    assert forall|i: int, j: int| 0 <= i < 4 && 0 <= j < 4 implies #[trigger] mm_e(
        identity_spec(),
        m,
        i,
        j,
    ) == ent(m, i, j) by {
        let q = identity_spec();
        if i == 0 {
            assert(ent(q, 0, 0) == ONE as int && ent(q, 0, 1) == 0 && ent(q, 0, 2) == 0 && ent(
                q, 0, 3) == 0);
        } else if i == 1 {
            assert(ent(q, 1, 0) == 0 && ent(q, 1, 1) == ONE as int && ent(q, 1, 2) == 0 && ent(
                q, 1, 3) == 0);
        } else if i == 2 {
            assert(ent(q, 2, 0) == 0 && ent(q, 2, 1) == 0 && ent(q, 2, 2) == ONE as int && ent(
                q, 2, 3) == 0);
        } else {
            assert(ent(q, 3, 0) == 0 && ent(q, 3, 1) == 0 && ent(q, 3, 2) == 0 && ent(q, 3, 3)
                == ONE as int);
        }
        assert(ent(q, i, 0) * ent(m, 0, j) + ent(q, i, 1) * ent(m, 1, j) + ent(q, i, 2) * ent(
            m, 2, j) + ent(q, i, 3) * ent(m, 3, j) == (ONE as int) * ent(m, i, j));
        crate::fixed::lemma_div_trunc_multiple(ent(m, i, j), ONE as int);
    }
}

/// Right multiplication by the identity returns the other factor,
/// entry by entry.
pub proof fn lemma_mul_identity(m: Mat4x4)
    ensures
        forall|i: int, j: int|
            0 <= i < 4 && 0 <= j < 4 ==> #[trigger] mm_e(m, identity_spec(), i, j) == ent(m, i, j),
{
    assert forall|i: int, j: int| 0 <= i < 4 && 0 <= j < 4 implies #[trigger] mm_e(
        m,
        identity_spec(),
        i,
        j,
    ) == ent(m, i, j) by {
        let q = identity_spec();
        if j == 0 {
            assert(ent(q, 0, 0) == ONE as int && ent(q, 1, 0) == 0 && ent(q, 2, 0) == 0 && ent(
                q, 3, 0) == 0);
        } else if j == 1 {
            assert(ent(q, 0, 1) == 0 && ent(q, 1, 1) == ONE as int && ent(q, 2, 1) == 0 && ent(
                q, 3, 1) == 0);
        } else if j == 2 {
            assert(ent(q, 0, 2) == 0 && ent(q, 1, 2) == 0 && ent(q, 2, 2) == ONE as int && ent(
                q, 3, 2) == 0);
        } else {
            assert(ent(q, 0, 3) == 0 && ent(q, 1, 3) == 0 && ent(q, 2, 3) == 0 && ent(q, 3, 3)
                == ONE as int);
        }
        assert(ent(m, i, 0) * ent(q, 0, j) + ent(m, i, 1) * ent(q, 1, j) + ent(m, i, 2) * ent(
            q, 2, j) + ent(m, i, 3) * ent(q, 3, j) == (ONE as int) * ent(m, i, j));
        crate::fixed::lemma_div_trunc_multiple(ent(m, i, j), ONE as int);
    }
}

/// The multiplicative identity law at the value level: a matrix that is
/// exactly the product `identity * m` is `m` itself.
pub proof fn lemma_identity_product_exact(c: Mat4x4, m: Mat4x4)
    requires
        mat_is_product(c, identity_spec(), m),
    ensures
        c == m,
{
    lemma_identity_mul(m);
    assert(ent(c, 0, 0) == ent(m, 0, 0) && ent(c, 0, 1) == ent(m, 0, 1) && ent(c, 0, 2) == ent(
        m,
        0,
        2,
    ) && ent(c, 0, 3) == ent(m, 0, 3) && ent(c, 1, 0) == ent(m, 1, 0) && ent(c, 1, 1) == ent(
        m,
        1,
        1,
    ) && ent(c, 1, 2) == ent(m, 1, 2) && ent(c, 1, 3) == ent(m, 1, 3) && ent(c, 2, 0) == ent(
        m,
        2,
        0,
    ) && ent(c, 2, 1) == ent(m, 2, 1) && ent(c, 2, 2) == ent(m, 2, 2) && ent(c, 2, 3) == ent(
        m,
        2,
        3,
    ) && ent(c, 3, 0) == ent(m, 3, 0) && ent(c, 3, 1) == ent(m, 3, 1) && ent(c, 3, 2) == ent(
        m,
        3,
        2,
    ) && ent(c, 3, 3) == ent(m, 3, 3));
}

/// A zero rotation is the identity: zero degrees convert to a zero
/// reduced angle, whose sine is exactly `0` and whose cosine is
/// exactly `ONE`, so every entry of the elementary rotation matrix
/// collapses onto the identity, whatever the axis.
pub proof fn lemma_rotation_zero(v: Vec3)
    ensures
        rotation_spec(0, v) == identity_spec(),
{
    assert(radians_spec(0) == 0);
    assert(sin_fx_spec(0) == 0);
    assert(cos_fx_spec(0) == ONE as int);
    let r = rotation_spec(0, v);
    assert(fx_mul_spec(fx_mul_spec(v.x as int, v.x as int), 0) == 0);
    assert(fx_mul_spec(fx_mul_spec(v.y as int, v.x as int), 0) == 0);
    assert(fx_mul_spec(fx_mul_spec(v.z as int, v.x as int), 0) == 0);
    assert(fx_mul_spec(fx_mul_spec(v.x as int, v.y as int), 0) == 0);
    assert(fx_mul_spec(fx_mul_spec(v.y as int, v.y as int), 0) == 0);
    assert(fx_mul_spec(fx_mul_spec(v.z as int, v.y as int), 0) == 0);
    assert(fx_mul_spec(fx_mul_spec(v.x as int, v.z as int), 0) == 0);
    assert(fx_mul_spec(fx_mul_spec(v.y as int, v.z as int), 0) == 0);
    assert(fx_mul_spec(fx_mul_spec(v.z as int, v.z as int), 0) == 0);
    assert(fx_mul_spec(v.x as int, 0) == 0);
    assert(fx_mul_spec(v.y as int, 0) == 0);
    assert(fx_mul_spec(v.z as int, 0) == 0);
    assert(r.m00 == ONE && r.m01 == 0 && r.m02 == 0 && r.m03 == 0);
    assert(r.m10 == 0 && r.m11 == ONE && r.m12 == 0 && r.m13 == 0);
    assert(r.m20 == 0 && r.m21 == 0 && r.m22 == ONE && r.m23 == 0);
    assert(r.m30 == 0 && r.m31 == 0 && r.m32 == 0 && r.m33 == ONE);
    assert(r == identity_spec());
}

/// The elementary rotation matrix applied to a point: the upper-left
/// block of the rotation times the vector, each row rescaled and
/// rounded toward zero.
pub open spec fn rot_point_spec(d: int, v: Vec3, w: Vec3) -> Vec3 {
    let r = rotation_spec(d, v);
    Vec3 {
        x: div_trunc(
            r.m00 as int * w.x as int + r.m01 as int * w.y as int + r.m02 as int * w.z as int,
            ONE as int,
        ) as i64,
        y: div_trunc(
            r.m10 as int * w.x as int + r.m11 as int * w.y as int + r.m12 as int * w.z as int,
            ONE as int,
        ) as i64,
        z: div_trunc(
            r.m20 as int * w.x as int + r.m21 as int * w.y as int + r.m22 as int * w.z as int,
            ONE as int,
        ) as i64,
    }
}

/// The order law of transform composition: rotating after translating
/// carries the translation column through the rotation, while
/// translating after rotating leaves that column unchanged.  Whenever
/// the rotation moves the translation vector, the two compositions
/// therefore differ — transform composition does not commute.
pub proof fn lemma_translate_rotate_order(d: int, v: Vec3, w: Vec3, p: Mat4x4, q: Mat4x4)
    requires
        mat_is_product(p, rotation_spec(d, v), translation_spec(w)),
        mat_is_product(q, translation_spec(w), rotation_spec(d, v)),
        rot_point_spec(d, v, w) != w,
    ensures
        p.m03 == rot_point_spec(d, v, w).x,
        p.m13 == rot_point_spec(d, v, w).y,
        p.m23 == rot_point_spec(d, v, w).z,
        q.m03 == w.x,
        q.m13 == w.y,
        q.m23 == w.z,
        p != q,
{
    let r = rotation_spec(d, v);
    let t = translation_spec(w);
    assert(ent(r, 0, 3) == 0 && ent(r, 1, 3) == 0 && ent(r, 2, 3) == 0 && ent(r, 3, 3)
        == ONE as int);
    assert(ent(t, 0, 0) == ONE as int && ent(t, 0, 1) == 0 && ent(t, 0, 2) == 0 && ent(t, 0, 3)
        == w.x as int);
    assert(ent(t, 1, 0) == 0 && ent(t, 1, 1) == ONE as int && ent(t, 1, 2) == 0 && ent(t, 1, 3)
        == w.y as int);
    assert(ent(t, 2, 0) == 0 && ent(t, 2, 1) == 0 && ent(t, 2, 2) == ONE as int && ent(t, 2, 3)
        == w.z as int);
    assert(ent(t, 3, 3) == ONE as int);
    assert(ent(p, 0, 3) == mm_e(r, t, 0, 3));
    assert(ent(p, 1, 3) == mm_e(r, t, 1, 3));
    assert(ent(p, 2, 3) == mm_e(r, t, 2, 3));
    assert(ent(r, 0, 0) * ent(t, 0, 3) + ent(r, 0, 1) * ent(t, 1, 3) + ent(r, 0, 2) * ent(t, 2, 3)
        + ent(r, 0, 3) * ent(t, 3, 3) == r.m00 as int * w.x as int + r.m01 as int * w.y as int
        + r.m02 as int * w.z as int);
    assert(ent(r, 1, 0) * ent(t, 0, 3) + ent(r, 1, 1) * ent(t, 1, 3) + ent(r, 1, 2) * ent(t, 2, 3)
        + ent(r, 1, 3) * ent(t, 3, 3) == r.m10 as int * w.x as int + r.m11 as int * w.y as int
        + r.m12 as int * w.z as int);
    assert(ent(r, 2, 0) * ent(t, 0, 3) + ent(r, 2, 1) * ent(t, 1, 3) + ent(r, 2, 2) * ent(t, 2, 3)
        + ent(r, 2, 3) * ent(t, 3, 3) == r.m20 as int * w.x as int + r.m21 as int * w.y as int
        + r.m22 as int * w.z as int);
    assert(mm_e(r, t, 0, 3) == div_trunc(
        r.m00 as int * w.x as int + r.m01 as int * w.y as int + r.m02 as int * w.z as int,
        ONE as int,
    ));
    assert(mm_e(r, t, 1, 3) == div_trunc(
        r.m10 as int * w.x as int + r.m11 as int * w.y as int + r.m12 as int * w.z as int,
        ONE as int,
    ));
    assert(mm_e(r, t, 2, 3) == div_trunc(
        r.m20 as int * w.x as int + r.m21 as int * w.y as int + r.m22 as int * w.z as int,
        ONE as int,
    ));
    assert(ent(q, 0, 3) == mm_e(t, r, 0, 3));
    assert(ent(q, 1, 3) == mm_e(t, r, 1, 3));
    assert(ent(q, 2, 3) == mm_e(t, r, 2, 3));
    crate::fixed::lemma_div_trunc_multiple(w.x as int, ONE as int);
    crate::fixed::lemma_div_trunc_multiple(w.y as int, ONE as int);
    crate::fixed::lemma_div_trunc_multiple(w.z as int, ONE as int);
    assert(ent(t, 0, 0) * ent(r, 0, 3) + ent(t, 0, 1) * ent(r, 1, 3) + ent(t, 0, 2) * ent(r, 2, 3)
        + ent(t, 0, 3) * ent(r, 3, 3) == (ONE as int) * (w.x as int));
    assert(ent(t, 1, 0) * ent(r, 0, 3) + ent(t, 1, 1) * ent(r, 1, 3) + ent(t, 1, 2) * ent(r, 2, 3)
        + ent(t, 1, 3) * ent(r, 3, 3) == (ONE as int) * (w.y as int));
    assert(ent(t, 2, 0) * ent(r, 0, 3) + ent(t, 2, 1) * ent(r, 1, 3) + ent(t, 2, 2) * ent(r, 2, 3)
        + ent(t, 2, 3) * ent(r, 3, 3) == (ONE as int) * (w.z as int));
    assert(mm_e(t, r, 0, 3) == div_trunc((ONE as int) * (w.x as int), ONE as int));
    assert(mm_e(t, r, 1, 3) == div_trunc((ONE as int) * (w.y as int), ONE as int));
    assert(mm_e(t, r, 2, 3) == div_trunc((ONE as int) * (w.z as int), ONE as int));
    assert(q.m03 == w.x && q.m13 == w.y && q.m23 == w.z);
    if p == q {
        let rp = rot_point_spec(d, v, w);
        assert(rp.x == w.x && rp.y == w.y && rp.z == w.z);
        assert(rp == w);
        assert(false);
    }
}

/// Largest magnitude accepted for the camera's aspect ratio and
/// near/far plane distances: 2^30 units, or 16384.0.
pub const CAM_LIMIT: i64 = 1073741824;

/// Half the field-of-view angle, in fixed-point radians.
pub open spec fn half_fov_spec(fov: int) -> int {
    div_trunc(radians_spec(fov), 2)
}

/// The fixed-point tangent of half the field of view.
pub open spec fn fov_tan_spec(fov: int) -> int {
    fx_div_spec(sin_fx_spec(half_fov_spec(fov)), cos_fx_spec(half_fov_spec(fov)))
}

/// A camera: a view matrix, set by the caller to reflect the camera
/// pose, and a perspective projection matrix fixed at construction.
#[derive(Clone, Copy, Debug, PartialEq, Eq, Structural)]
pub struct Camera {
    pub view: Mat4x4,
    pub projection: Mat4x4,
}

impl Camera {
    /// Builds a camera whose projection matrix follows the standard
    /// symmetric-frustum perspective formula for the given aspect
    /// ratio, field of view in fixed-point degrees, and near/far plane
    /// distances.
    ///
    /// Returns `None` exactly on the degenerate inputs: equal near and
    /// far planes, or a field of view whose half-angle tangent is zero
    /// or undefined, or an aspect ratio that makes the horizontal
    /// scale's denominator zero.  The view matrix starts as the
    /// identity.
    pub fn new(aspect: i64, fov: i64, near: i64, far: i64) -> (r: Option<Camera>)
        requires
            abs_int(aspect as int) <= CAM_LIMIT as int,
            abs_int(near as int) <= CAM_LIMIT as int,
            abs_int(far as int) <= CAM_LIMIT as int,
            abs_int(fov as int) <= DEG_LIMIT as int,
        ensures
            match r {
                Option::Some(cam) => {
                    let t = fov_tan_spec(fov as int);
                    &&& far != near
                    &&& cos_fx_spec(half_fov_spec(fov as int)) != 0
                    &&& t != 0
                    &&& fx_mul_spec(aspect as int, t) != 0
                    &&& cam.view == identity_spec()
                    &&& cam.projection.m00 == fx_div_spec(
                        ONE as int,
                        fx_mul_spec(aspect as int, t),
                    )
                    &&& cam.projection.m11 == fx_div_spec(ONE as int, t)
                    &&& cam.projection.m22 == -fx_div_spec(
                        far as int + near as int,
                        far as int - near as int,
                    )
                    &&& cam.projection.m23 == -fx_div_spec(
                        2 * fx_mul_spec(far as int, near as int),
                        far as int - near as int,
                    )
                    &&& cam.projection.m32 == -(ONE as int)
                    &&& cam.projection.m33 == 0
                    &&& cam.projection.m01 == 0 && cam.projection.m02 == 0 && cam.projection.m03
                        == 0
                    &&& cam.projection.m10 == 0 && cam.projection.m12 == 0 && cam.projection.m13
                        == 0
                    &&& cam.projection.m20 == 0 && cam.projection.m21 == 0
                    &&& cam.projection.m30 == 0 && cam.projection.m31 == 0
                },
                Option::None => far == near || cos_fx_spec(half_fov_spec(fov as int)) == 0
                    || fov_tan_spec(fov as int) == 0 || fx_mul_spec(
                    aspect as int,
                    fov_tan_spec(fov as int),
                ) == 0,
            },
    {
        if near == far {
            return None;
        }
        let ang: i64 = radians(fov);
        let half: i64 = if ang >= 0 {
            ((ang as u64) / 2) as i64
        } else {
            -((((-(ang as i128)) as u64) / 2) as i64)
        };
        proof {
            assert(half == half_fov_spec(fov as int));
        }
        let t: i64 = match crate::trig::tan_fx(half) {
            Option::Some(t) => t,
            Option::None => {
                return None;
            },
        };
        if t == 0 {
            return None;
        }
        proof {
            lemma_tan_bound(half as int);
            lemma_fx_mul_abs(aspect as int, t as int, CAM_LIMIT as int, 4294967296);
            assert((CAM_LIMIT as int) * 4294967296int == 4611686018427387904int)
                by (nonlinear_arith);
            assert(4611686018427387904int / 65536int == 70368744177664int);
        }
        let d: i64 = fx_mul(aspect, t);
        if d == 0 {
            return None;
        }
        proof {
            lemma_unit_div_fits(d as int);
            lemma_unit_div_fits(t as int);
            lemma_depth_fits(near as int, far as int);
        }
        let p00: i64 = fx_div(ONE, d);
        let p11: i64 = fx_div(ONE, t);
        let p22: i64 = -fx_div(far + near, far - near);
        let fn_prod: i64 = fx_mul(far, near);
        let p23: i64 = -fx_div(2 * fn_prod, far - near);
        let mut projection: Mat4x4 = Mat4x4::identity();
        projection.m00 = p00;
        projection.m11 = p11;
        projection.m22 = p22;
        projection.m23 = p23;
        projection.m32 = -ONE;
        projection.m33 = 0;
        Some(Camera { view: Mat4x4::identity(), projection })
    }
}

/// The fixed-point tangent has magnitude at most `ONE * ONE` whenever
/// its cosine is nonzero.
proof fn lemma_tan_bound(x: int)
    requires
        cos_fx_spec(x) != 0,
    ensures
        abs_int(fx_div_spec(sin_fx_spec(x), cos_fx_spec(x))) <= 4294967296,
{
    let s = sin_fx_spec(x);
    let c = cos_fx_spec(x);
    lemma_sin_range(x);
    assert(abs_int(s * (ONE as int)) <= 4294967296int) by (nonlinear_arith)
        requires
            abs_int(s) <= ONE as int,
    ;
    crate::fixed::lemma_fx_div_abs(s, c, 4294967296);
}

/// The fixed-point sine always lies in `[-ONE, ONE]`.
proof fn lemma_sin_range(x: int)
    ensures
        abs_int(sin_fx_spec(x)) <= ONE as int,
{
}

/// Dividing `ONE` by a nonzero scalar is representable.
proof fn lemma_unit_div_fits(d: int)
    requires
        d != 0,
    ensures
        abs_int(fx_div_spec(ONE as int, d)) <= 4294967296,
{
    crate::fixed::lemma_fx_div_abs(ONE as int, d, 4294967296);
}

/// The two depth entries of the projection matrix are representable
/// for bounded near/far planes.
proof fn lemma_depth_fits(near: int, far: int)
    requires
        abs_int(near) <= CAM_LIMIT as int,
        abs_int(far) <= CAM_LIMIT as int,
        near != far,
    ensures
        abs_int(fx_div_spec(far + near, far - near)) <= 140737488355328,
        abs_int(fx_mul_spec(far, near)) <= 17592186044416,
        abs_int(fx_div_spec(2 * fx_mul_spec(far, near), far - near)) <= 2305843009213693952,
{
    assert(abs_int((far + near) * (ONE as int)) <= 140737488355328int) by (nonlinear_arith)
        requires
            abs_int(far + near) <= 2147483648int,
    ;
    crate::fixed::lemma_fx_div_abs(far + near, far - near, 140737488355328);
    lemma_fx_mul_abs(far, near, CAM_LIMIT as int, CAM_LIMIT as int);
    assert((CAM_LIMIT as int) * (CAM_LIMIT as int) == 1152921504606846976int) by (nonlinear_arith);
    assert(1152921504606846976int / 65536int == 17592186044416int);
    let p = fx_mul_spec(far, near);
    assert(abs_int((2 * p) * (ONE as int)) <= 2305843009213693952int) by (nonlinear_arith)
        requires
            abs_int(p) <= 17592186044416int,
    ;
    crate::fixed::lemma_fx_div_abs(2 * p, far - near, 2305843009213693952);
}

} // verus!
