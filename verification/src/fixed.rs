//! Signed 16.16 fixed-point scalars.
//!
//! A scalar is an `i64` holding `value * 65536`, so `ONE` stands for the
//! real number 1.  Products and quotients are computed in `i128` and
//! rounded toward zero; the spec functions below state that rounding
//! exactly, and every arithmetic routine is proved to return it.

use vstd::prelude::*;

verus! {

/// Number of fixed-point units in the real number 1.
pub const ONE: i64 = 65536;

/// Magnitude of an integer.
pub open spec fn abs_int(a: int) -> int {
    if a >= 0 {
        a
    } else {
        -a
    }
}

/// Division rounded toward zero (the rounding of Rust's `/` on signed
/// integers), defined for a nonzero divisor.
pub open spec fn div_trunc(a: int, b: int) -> int
    recommends
        b != 0,
{
    if (a >= 0) == (b >= 0) {
        abs_int(a) / abs_int(b)
    } else {
        -(abs_int(a) / abs_int(b))
    }
}

/// Fixed-point product: `a * b` rescaled by `ONE`, rounded toward zero.
pub open spec fn fx_mul_spec(a: int, b: int) -> int {
    div_trunc(a * b, ONE as int)
}

/// Fixed-point quotient: `a / b` rescaled by `ONE`, rounded toward zero.
pub open spec fn fx_div_spec(a: int, b: int) -> int
    recommends
        b != 0,
{
    div_trunc(a * (ONE as int), b)
}

/// Multiplies two fixed-point scalars.
///
/// The requirement is the machine limit alone: the mathematically exact
/// product, once rescaled, must be representable in an `i64`.
pub fn fx_mul(a: i64, b: i64) -> (r: i64)
    requires
        i64::MIN <= fx_mul_spec(a as int, b as int) <= i64::MAX,
    ensures
        r == fx_mul_spec(a as int, b as int),
{
    let p: i128 = (a as i128) * (b as i128);
    let neg: bool = p < 0;
    let mag: u128 = if neg {
        (-p) as u128
    } else {
        p as u128
    };
    let q: u128 = mag / 65536;
    proof {
        assert(mag == abs_int(a as int * b as int));
        assert(q == abs_int(a as int * b as int) / (ONE as int));
        assert(neg ==> fx_mul_spec(a as int, b as int) == -(q as int));
        assert(!neg ==> fx_mul_spec(a as int, b as int) == q as int);
    }
    let r128: i128 = if neg {
        -(q as i128)
    } else {
        q as i128
    };
    r128 as i64
}

/// Divides two fixed-point scalars (`b` nonzero).
///
/// The requirement is the machine limit alone: the mathematically exact
/// quotient, once rescaled, must be representable in an `i64`.
pub fn fx_div(a: i64, b: i64) -> (r: i64)
    requires
        b != 0,
        i64::MIN <= fx_div_spec(a as int, b as int) <= i64::MAX,
    ensures
        r == fx_div_spec(a as int, b as int),
{
    let p: i128 = (a as i128) * 65536;
    let pneg: bool = p < 0;
    let pmag: u128 = if pneg {
        (-p) as u128
    } else {
        p as u128
    };
    let bneg: bool = b < 0;
    let bmag: u128 = if bneg {
        (-(b as i128)) as u128
    } else {
        b as u128
    };
    let q: u128 = pmag / bmag;
    let neg: bool = pneg != bneg;
    proof {
        assert(pmag == abs_int(a as int * (ONE as int)));
        assert(bmag == abs_int(b as int));
        assert(q == abs_int(a as int * (ONE as int)) / abs_int(b as int));
        assert(neg ==> fx_div_spec(a as int, b as int) == -(q as int));
        assert(!neg ==> fx_div_spec(a as int, b as int) == q as int);
    }
    let r128: i128 = if neg {
        -(q as i128)
    } else {
        q as i128
    };
    r128 as i64
}

/// A fixed-point product of nonnegative factors is nonnegative and
/// bounded by the rescaled product of the factors' bounds.
pub proof fn lemma_fx_mul_nonneg(a: int, b: int, aa: int, bb: int)
    requires
        0 <= a <= aa,
        0 <= b <= bb,
    ensures
        0 <= fx_mul_spec(a, b) <= (aa * bb) / (ONE as int),
{
    assert(0 <= a * b <= aa * bb) by (nonlinear_arith)
        requires
            0 <= a <= aa,
            0 <= b <= bb,
    ;
    vstd::arithmetic::div_mod::lemma_div_is_ordered(a * b, aa * bb, ONE as int);
    vstd::arithmetic::div_mod::lemma_div_pos_is_pos(a * b, ONE as int);
}

/// The magnitude of a fixed-point product is bounded by the rescaled
/// product of the factors' magnitude bounds.
pub proof fn lemma_fx_mul_abs(a: int, b: int, aa: int, bb: int)
    requires
        abs_int(a) <= aa,
        abs_int(b) <= bb,
    ensures
        abs_int(fx_mul_spec(a, b)) <= (aa * bb) / (ONE as int),
{
    assert(abs_int(a * b) == abs_int(a) * abs_int(b)) by (nonlinear_arith);
    assert(abs_int(a) * abs_int(b) <= aa * bb) by (nonlinear_arith)
        requires
            0 <= abs_int(a) <= aa,
            0 <= abs_int(b) <= bb,
    ;
    vstd::arithmetic::div_mod::lemma_div_is_ordered(abs_int(a * b), aa * bb, ONE as int);
    vstd::arithmetic::div_mod::lemma_div_pos_is_pos(abs_int(a * b), ONE as int);
}

/// A product of two factors bounded in magnitude by `m` is bounded in
/// magnitude by `m * m`.
pub proof fn lemma_prod_abs_bound(a: int, b: int, m: int)
    requires
        abs_int(a) <= m,
        abs_int(b) <= m,
    ensures
        abs_int(a * b) <= m * m,
        -(m * m) <= a * b <= m * m,
{
    assert(abs_int(a * b) == abs_int(a) * abs_int(b)) by (nonlinear_arith);
    assert(abs_int(a) * abs_int(b) <= m * m) by (nonlinear_arith)
        requires
            0 <= abs_int(a) <= m,
            0 <= abs_int(b) <= m,
    ;
}

/// A product of factors bounded in magnitude by `ma` and `mb` is
/// bounded in magnitude by `ma * mb`.
pub proof fn lemma_prod_abs_bound2(a: int, b: int, ma: int, mb: int)
    requires
        abs_int(a) <= ma,
        abs_int(b) <= mb,
    ensures
        abs_int(a * b) <= ma * mb,
        -(ma * mb) <= a * b <= ma * mb,
{
    assert(abs_int(a * b) == abs_int(a) * abs_int(b)) by (nonlinear_arith);
    assert(abs_int(a) * abs_int(b) <= ma * mb) by (nonlinear_arith)
        requires
            0 <= abs_int(a) <= ma,
            0 <= abs_int(b) <= mb,
    ;
}

/// Truncating division shrinks magnitudes: a bound on the dividend
/// gives the divided bound on the quotient.
pub proof fn lemma_div_trunc_bound(a: int, d: int, m: int)
    requires
        d > 0,
        abs_int(a) <= m,
    ensures
        abs_int(div_trunc(a, d)) <= m / d,
{
    vstd::arithmetic::div_mod::lemma_div_is_ordered(abs_int(a), m, d);
    vstd::arithmetic::div_mod::lemma_div_pos_is_pos(abs_int(a), d);
}

/// The magnitude of a fixed-point quotient is at most the magnitude of
/// the rescaled dividend, whatever the nonzero divisor.
pub proof fn lemma_fx_div_abs(a: int, b: int, m: int)
    requires
        b != 0,
        abs_int(a * (ONE as int)) <= m,
    ensures
        abs_int(fx_div_spec(a, b)) <= m,
{
    let p = abs_int(a * (ONE as int));
    vstd::arithmetic::div_mod::lemma_div_pos_is_pos(p, abs_int(b));
    assert(abs_int(div_trunc(a * (ONE as int), b)) == p / abs_int(b));
    vstd::arithmetic::div_mod::lemma_div_is_ordered_by_denominator(p, 1, abs_int(b));
    assert(p / 1 == p);
}

/// Truncating division cancels an exact multiple.
pub proof fn lemma_div_trunc_multiple(e: int, d: int)
    requires
        d > 0,
    ensures
        div_trunc(d * e, d) == e,
{
    if e >= 0 {
        assert(d * e >= 0) by (nonlinear_arith)
            requires
                d > 0,
                e >= 0,
        ;
        vstd::arithmetic::div_mod::lemma_div_multiples_vanish(e, d);
        assert(div_trunc(d * e, d) == (d * e) / d);
    } else {
        assert(d * e < 0) by (nonlinear_arith)
            requires
                d > 0,
                e < 0,
        ;
        assert(-(d * e) == d * (-e)) by (nonlinear_arith);
        vstd::arithmetic::div_mod::lemma_div_multiples_vanish(-e, d);
        assert(div_trunc(d * e, d) == -((d * (-e)) / d));
    }
}

/// Helper for [`sqrt_floor`]: the greatest `j <= k` with `j * j <= n`
/// (and `0` where there is none).
pub open spec fn sqrt_helper(n: int, k: nat) -> int
    decreases k,
{
    if (k as int) * (k as int) <= n {
        k as int
    } else if k == 0 {
        0
    } else {
        sqrt_helper(n, (k - 1) as nat)
    }
}

/// The integer square root (floor), defined for `0 <= n < 2^64`.
pub open spec fn sqrt_floor(n: int) -> int {
    sqrt_helper(n, 4294967296nat)
}

proof fn lemma_sqrt_helper(n: int, k: nat, r: int)
    requires
        0 <= r,
        r * r <= n,
        n < (r + 1) * (r + 1),
        r <= k as int,
    ensures
        sqrt_helper(n, k) == r,
    decreases k,
{
    if (k as int) * (k as int) <= n {
        if k as int > r {
            assert((r + 1) * (r + 1) <= (k as int) * (k as int)) by (nonlinear_arith)
                requires
                    0 <= r + 1 <= k as int,
            ;
            assert(false);
        }
    } else {
        assert(k as int != r);
        assert(k != 0);
        lemma_sqrt_helper(n, (k - 1) as nat, r);
    }
}

/// `sqrt_floor(n)` is the unique `r` with `r * r <= n < (r + 1) * (r + 1)`.
pub proof fn lemma_sqrt_floor(n: int, r: int)
    requires
        0 <= r,
        r * r <= n,
        n < (r + 1) * (r + 1),
        n < 18446744073709551616,
    ensures
        sqrt_floor(n) == r,
{
    if r > 4294967296 {
        assert(4294967296int * 4294967296int <= r * r) by (nonlinear_arith)
            requires
                4294967296 <= r,
        ;
        assert(false);
    }
    lemma_sqrt_helper(n, 4294967296nat, r);
}

/// Integer square root: the greatest `r` with `r * r <= n`.
pub fn isqrt_u64(n: u64) -> (r: u64)
    ensures
        r * r <= n < (r + 1) * (r + 1),
        r == sqrt_floor(n as int),
{
    let mut lo: u64 = 0;
    let mut hi: u64 = 4294967296;
    proof {
        assert((hi as int) * (hi as int) > n as int) by (nonlinear_arith)
            requires
                hi == 4294967296u64,
                n <= u64::MAX,
        ;
    }
    while lo + 1 < hi
        invariant
            lo < hi <= 4294967296,
            lo * lo <= n,
            (hi as int) * (hi as int) > n,
        decreases hi - lo,
    {
        let mid: u64 = lo + (hi - lo) / 2;
        proof {
            assert((mid as int) * (mid as int) <= (4294967296 as int) * (4294967296 as int))
                by (nonlinear_arith)
                requires
                    0 <= mid as int <= 4294967296,
            ;
        }
        let sq: u128 = (mid as u128) * (mid as u128);
        if sq <= n as u128 {
            lo = mid;
        } else {
            hi = mid;
        }
    }
    proof {
        lemma_sqrt_floor(n as int, lo as int);
    }
    lo
}

} // verus!
