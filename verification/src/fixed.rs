//! Fixed-point arithmetic for the simulation.
//!
//! Quantities are stored as `i64` counts of thousandths: a value of `1500`
//! stands for one and a half world units.  This module provides the division
//! and modulus helpers the simulation needs (all with floor/Euclidean
//! semantics, matching spec-level `/` and `%`), an integer square root, and
//! coarse fixed-point sine, cosine and arctangent approximations for headings.

use vstd::prelude::*;

verus! {

use vstd::arithmetic::div_mod::{
    lemma_fundamental_div_mod, lemma_fundamental_div_mod_converse,
};

/// Number of fixed-point steps per world unit.
pub const SCALE: i64 = 1000;

/// Half turn (pi) in fixed-point milliradians.
pub const PI_FP: i64 = 3142;

/// Quarter turn (pi/2) in fixed-point milliradians.
pub const HALF_PI_FP: i64 = 1571;

/// Full turn (2 pi) in fixed-point milliradians.
pub const TAU_FP: i64 = 6284;

/// Magnitudes this module accepts; wide enough for every simulation quantity.
pub const FP_LIMIT: i64 = 0x4000_0000_0000_0000;

/// Floor division by a positive divisor, i.e. the spec-level Euclidean `/`.
/// The quotient never grows in magnitude.
pub fn div_floor(a: i64, b: i64) -> (r: i64)
    requires
        1 <= b <= FP_LIMIT,
        i64::MIN < a,
    ensures
        r == a as int / b as int,
        a >= 0 ==> 0 <= r <= a,
        a < 0 ==> a <= r <= 0,
{
    if a >= 0 {
        let q: u64 = (a as u64) / (b as u64);
        proof {
            vstd::arithmetic::div_mod::lemma_div_pos_is_pos(a as int, b as int);
            vstd::arithmetic::div_mod::lemma_div_is_ordered_by_denominator(a as int, 1, b as int);
            lemma_fundamental_div_mod_converse(a as int, 1, a as int, 0);
        }
        q as i64
    } else {
        let x: u64 = (-a) as u64;
        let bu: u64 = b as u64;
        let q: u64 = (x + bu - 1) / bu;
        proof {
            lemma_fundamental_div_mod(x as int, bu as int);
            let fq = x as int / bu as int;
            let fr = x as int % bu as int;
            assert(x as int == bu as int * fq + fr);
            if fr == 0 {
                assert(x as int + bu - 1 == fq * bu + (bu - 1)) by (nonlinear_arith)
                    requires x as int == bu as int * fq + 0;
                lemma_fundamental_div_mod_converse(x as int + bu - 1, bu as int, fq, bu - 1);
                assert(a as int == (-fq) * b + 0) by (nonlinear_arith)
                    requires a as int == -(x as int), x as int == bu as int * fq + 0, b == bu;
                lemma_fundamental_div_mod_converse(a as int, b as int, -fq, 0);
            } else {
                assert(x as int + bu - 1 == (fq + 1) * bu + (fr - 1)) by (nonlinear_arith)
                    requires x as int == bu as int * fq + fr;
                lemma_fundamental_div_mod_converse(x as int + bu - 1, bu as int, fq + 1, fr - 1);
                assert(a as int == (-fq - 1) * b + (b - fr)) by (nonlinear_arith)
                    requires a as int == -(x as int), x as int == bu as int * fq + fr, b == bu;
                lemma_fundamental_div_mod_converse(a as int, b as int, -fq - 1, b - fr);
            }
            vstd::arithmetic::mul::lemma_mul_inequality(1, bu as int, x as int);
            vstd::arithmetic::mul::lemma_mul_is_commutative(bu as int, x as int);
            lemma_fundamental_div_mod_converse(
                (x as int) * (bu as int) + (bu as int) - 1,
                bu as int,
                x as int,
                bu as int - 1,
            );
            vstd::arithmetic::div_mod::lemma_div_is_ordered(
                x as int + bu as int - 1,
                (x as int) * (bu as int) + (bu as int) - 1,
                bu as int,
            );
        }
        -(q as i64)
    }
}

/// Euclidean remainder by a positive modulus: the result is in `[0, m)` and
/// congruent to `a`, i.e. the spec-level `%`.
pub fn mod_euclid(a: i64, m: i64) -> (r: i64)
    requires
        1 <= m <= FP_LIMIT,
        -FP_LIMIT <= a <= FP_LIMIT,
    ensures
        r == a as int % m as int,
        0 <= r < m,
{
    let q = div_floor(a, m);
    proof {
        lemma_fundamental_div_mod(a as int, m as int);
        assert(q * m == m * (a as int / m as int)) by (nonlinear_arith)
            requires q == a as int / m as int;
        assert(0 <= a as int % (m as int));
        assert(a as int % (m as int) < m);
    }
    a - q * m
}

/// Adds two nonnegative values, capping at the numeric limit instead of
/// overflowing (for accumulators with no natural upper bound).
pub fn add_saturating(a: i64, b: i64) -> (r: i64)
    requires
        0 <= a,
        0 <= b,
    ensures
        r == if a + b <= i64::MAX {
            a + b
        } else {
            i64::MAX as int
        },
{
    if a > i64::MAX - b {
        i64::MAX
    } else {
        a + b
    }
}

/// On the torus, a coordinate already in `[0, w)` stays put under
/// wrapping, and one that undershot zero by less than a world width comes
/// back shifted up by exactly `w`.
pub proof fn lemma_wrap_in_range(p: int, w: int)
    requires
        1 <= w,
    ensures
        0 <= p < w ==> p % w == p,
        -w <= p < 0 ==> p % w == p + w,
{
    if 0 <= p < w {
        lemma_fundamental_div_mod_converse(p, w, 0, p);
    }
    if -w <= p < 0 {
        lemma_fundamental_div_mod_converse(p, w, -1, p + w);
    }
}

/// Clamps `v` into `[lo, hi]`.
pub fn clamp_fp(v: i64, lo: i64, hi: i64) -> (r: i64)
    requires
        lo <= hi,
    ensures
        r == spec_clamp(v as int, lo as int, hi as int),
{
    if v < lo {
        lo
    } else if v > hi {
        hi
    } else {
        v
    }
}

/// The value of `v` clamped into `[lo, hi]`.
pub open spec fn spec_clamp(v: int, lo: int, hi: int) -> int {
    if v < lo {
        lo
    } else if v > hi {
        hi
    } else {
        v
    }
}

/// Integer square root: the largest `r` with `r * r <= n`.
pub fn isqrt(n: i64) -> (r: i64)
    requires
        0 <= n,
    ensures
        0 <= r,
        r * r <= n,
        (r + 1) * (r + 1) > n,
{
    let mut lo: i64 = 0;
    let mut hi: i64 = 3037000500;
    proof {
        assert(3037000500int * 3037000500 > i64::MAX);
    }
    while lo + 1 < hi
        invariant
            0 <= lo < hi <= 3037000500,
            lo * lo <= n,
            hi * hi > n,
            n <= i64::MAX,
        decreases hi - lo,
    {
        let mid: i64 = lo + (((hi - lo) as u64 / 2) as i64);
        proof {
            assert(lo < mid < hi);
            vstd::arithmetic::mul::lemma_mul_nonnegative(mid as int, mid as int);
            vstd::arithmetic::mul::lemma_mul_upper_bound(mid as int, 3037000499, mid as int, 3037000499);
            assert(3037000499int * 3037000499 < i64::MAX);
        }
        if mid * mid <= n {
            lo = mid;
        } else {
            hi = mid;
        }
    }
    proof {
        vstd::arithmetic::mul::lemma_mul_inequality(hi as int, lo as int + 1, hi as int);
        vstd::arithmetic::mul::lemma_mul_left_inequality(lo as int + 1, hi as int, lo as int + 1);
    }
    lo
}

/// One-piece rational approximation of the sine on `[0, pi]`, in fixed point:
/// `bh(x) = 16000 * x * (pi - x) / (5 * pi^2 - 4 * x * (pi - x))`.
pub open spec fn spec_sin_half(x: int) -> int {
    (16000 * (x * (PI_FP - x))) / (49360820 - 4 * (x * (PI_FP - x)))
}

/// Fixed-point sine of an angle in milliradians, exact over the integer
/// approximation `spec_sin_half` on the wrapped angle.
pub open spec fn spec_sin(a: int) -> int {
    let x = a % (TAU_FP as int);
    if x <= PI_FP {
        spec_sin_half(x)
    } else {
        -spec_sin_half(x - PI_FP)
    }
}

/// Fixed-point cosine, as the sine shifted a quarter turn.
pub open spec fn spec_cos(a: int) -> int {
    spec_sin(a + HALF_PI_FP)
}

/// `x * (2h - x)` never exceeds `h * h`: the parabola peaks at its midpoint.
proof fn lemma_parabola_peak(x: int, h: int)
    ensures
        x * (2 * h - x) == h * h - (x - h) * (x - h),
        x * (2 * h - x) <= h * h,
{
    assert(x * (2 * h - x) == h * h - (x - h) * (x - h)) by (nonlinear_arith);
    assert((x - h) * (x - h) >= 0) by (nonlinear_arith);
}

/// The product `x * (PI_FP - x)` over `[0, PI_FP]` peaks at the midpoint.
proof fn lemma_half_turn_product_bounds(x: int)
    requires
        0 <= x <= PI_FP,
    ensures
        0 <= x * (PI_FP - x) <= 2468041,
{
    vstd::arithmetic::mul::lemma_mul_nonnegative(x, 3142 - x);
    lemma_parabola_peak(x, 1571);
    assert(x * (PI_FP - x) == x * (2 * 1571 - x));
    assert(1571int * 1571 == 2468041);
    assert(x * (2 * 1571 - x) <= 2468041);
}

proof fn lemma_sin_half_bounds(x: int)
    requires
        0 <= x <= PI_FP,
    ensures
        0 <= spec_sin_half(x) <= SCALE,
{
    lemma_half_turn_product_bounds(x);
    let p = x * (PI_FP - x);
    let num = 16000 * p;
    let den = 49360820 - 4 * p;
    vstd::arithmetic::mul::lemma_mul_left_inequality(16000, p, 2468041);
    vstd::arithmetic::mul::lemma_mul_left_inequality(4, p, 2468041);
    vstd::arithmetic::mul::lemma_mul_nonnegative(16000, p);
    vstd::arithmetic::mul::lemma_mul_nonnegative(4, p);
    assert(0 <= num <= 39488656000);
    assert(39488656 <= den);
    vstd::arithmetic::div_mod::lemma_div_pos_is_pos(num, den);
    vstd::arithmetic::div_mod::lemma_div_is_ordered_by_denominator(num, 39488656, den);
    vstd::arithmetic::div_mod::lemma_div_is_ordered(num, 39488656000, 39488656);
    lemma_fundamental_div_mod_converse(39488656000, 39488656, 1000, 0);
    assert(39488656000int == 1000 * 39488656 + 0);
}

/// The fixed-point sine always lies in `[-SCALE, SCALE]`.
pub proof fn lemma_sin_bounds(a: int)
    ensures
        -SCALE <= spec_sin(a) <= SCALE,
{
    let x = a % (TAU_FP as int);
    vstd::arithmetic::div_mod::lemma_mod_division_less_than_divisor(a, TAU_FP as int);
    if x <= PI_FP {
        lemma_sin_half_bounds(x);
    } else {
        lemma_sin_half_bounds(x - PI_FP);
    }
}

/// Fixed-point sine of `a` milliradians; result is in thousandths.
pub fn sin_fp(a: i64) -> (r: i64)
    requires
        -FP_LIMIT <= a <= FP_LIMIT,
    ensures
        r == spec_sin(a as int),
        -SCALE <= r <= SCALE,
{
    let x = mod_euclid(a, TAU_FP);
    proof {
        lemma_sin_bounds(a as int);
    }
    if x <= PI_FP {
        sin_half(x)
    } else {
        -sin_half(x - PI_FP)
    }
}

/// Fixed-point cosine of `a` milliradians; result is in thousandths.
pub fn cos_fp(a: i64) -> (r: i64)
    requires
        -FP_LIMIT + HALF_PI_FP <= a <= FP_LIMIT - HALF_PI_FP,
    ensures
        r == spec_cos(a as int),
        -SCALE <= r <= SCALE,
{
    sin_fp(a + HALF_PI_FP)
}

fn sin_half(x: i64) -> (r: i64)
    requires
        0 <= x <= PI_FP,
    ensures
        r == spec_sin_half(x as int),
{
    proof {
        lemma_half_turn_product_bounds(x as int);
        vstd::arithmetic::mul::lemma_mul_left_inequality(16000, x as int * (PI_FP - x as int), 2468041);
        vstd::arithmetic::mul::lemma_mul_left_inequality(4, x as int * (PI_FP - x as int), 2468041);
        vstd::arithmetic::mul::lemma_mul_nonnegative(16000, x as int * (PI_FP - x as int));
        vstd::arithmetic::mul::lemma_mul_nonnegative(4, x as int * (PI_FP - x as int));
    }
    let p: i64 = x * (PI_FP - x);
    let num: u64 = (16000 * p) as u64;
    let den: u64 = (49360820 - 4 * p) as u64;
    proof {
        assert(0 <= num <= 39488656000);
        assert(39488656 <= den);
        vstd::arithmetic::div_mod::lemma_div_pos_is_pos(num as int, den as int);
        vstd::arithmetic::div_mod::lemma_div_is_ordered_by_denominator(num as int, 39488656, den as int);
        vstd::arithmetic::div_mod::lemma_div_is_ordered(num as int, 39488656000, 39488656);
        lemma_fundamental_div_mod_converse(39488656000, 39488656, 1000, 0);
        assert(39488656000int == 1000 * 39488656 + 0);
    }
    (num / den) as i64
}

/// Quadratic approximation of the arctangent on `[0, 1]`, in fixed point:
/// `z * (785 + 273 * (1000 - z) / 1000) / 1000` for `z` in thousandths.
pub open spec fn spec_atan_frac(z: int) -> int {
    (z * (785 + (273 * (1000 - z)) / 1000)) / 1000
}

/// Fixed-point two-argument arctangent: the heading of the vector `(x, y)`
/// in milliradians, in `[-PI_FP, PI_FP]`.
pub open spec fn spec_atan2(y: int, x: int) -> int {
    let ax = if x < 0 { -x } else { x };
    let ay = if y < 0 { -y } else { y };
    let base = if ay <= ax {
        if ax == 0 {
            0
        } else {
            spec_atan_frac((ay * 1000) / ax)
        }
    } else {
        HALF_PI_FP - spec_atan_frac((ax * 1000) / ay)
    };
    if x >= 0 && y >= 0 {
        base
    } else if x < 0 && y >= 0 {
        PI_FP - base
    } else if x < 0 {
        -(PI_FP - base)
    } else {
        -base
    }
}

proof fn lemma_atan_frac_bounds(z: int)
    requires
        0 <= z <= 1000,
    ensures
        0 <= spec_atan_frac(z) <= 1100,
{
    let t = 785 + (273 * (1000 - z)) / 1000;
    vstd::arithmetic::mul::lemma_mul_left_inequality(273, 1000 - z, 1000);
    vstd::arithmetic::mul::lemma_mul_nonnegative(273, 1000 - z);
    assert(0 <= 273 * (1000 - z) <= 273000);
    vstd::arithmetic::div_mod::lemma_div_pos_is_pos(273 * (1000 - z), 1000);
    vstd::arithmetic::div_mod::lemma_div_is_ordered(273 * (1000 - z), 273000, 1000);
    assert(785 <= t <= 1058);
    vstd::arithmetic::mul::lemma_mul_upper_bound(z, 1000, t, 1058);
    vstd::arithmetic::mul::lemma_mul_nonnegative(z, t);
    vstd::arithmetic::div_mod::lemma_div_pos_is_pos(z * t, 1000);
    vstd::arithmetic::div_mod::lemma_div_is_ordered(z * t, 1058000, 1000);
}

/// The fixed-point arctangent always lies in `[-PI_FP, PI_FP]`.
pub proof fn lemma_atan2_bounds(y: int, x: int)
    ensures
        -PI_FP <= spec_atan2(y, x) <= PI_FP,
{
    let ax = if x < 0 { -x } else { x };
    let ay = if y < 0 { -y } else { y };
    if ay <= ax {
        if ax != 0 {
            vstd::arithmetic::div_mod::lemma_div_pos_is_pos(ay * 1000, ax);
            vstd::arithmetic::mul::lemma_mul_inequality(ay, ax, 1000);
            vstd::arithmetic::div_mod::lemma_div_is_ordered(ay * 1000, ax * 1000, ax);
            vstd::arithmetic::div_mod::lemma_div_by_multiple(1000, ax);
            lemma_atan_frac_bounds((ay * 1000) / ax);
        }
    } else {
        vstd::arithmetic::div_mod::lemma_div_pos_is_pos(ax * 1000, ay);
        vstd::arithmetic::mul::lemma_mul_inequality(ax, ay, 1000);
        vstd::arithmetic::div_mod::lemma_div_is_ordered(ax * 1000, ay * 1000, ay);
        vstd::arithmetic::div_mod::lemma_div_by_multiple(1000, ay);
        lemma_atan_frac_bounds((ax * 1000) / ay);
    }
}

/// Fixed-point heading of the vector `(x, y)`, in milliradians.
pub fn atan2_fp(y: i64, x: i64) -> (r: i64)
    requires
        -1000000000000 <= y <= 1000000000000,
        -1000000000000 <= x <= 1000000000000,
    ensures
        r == spec_atan2(y as int, x as int),
        -PI_FP <= r <= PI_FP,
{
    proof {
        lemma_atan2_bounds(y as int, x as int);
    }
    let ax: i64 = if x < 0 { -x } else { x };
    let ay: i64 = if y < 0 { -y } else { y };
    let base: i64 = if ay <= ax {
        if ax == 0 {
            0
        } else {
            proof {
                vstd::arithmetic::mul::lemma_mul_inequality(ay as int, ax as int, 1000);
                vstd::arithmetic::div_mod::lemma_div_pos_is_pos(ay as int * 1000, ax as int);
                vstd::arithmetic::div_mod::lemma_div_is_ordered(
                    ay as int * 1000, ax as int * 1000, ax as int);
                vstd::arithmetic::div_mod::lemma_div_by_multiple(1000, ax as int);
            }
            atan_frac(((ay as u64 * 1000) / (ax as u64)) as i64)
        }
    } else {
        proof {
            vstd::arithmetic::mul::lemma_mul_inequality(ax as int, ay as int, 1000);
            vstd::arithmetic::div_mod::lemma_div_pos_is_pos(ax as int * 1000, ay as int);
            vstd::arithmetic::div_mod::lemma_div_is_ordered(
                ax as int * 1000, ay as int * 1000, ay as int);
            vstd::arithmetic::div_mod::lemma_div_by_multiple(1000, ay as int);
        }
        HALF_PI_FP - atan_frac(((ax as u64 * 1000) / (ay as u64)) as i64)
    };
    if x >= 0 && y >= 0 {
        base
    } else if x < 0 && y >= 0 {
        PI_FP - base
    } else if x < 0 {
        -(PI_FP - base)
    } else {
        -base
    }
}

fn atan_frac(z: i64) -> (r: i64)
    requires
        0 <= z <= 1000,
    ensures
        r == spec_atan_frac(z as int),
        0 <= r <= 1100,
{
    proof {
        lemma_atan_frac_bounds(z as int);
    }
    let t: i64 = 785 + ((273 * (1000 - z)) as u64 / 1000) as i64;
    ((z * t) as u64 / 1000) as i64
}

} // verus!
