//! Fixed-point arithmetic helpers for the simulation core.
//!
//! All world quantities are integers: positions and radii in milli-units,
//! velocities in milli-units per second, angles in milli-degrees, time in
//! microseconds. Scaling a value by a rational factor rounds toward zero.

use vstd::prelude::*;

verus! {

use vstd::arithmetic::div_mod::lemma_fundamental_div_mod;
use vstd::arithmetic::div_mod::lemma_div_pos_is_pos;
use vstd::arithmetic::div_mod::lemma_div_is_ordered;
use vstd::arithmetic::div_mod::lemma_div_nonincreasing;
use vstd::arithmetic::div_mod::lemma_mod_division_less_than_divisor;
use vstd::arithmetic::mul::lemma_mul_inequality;
use vstd::math::abs;

/// Largest magnitude of a position component the model represents (milli-units).
pub const POS_MAX: i64 = 4_000_000_000_000_000;

/// Largest magnitude of a velocity component (milli-units per second).
pub const VEL_MAX: i64 = 2_000_000_000;

/// Largest bounding radius (milli-units).
pub const RADIUS_MAX: i64 = 1_000_000_000;

/// Largest viewport half-extent (milli-units).
pub const HALF_EXTENT_MAX: i64 = 1_000_000_000_000;

/// Milli-degrees in one full turn.
pub const FULL_TURN: i64 = 360_000;

/// Microseconds in one second.
pub const MICROS_PER_SEC: i64 = 1_000_000;

/// `v * num / den`, rounded toward zero; the one rounding rule of the model.
pub open spec fn scaled_spec(v: int, num: int, den: int) -> int
    recommends
        0 <= num,
        0 < den,
{
    if v >= 0 {
        (v * num) / den
    } else {
        -(((-v) * num) / den)
    }
}

/// Executable form of `scaled_spec`; all divisions happen on non-negative values.
pub fn scaled(v: i64, num: i64, den: i64) -> (r: i64)
    requires
        0 <= num,
        0 < den,
        v > i64::MIN,
        abs(v as int) * num <= i64::MAX,
    ensures
        r == scaled_spec(v as int, num as int, den as int),
{
    let a: u64 = if v >= 0 {
        v as u64
    } else {
        (-v) as u64
    };
    proof {
        lemma_div_pos_is_pos((a * num) as int, den as int);
        lemma_div_nonincreasing((a * num) as int, den as int);
    }
    let q: u64 = (a * (num as u64)) / (den as u64);
    if v >= 0 {
        q as i64
    } else {
        -(q as i64)
    }
}

/// The scaled value keeps the sign of `v`, and its magnitude is the
/// magnitude of `v` scaled.
pub proof fn lemma_scaled_sign(v: int, num: int, den: int)
    requires
        0 <= num,
        0 < den,
    ensures
        v >= 0 ==> scaled_spec(v, num, den) >= 0,
        v <= 0 ==> scaled_spec(v, num, den) <= 0,
        abs(scaled_spec(v, num, den)) == (abs(v) * num) / den,
{
    if v >= 0 {
        assert(0 <= v * num) by (nonlinear_arith)
            requires
                0 <= num,
                0 <= v,
        ;
        lemma_div_pos_is_pos(v * num, den);
    } else {
        assert(0 <= (-v) * num) by (nonlinear_arith)
            requires
                0 <= num,
                v < 0,
        ;
        lemma_div_pos_is_pos((-v) * num, den);
        assert(scaled_spec(v, num, den) == -(((-v) * num) / den));
        assert(abs(v) * num == (-v) * num);
    }
}

/// Multiplying the scaled magnitude back by the denominator never exceeds
/// the unscaled product: rounding is toward zero.
pub proof fn lemma_scaled_mul_bound(v: int, num: int, den: int)
    requires
        0 <= num,
        0 < den,
    ensures
        abs(scaled_spec(v, num, den)) * den <= abs(v) * num,
{
    let a = abs(v) * num;
    lemma_scaled_sign(v, num, den);
    lemma_fundamental_div_mod(a, den);
    lemma_mod_division_less_than_divisor(a, den);
    assert((a / den) * den == a - a % den) by (nonlinear_arith)
        requires
            a == den * (a / den) + a % den,
    ;
}

/// Scaling by a factor at most one never grows the magnitude.
pub proof fn lemma_scaled_abs_le(v: int, num: int, den: int)
    requires
        0 <= num <= den,
        0 < den,
    ensures
        abs(scaled_spec(v, num, den)) <= abs(v),
{
    lemma_scaled_sign(v, num, den);
    lemma_mul_inequality(num, den, abs(v) as int);
    assert(abs(v) * num <= abs(v) * den) by (nonlinear_arith)
        requires
            0 <= abs(v),
            num <= den,
    ;
    lemma_div_is_ordered(abs(v) * num, abs(v) * den, den);
    assert((abs(v) * den) / den == abs(v)) by (nonlinear_arith)
        requires
            0 < den,
    ;
}

/// `m` is the integer square-root of `n`, rounded up.
pub open spec fn is_ceil_sqrt(n: int, m: int) -> bool {
    0 <= m && n <= m * m && (m > 0 ==> (m - 1) * (m - 1) < n)
}

/// Smallest `m` with `m * m >= n`, by binary search.
pub fn ceil_sqrt(n: u64) -> (r: u64)
    requires
        n <= 9_000_000_000_000_000_000,
    ensures
        is_ceil_sqrt(n as int, r as int),
        r <= 3_000_000_000,
{
    let mut lo: u64 = 0;
    let mut hi: u64 = 3_000_000_000;
    proof {
        assert(3_000_000_000int * 3_000_000_000int >= n);
    }
    while lo < hi
        invariant
            lo <= hi <= 3_000_000_000,
            n <= hi * hi,
            lo > 0 ==> (lo - 1) * (lo - 1) < n,
        decreases hi - lo,
    {
        let mid: u64 = lo + (hi - lo) / 2;
        assert(mid * mid <= 9_000_000_000_000_000_000) by (nonlinear_arith)
            requires
                mid <= 3_000_000_000,
        ;
        if mid * mid >= n {
            hi = mid;
        } else {
            lo = mid + 1;
        }
    }
    lo
}

/// Smallest `m` with `m * m >= n`, for wide arguments.
pub fn ceil_sqrt128(n: u128) -> (r: u128)
    requires
        n <= 20_000_000_000_000_000_000_000_000,
    ensures
        is_ceil_sqrt(n as int, r as int),
        r <= 5_000_000_000_000,
{
    let mut lo: u128 = 0;
    let mut hi: u128 = 5_000_000_000_000;
    proof {
        assert(5_000_000_000_000int * 5_000_000_000_000int >= n);
    }
    while lo < hi
        invariant
            lo <= hi <= 5_000_000_000_000,
            n <= hi * hi,
            lo > 0 ==> (lo - 1) * (lo - 1) < n,
        decreases hi - lo,
    {
        let mid: u128 = lo + (hi - lo) / 2;
        assert(mid * mid <= 25_000_000_000_000_000_000_000_000) by (nonlinear_arith)
            requires
                mid <= 5_000_000_000_000,
        ;
        if mid * mid >= n {
            hi = mid;
        } else {
            lo = mid + 1;
        }
    }
    lo
}

/// A square root bound transfers to the bounded value: if `n` exceeds
/// `l * l` then its ceiling root exceeds `l`.
pub proof fn lemma_ceil_sqrt_above(n: int, m: int, l: int)
    requires
        is_ceil_sqrt(n, m),
        0 <= l,
        l * l < n,
    ensures
        l < m,
{
    if m <= l {
        lemma_mul_inequality(m, l, m);
        lemma_mul_inequality(m, l, l);
        assert(m * m <= l * l) by (nonlinear_arith)
            requires
                0 <= m <= l,
        ;
    }
}

/// Scaling both components of a vector by `l / m`, where `m * m` bounds the
/// squared norm, keeps the squared norm within `l * l`.
pub proof fn lemma_scaled_norm_bound(x: int, y: int, l: int, m: int)
    requires
        0 <= l,
        0 < m,
        x * x + y * y <= m * m,
    ensures
        scaled_spec(x, l, m) * scaled_spec(x, l, m) + scaled_spec(y, l, m) * scaled_spec(y, l, m)
            <= l * l,
{
    let qx = abs(scaled_spec(x, l, m)) as int;
    let qy = abs(scaled_spec(y, l, m)) as int;
    lemma_scaled_sign(x, l, m);
    lemma_scaled_sign(y, l, m);
    lemma_scaled_mul_bound(x, l, m);
    lemma_scaled_mul_bound(y, l, m);
    assert(qx * qx * (m * m) <= (abs(x) * abs(x)) * (l * l)) by (nonlinear_arith)
        requires
            0 <= qx,
            0 < m,
            qx * m <= abs(x) * l,
            0 <= l,
    ;
    assert(qy * qy * (m * m) <= (abs(y) * abs(y)) * (l * l)) by (nonlinear_arith)
        requires
            0 <= qy,
            0 < m,
            qy * m <= abs(y) * l,
            0 <= l,
    ;
    assert(abs(x) * abs(x) == x * x) by (nonlinear_arith);
    assert(abs(y) * abs(y) == y * y) by (nonlinear_arith);
    assert((x * x) * (l * l) + (y * y) * (l * l) <= (m * m) * (l * l)) by (nonlinear_arith)
        requires
            x * x + y * y <= m * m,
            0 <= l * l,
    ;
    assert(qx * qx + qy * qy <= l * l) by (nonlinear_arith)
        requires
            qx * qx * (m * m) + qy * qy * (m * m) <= (m * m) * (l * l),
            0 < m,
    ;
    assert(qx * qx == scaled_spec(x, l, m) * scaled_spec(x, l, m)) by (nonlinear_arith)
        requires
            qx == abs(scaled_spec(x, l, m)),
    ;
    assert(qy * qy == scaled_spec(y, l, m) * scaled_spec(y, l, m)) by (nonlinear_arith)
        requires
            qy == abs(scaled_spec(y, l, m)),
    ;
}

/// `v + d`, then clamped into `[-bound, bound]`.
pub open spec fn clamp_spec(v: int, bound: int) -> int {
    if v < -bound {
        -bound
    } else if v > bound {
        bound
    } else {
        v
    }
}

/// Saturating addition into the representable band `[-bound, bound]`.
pub fn add_clamped(v: i64, d: i64, bound: i64) -> (r: i64)
    requires
        0 < bound,
        i64::MIN < v + d < i64::MAX,
    ensures
        r == clamp_spec(v + d, bound as int),
{
    let s: i64 = v + d;
    if s < -bound {
        -bound
    } else if s > bound {
        bound
    } else {
        s
    }
}

/// Angle normalization into `[0, FULL_TURN)`; agrees with the mathematical
/// remainder, whose result is non-negative for a positive divisor.
pub fn norm_angle(a: i64) -> (r: i64)
    requires
        -1_000_000_000 <= a <= 1_000_000_000,
    ensures
        r == (a as int) % (FULL_TURN as int),
        0 <= r < FULL_TURN,
{
    if a >= 0 {
        let r: u64 = (a as u64) % 360_000;
        r as i64
    } else {
        let m: u64 = ((-a) as u64) % 360_000;
        proof {
            lemma_fundamental_div_mod(-a, 360_000);
            lemma_mod_division_less_than_divisor(-a, 360_000);
            let q = (-a) / 360_000;
            assert(a == 360_000 * (-q) - ((-a) % 360_000));
            if m == 0 {
                assert(a == 360_000 * (-q));
                assert(a % 360_000 == 0) by (nonlinear_arith)
                    requires
                        a == 360_000 * (-q),
                ;
            } else {
                assert(a == 360_000 * (-q - 1) + (360_000 - m));
                assert(a % 360_000 == 360_000 - m) by (nonlinear_arith)
                    requires
                        a == 360_000 * (-q - 1) + (360_000 - m),
                        0 < 360_000 - m < 360_000,
                ;
            }
        }
        if m == 0 {
            0
        } else {
            (360_000 - m) as i64
        }
    }
}

} // verus!
