//! Integer trigonometry on milli-degree angles.
//!
//! The facing direction of an entity is a milli-degree angle in
//! `[0, FULL_TURN)`. Its sine and cosine are fixed-point values in
//! `[-1000, 1000]`, computed exactly by a rational approximation of the
//! sine curve (a quadratic over a quadratic); the contracts pin the exact
//! integer result and its range.

use vstd::prelude::*;

verus! {

use vstd::arithmetic::div_mod::lemma_div_pos_is_pos;
use vstd::arithmetic::div_mod::lemma_div_is_ordered;
use crate::math::FULL_TURN;
use crate::math::norm_angle;

/// Sine on the first half turn, `m` in milli-degrees within `[0, 180_000]`,
/// scaled by 1000.
pub open spec fn sin_half_spec(m: int) -> int
    recommends
        0 <= m <= 180_000,
{
    (4000 * (m * (180_000 - m))) / (40_500_000_000 - m * (180_000 - m))
}

/// Sine of an angle in `[0, FULL_TURN)`, scaled by 1000.
pub open spec fn sin_spec(a: int) -> int
    recommends
        0 <= a < FULL_TURN,
{
    if a <= 180_000 {
        sin_half_spec(a)
    } else {
        -sin_half_spec(a - 180_000)
    }
}

/// Cosine of an angle in `[0, FULL_TURN)`, scaled by 1000: the sine a
/// quarter turn ahead.
pub open spec fn cos_spec(a: int) -> int
    recommends
        0 <= a < FULL_TURN,
{
    sin_spec((a + 90_000) % (FULL_TURN as int))
}

/// The half-turn numerator `m * (180_000 - m)` stays within `[0, 8_100_000_000]`.
proof fn lemma_hump_bounds(m: int)
    requires
        0 <= m <= 180_000,
    ensures
        0 <= m * (180_000 - m) <= 8_100_000_000,
{
    assert(0 <= m * (180_000 - m) <= 8_100_000_000) by (nonlinear_arith)
        requires
            0 <= m <= 180_000,
    ;
}

/// The half-turn sine stays within `[0, 1000]`.
pub proof fn lemma_sin_half_bounds(m: int)
    requires
        0 <= m <= 180_000,
    ensures
        0 <= sin_half_spec(m) <= 1000,
{
    let p = m * (180_000 - m);
    lemma_hump_bounds(m);
    let den = 40_500_000_000 - p;
    lemma_div_pos_is_pos(4000 * p, den);
    lemma_div_is_ordered(4000 * p, 1000 * den, den);
    assert((1000 * den) / den == 1000) by (nonlinear_arith)
        requires
            den > 0,
    ;
}

/// The sine of any angle stays within `[-1000, 1000]`.
pub proof fn lemma_sin_bounds(a: int)
    requires
        0 <= a < FULL_TURN,
    ensures
        -1000 <= sin_spec(a) <= 1000,
{
    if a <= 180_000 {
        lemma_sin_half_bounds(a);
    } else {
        lemma_sin_half_bounds(a - 180_000);
    }
}

/// Executable half-turn sine.
fn sin_half(m: i64) -> (r: i64)
    requires
        0 <= m <= 180_000,
    ensures
        r == sin_half_spec(m as int),
        0 <= r <= 1000,
{
    proof {
        lemma_hump_bounds(m as int);
        lemma_sin_half_bounds(m as int);
    }
    let p: i64 = m * (180_000 - m);
    let num: u64 = (4000 * p) as u64;
    let den: u64 = (40_500_000_000 - p) as u64;
    (num / den) as i64
}

/// Fixed-point sine of a normalized milli-degree angle.
pub fn sin_milli(a: i64) -> (r: i64)
    requires
        0 <= a < FULL_TURN,
    ensures
        r == sin_spec(a as int),
        -1000 <= r <= 1000,
{
    if a <= 180_000 {
        sin_half(a)
    } else {
        -sin_half(a - 180_000)
    }
}

/// Fixed-point cosine of a normalized milli-degree angle.
pub fn cos_milli(a: i64) -> (r: i64)
    requires
        0 <= a < FULL_TURN,
    ensures
        r == cos_spec(a as int),
        -1000 <= r <= 1000,
{
    let b: i64 = norm_angle(a + 90_000);
    sin_milli(b)
}

} // verus!
