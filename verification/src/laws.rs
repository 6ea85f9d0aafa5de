//! Cross-cutting laws of the simulation, proved from the systems'
//! contracts: the speed clamp's bound and direction preservation, the
//! geometric decay of repeated damping, and the weapon's firing cadence.

use vstd::prelude::*;

verus! {

use vstd::math::abs;
use vstd::arithmetic::power::pow;
use vstd::arithmetic::power::lemma_pow_positive;
use vstd::arithmetic::div_mod::lemma_fundamental_div_mod;
use vstd::arithmetic::div_mod::lemma_fundamental_div_mod_converse;
use vstd::arithmetic::div_mod::lemma_mod_division_less_than_divisor;
use vstd::arithmetic::div_mod::lemma_small_mod;
use crate::components::norm_sq;
use crate::components::timer_elapsed_spec;
use crate::components::timer_fires_spec;
use crate::math::scaled_spec;
use crate::math::lemma_scaled_sign;
use crate::math::lemma_scaled_abs_le;
use crate::math::lemma_scaled_mul_bound;
use crate::math::lemma_scaled_norm_bound;
use crate::math::lemma_ceil_sqrt_above;
use crate::systems::clamped_velocity;
use crate::systems::sqrt_ceil_spec;
use crate::systems::lemma_sqrt_ceil_spec;
use crate::world::Entity;

/// Speed-clamp law: after the clamp stage the velocity magnitude is at
/// most the entity's limit; a velocity already within the limit is left
/// exactly as it was; and each component keeps its sign (in particular, a
/// zero component stays zero), so the direction is preserved up to the
/// rounding of the fixed-point rescale.
pub proof fn lemma_speed_clamp(e: Entity, l: i64)
    requires
        e.wf(),
        e.speed_limit == Some(l),
    ensures
        norm_sq(
            clamped_velocity(e).velocity.x as int,
            clamped_velocity(e).velocity.y as int,
        ) <= l * l,
        norm_sq(e.velocity.x as int, e.velocity.y as int) <= l * l ==> clamped_velocity(e) == e,
        e.velocity.x >= 0 ==> clamped_velocity(e).velocity.x >= 0,
        e.velocity.x <= 0 ==> clamped_velocity(e).velocity.x <= 0,
        e.velocity.y >= 0 ==> clamped_velocity(e).velocity.y >= 0,
        e.velocity.y <= 0 ==> clamped_velocity(e).velocity.y <= 0,
        abs(clamped_velocity(e).velocity.x as int) <= abs(e.velocity.x as int),
        abs(clamped_velocity(e).velocity.y as int) <= abs(e.velocity.y as int),
{
    let x = e.velocity.x as int;
    let y = e.velocity.y as int;
    let nsq = norm_sq(x, y);
    if nsq > l * l {
        let m = sqrt_ceil_spec(nsq);
        assert(0 <= x * x && 0 <= y * y) by (nonlinear_arith);
        lemma_sqrt_ceil_spec(nsq);
        assert(0 <= l * l) by (nonlinear_arith);
        assert(m >= 1) by (nonlinear_arith)
            requires
                nsq >= 1,
                nsq <= m * m,
                0 <= m,
        ;
        lemma_ceil_sqrt_above(nsq, m, l as int);
        lemma_scaled_norm_bound(x, y, l as int, m);
        lemma_scaled_sign(x, l as int, m);
        lemma_scaled_sign(y, l as int, m);
        lemma_scaled_abs_le(x, l as int, m);
        lemma_scaled_abs_le(y, l as int, m);
        let vx = scaled_spec(x, l as int, m);
        let vy = scaled_spec(y, l as int, m);
        assert(clamped_velocity(e).velocity.x == vx as i64);
        assert(clamped_velocity(e).velocity.y == vy as i64);
    }
}

/// The velocity component after `n` damping stages with factor `d` parts
/// per thousand and no other force.
pub open spec fn damp_n(v: int, d: int, n: nat) -> int
    decreases n,
{
    if n == 0 {
        v
    } else {
        scaled_spec(damp_n(v, d, (n - 1) as nat), d, 1000)
    }
}

/// Damping law: each stage multiplies the velocity by the factor `d /
/// 1000`, rounding toward zero, so after `n` stages with no other force
/// the magnitude is bounded by the geometric decay `|v| * (d / 1000)^n`,
/// it never grows, and the sign never flips. The bound is one-sided:
/// rounding toward zero makes the true value fall short of the exact
/// geometric sequence (a component of 1 with factor 999 reaches 0 after
/// one stage).
pub proof fn lemma_damping_geometric(v: int, d: int, n: nat)
    requires
        0 < d <= 1000,
    ensures
        abs(damp_n(v, d, n)) * pow(1000, n) <= abs(v) * pow(d, n),
        abs(damp_n(v, d, n)) <= abs(v),
        v >= 0 ==> damp_n(v, d, n) >= 0,
        v <= 0 ==> damp_n(v, d, n) <= 0,
    decreases n,
{
    if n == 0 {
        assert(pow(1000, 0) == 1 && pow(d, 0) == 1) by {
            reveal(pow);
        }
    } else {
        lemma_damping_geometric(v, d, (n - 1) as nat);
        let u = damp_n(v, d, (n - 1) as nat);
        let w = damp_n(v, d, n);
        lemma_scaled_mul_bound(u, d, 1000);
        lemma_scaled_sign(u, d, 1000);
        lemma_scaled_abs_le(u, d, 1000);
        lemma_pow_positive(1000, (n - 1) as nat);
        lemma_pow_positive(d, (n - 1) as nat);
        assert(pow(1000, n) == 1000 * pow(1000, (n - 1) as nat) && pow(d, n) == d * pow(
            d,
            (n - 1) as nat,
        )) by {
            reveal(pow);
        }
        assert(abs(w) * (1000 * pow(1000, (n - 1) as nat)) <= abs(v) * (d * pow(
            d,
            (n - 1) as nat,
        ))) by (nonlinear_arith)
            requires
                abs(w) * 1000 <= abs(u) * d,
                abs(u) * pow(1000, (n - 1) as nat) <= abs(v) * pow(d, (n - 1) as nat),
                0 < pow(1000, (n - 1) as nat),
                0 < pow(d, (n - 1) as nat),
                0 < d <= 1000,
                0 <= abs(w),
                0 <= abs(u),
                0 <= abs(v),
        ;
    }
}

/// The weapon timer's accumulated time after `n` ticks of `dt`
/// microseconds each.
pub open spec fn elapsed_after(e0: int, dt: int, cd: int, n: nat) -> int
    decreases n,
{
    if n == 0 {
        e0
    } else {
        timer_elapsed_spec(elapsed_after(e0, dt, cd, (n - 1) as nat), dt, cd)
    }
}

/// How many of the first `n` ticks completed the cooldown interval: with
/// the trigger held, exactly how many projectiles were fired.
pub open spec fn fires_after(e0: int, dt: int, cd: int, n: nat) -> int
    decreases n,
{
    if n == 0 {
        0
    } else {
        fires_after(e0, dt, cd, (n - 1) as nat) + if timer_fires_spec(
            elapsed_after(e0, dt, cd, (n - 1) as nat),
            dt,
            cd,
        ) {
            1int
        } else {
            0int
        }
    }
}

/// Weapon cadence law: with a tick no longer than the cooldown, after `n`
/// ticks the timer holds exactly the residue of the total elapsed time,
/// and the interval has completed exactly once per full cooldown of
/// elapsed time: `(e0 + n * dt) / cd` firings, never more, never fewer.
pub proof fn lemma_weapon_cadence(e0: int, dt: int, cd: int, n: nat)
    requires
        0 <= e0 < cd,
        0 <= dt <= cd,
    ensures
        elapsed_after(e0, dt, cd, n) == (e0 + n * dt) % cd,
        0 <= elapsed_after(e0, dt, cd, n) < cd,
        fires_after(e0, dt, cd, n) == (e0 + n * dt) / cd,
    decreases n,
{
    if n == 0 {
        lemma_small_mod(e0 as nat, cd as nat);
        lemma_fundamental_div_mod_converse(e0, cd, 0, e0);
    } else {
        lemma_weapon_cadence(e0, dt, cd, (n - 1) as nat);
        let t = e0 + (n - 1) * dt;
        assert(e0 + n * dt == t + dt) by (nonlinear_arith)
            requires
                t == e0 + (n - 1) * dt,
        ;
        let q = t / cd;
        let r = t % cd;
        lemma_fundamental_div_mod(t, cd);
        lemma_mod_division_less_than_divisor(t, cd);
        assert(t == q * cd + r && (q + 1) * cd == q * cd + cd && 1 * cd == cd)
            by (nonlinear_arith)
            requires
                t == cd * q + r,
        ;
        if r + dt >= cd {
            lemma_fundamental_div_mod_converse(t + dt, cd, q + 1, r + dt - cd);
            lemma_fundamental_div_mod_converse(r + dt, cd, 1, r + dt - cd);
        } else {
            lemma_fundamental_div_mod_converse(t + dt, cd, q, r + dt);
            lemma_small_mod((r + dt) as nat, cd as nat);
        }
    }
}

} // verus!
