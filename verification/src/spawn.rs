//! Hazard spawning: on its own coarse timer, with fixed probability, one
//! asteroid appears just outside a random viewport edge, aimed at a random
//! interior point.

use vstd::prelude::*;

verus! {

use vstd::math::abs;
use crate::components::Vec2;
use crate::components::Spatial;
use crate::components::BoundaryPolicy;
use crate::components::norm_sq;
use crate::math::scaled_spec;
use crate::math::scaled;
use crate::math::ceil_sqrt128;
use crate::math::HALF_EXTENT_MAX;
use crate::math::RADIUS_MAX;
use crate::rng::rand_range_i64;
use crate::systems::sqrt_ceil_spec;
use crate::systems::lemma_sqrt_ceil_spec;
use crate::systems::lemma_ceil_sqrt_unique;
use crate::math::lemma_scaled_sign;
use crate::math::lemma_scaled_norm_bound;
use crate::world::Entity;
use crate::world::World;

/// Velocity of magnitude at most `speed` from `from` toward `to`,
/// rounding toward zero per component. A zero direction (target equal to
/// the start) yields the zero vector rather than an undefined one.
pub fn aim_velocity(from: Vec2, to: Vec2, speed: i64) -> (v: Vec2)
    requires
        from.bounded((HALF_EXTENT_MAX + 2 * RADIUS_MAX) as int),
        to.bounded((HALF_EXTENT_MAX + 2 * RADIUS_MAX) as int),
        0 <= speed <= 1_000_000,
    ensures
        norm_sq(v.x as int, v.y as int) <= speed * speed,
        v.bounded(speed as int),
        to == from ==> v.x == 0 && v.y == 0,
        to.x >= from.x ==> v.x >= 0,
        to.x <= from.x ==> v.x <= 0,
        to.y >= from.y ==> v.y >= 0,
        to.y <= from.y ==> v.y <= 0,
        !(to.x == from.x && to.y == from.y) ==> {
            let m = sqrt_ceil_spec(
                norm_sq(to.x - from.x, to.y - from.y),
            );
            v.x == scaled_spec(to.x - from.x, speed as int, m) as i64 && v.y == scaled_spec(
                to.y - from.y,
                speed as int,
                m,
            ) as i64
        },
{
    proof {
        assert(0 <= speed * speed) by (nonlinear_arith)
            requires
                0 <= speed,
        ;
    }
    let dx = to.x - from.x;
    let dy = to.y - from.y;
    if dx == 0 && dy == 0 {
        proof {
            assert(norm_sq(0int, 0int) == 0);
        }
        return Vec2 { x: 0, y: 0 };
    }
    let adx: u128 = (if dx >= 0 {
        dx
    } else {
        -dx
    }) as u128;
    let ady: u128 = (if dy >= 0 {
        dy
    } else {
        -dy
    }) as u128;
    proof {
        assert(adx * adx == dx * dx && adx * adx <= 9_000_000_000_000_000_000_000_000)
            by (nonlinear_arith)
            requires
                adx == abs(dx as int),
                adx <= 3_000_000_000_000,
        ;
        assert(ady * ady == dy * dy && ady * ady <= 9_000_000_000_000_000_000_000_000)
            by (nonlinear_arith)
            requires
                ady == abs(dy as int),
                ady <= 3_000_000_000_000,
        ;
    }
    proof {
        assert(dx != 0 ==> dx * dx >= 1) by (nonlinear_arith);
        assert(dy != 0 ==> dy * dy >= 1) by (nonlinear_arith);
    }
    let nsq: u128 = adx * adx + ady * ady;
    let m128 = ceil_sqrt128(nsq);
    let m: i64 = m128 as i64;
    proof {
        assert(nsq >= 1);
        assert(m128 >= 1) by (nonlinear_arith)
            requires
                nsq >= 1,
                nsq as int <= m128 as int * m128 as int,
        ;
        lemma_sqrt_ceil_spec(nsq as int);
        lemma_ceil_sqrt_unique(nsq as int, m128 as int, sqrt_ceil_spec(nsq as int));
        lemma_scaled_norm_bound(dx as int, dy as int, speed as int, m as int);
        lemma_scaled_sign(dx as int, speed as int, m as int);
        lemma_scaled_sign(dy as int, speed as int, m as int);
        assert(abs(dx as int) * speed <= 4_000_000_000_000_000_000) by (nonlinear_arith)
            requires
                abs(dx as int) <= 3_000_000_000_000,
                0 <= speed <= 1_000_000,
        ;
        assert(abs(dy as int) * speed <= 4_000_000_000_000_000_000) by (nonlinear_arith)
            requires
                abs(dy as int) <= 3_000_000_000_000,
                0 <= speed <= 1_000_000,
        ;
    }
    let vx = scaled(dx, speed, m);
    let vy = scaled(dy, speed, m);
    proof {
        assert(-speed <= vx <= speed && -speed <= vy <= speed) by (nonlinear_arith)
            requires
                vx * vx + vy * vy <= speed * speed,
                0 <= speed,
        ;
    }
    Vec2 { x: vx, y: vy }
}

/// What holds of every spawned asteroid, whatever the generator returned:
/// a hazard radius within its fixed range, a position just outside one
/// viewport edge by twice the radius, a velocity of bounded magnitude
/// aimed back toward the interior on the off-screen axis, the remove
/// boundary policy, and the caller's category labels.
pub open spec fn asteroid_props(e: Entity, hw: int, hh: int, cats: u32) -> bool {
    &&& 30_000 <= e.spatial.radius < 40_000
    &&& e.spatial.rotation == 0
    &&& e.boundary is Remove
    &&& e.collidable
    &&& e.categories == cats
    &&& e.speed_limit is None
    &&& e.damping is None
    &&& e.thrust is None
    &&& e.steering is None
    &&& e.weapon is None
    &&& {
        let px = e.spatial.position.x as int;
        let py = e.spatial.position.y as int;
        let c = 2 * e.spatial.radius as int;
        ||| (-hw <= px < hw && (py == hh + c || py == -hh - c))
        ||| ((px == hw + c || px == -hw - c) && -hh <= py < hh)
    }
    &&& norm_sq(e.velocity.x as int, e.velocity.y as int) <= 60_000 * 60_000
    &&& (e.spatial.position.y == hh + 2 * e.spatial.radius ==> e.velocity.y <= 0)
    &&& (e.spatial.position.y == -hh - 2 * e.spatial.radius ==> e.velocity.y >= 0)
    &&& (e.spatial.position.x == hw + 2 * e.spatial.radius ==> e.velocity.x <= 0)
    &&& (e.spatial.position.x == -hw - 2 * e.spatial.radius ==> e.velocity.x >= 0)
}

/// Spawner stage, run on its own coarse interval: with probability one in
/// three, spawn exactly one asteroid; otherwise change nothing. The world
/// is unchanged, or exactly one entity meeting `asteroid_props` is
/// appended under the next fresh identifier.
pub fn asteroid_spawn_system(
    w: &mut World,
    rng: &mut rand::rngs::SmallRng,
    half_w: i64,
    half_h: i64,
    cats: u32,
)
    requires
        old(w).wf(),
        1 <= half_w <= HALF_EXTENT_MAX,
        1 <= half_h <= HALF_EXTENT_MAX,
        old(w).next_id < u64::MAX,
    ensures
        final(w).wf(),
        (final(w).entities@ == old(w).entities@ && final(w).next_id == old(w).next_id) || (
        final(w).next_id == old(w).next_id + 1 && (exists|e: Entity|
            #[trigger] asteroid_props(e, half_w as int, half_h as int, cats) && e.id == old(
                w,
            ).next_id && e.wf() && final(w).entities@ == old(w).entities@.push(e))),
{
    let coin = rand_range_i64(rng, 0, 3);
    if coin != 0 {
        return ;
    }
    let x = rand_range_i64(rng, -half_w, half_w);
    let y = rand_range_i64(rng, -half_h, half_h);
    let r = rand_range_i64(rng, 30_000, 40_000);
    let c = 2 * r;
    let side = rand_range_i64(rng, 0, 2);
    let pos = if side == 0 {
        Vec2 {
            x,
            y: if y > 0 {
                half_h + c
            } else {
                -half_h - c
            },
        }
    } else {
        Vec2 {
            x: if x > 0 {
                half_w + c
            } else {
                -half_w - c
            },
            y,
        }
    };
    let tx = rand_range_i64(rng, -half_w, half_w);
    let ty = rand_range_i64(rng, -half_h, half_h);
    let speed = rand_range_i64(rng, 30_000, 60_000);
    let vel = aim_velocity(pos, Vec2 { x: tx, y: ty }, speed);
    let e = Entity {
        id: 0,
        spatial: Spatial { position: pos, rotation: 0, radius: r },
        velocity: vel,
        speed_limit: None,
        damping: None,
        thrust: None,
        steering: None,
        weapon: None,
        boundary: BoundaryPolicy::Remove,
        collidable: true,
        categories: cats,
    };
    let ghost prior = *w;
    let id = w.spawn(e);
    proof {
        assert(speed * speed <= 3_600_000_000) by (nonlinear_arith)
            requires
                0 <= speed < 60_000,
        ;
        let spawned = (Entity { id: prior.next_id, ..e });
        assert(asteroid_props(spawned, half_w as int, half_h as int, cats));
    }
}

} // verus!
