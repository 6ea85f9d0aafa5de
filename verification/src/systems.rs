//! The per-tick simulation systems, in pipeline order: control intent
//! capture, thrust and weapon application, damping, speed clamp, position
//! integration, and boundary wrap / remove.

use vstd::prelude::*;

verus! {

use vstd::math::abs;
use crate::components::Vec2;
use crate::components::Spatial;
use crate::components::BoundaryPolicy;
use crate::components::norm_sq;
use crate::math::scaled_spec;
use crate::math::scaled;
use crate::math::clamp_spec;
use crate::math::add_clamped;
use crate::math::is_ceil_sqrt;
use crate::math::ceil_sqrt;
use crate::math::lemma_ceil_sqrt_above;
use crate::math::lemma_scaled_sign;
use crate::math::lemma_scaled_abs_le;
use crate::math::norm_angle;
use crate::math::POS_MAX;
use crate::math::VEL_MAX;
use crate::math::FULL_TURN;
use crate::math::MICROS_PER_SEC;
use crate::trig::cos_spec;
use crate::trig::sin_spec;
use crate::trig::cos_milli;
use crate::trig::sin_milli;
use crate::world::Entity;
use crate::world::World;

/// The ceiling square root, as a value: the unique `m` with
/// `(m - 1) * (m - 1) < n <= m * m`.
pub open spec fn sqrt_ceil_spec(n: int) -> int {
    choose|m: int| is_ceil_sqrt(n, m)
}

/// The ceiling square root is unique.
pub proof fn lemma_ceil_sqrt_unique(n: int, m1: int, m2: int)
    requires
        is_ceil_sqrt(n, m1),
        is_ceil_sqrt(n, m2),
    ensures
        m1 == m2,
{
    if m1 < m2 {
        assert(m1 * m1 <= (m2 - 1) * (m2 - 1)) by (nonlinear_arith)
            requires
                0 <= m1 <= m2 - 1,
        ;
    }
    if m2 < m1 {
        assert(m2 * m2 <= (m1 - 1) * (m1 - 1)) by (nonlinear_arith)
            requires
                0 <= m2 <= m1 - 1,
        ;
    }
}

/// The ceiling square root exists for every non-negative argument.
pub proof fn lemma_ceil_sqrt_exists(n: int) -> (m: int)
    requires
        0 <= n,
    ensures
        is_ceil_sqrt(n, m),
    decreases n,
{
    if n == 0 {
        0
    } else {
        let prev = lemma_ceil_sqrt_exists(n - 1);
        if prev * prev >= n {
            prev
        } else {
            assert((prev + 1) * (prev + 1) >= n) by (nonlinear_arith)
                requires
                    0 <= prev,
                    n - 1 <= prev * prev,
            ;
            prev + 1
        }
    }
}

/// `sqrt_ceil_spec` meets its characterization.
pub proof fn lemma_sqrt_ceil_spec(n: int)
    requires
        0 <= n,
    ensures
        is_ceil_sqrt(n, sqrt_ceil_spec(n)),
{
    let w = lemma_ceil_sqrt_exists(n);
    assert(is_ceil_sqrt(n, w));
}

/// Damping: the velocity decays by the entity's factor, parts per
/// thousand, rounding toward zero; entities without damping are untouched.
pub open spec fn damp_velocity(e: Entity) -> Entity {
    match e.damping {
        Some(d) => (Entity {
            velocity: Vec2 {
                x: scaled_spec(e.velocity.x as int, d as int, 1000) as i64,
                y: scaled_spec(e.velocity.y as int, d as int, 1000) as i64,
            },
            ..e
        }),
        None => e,
    }
}

/// One entity's damping step.
fn damp_entity(e: Entity) -> (r: Entity)
    requires
        e.wf(),
    ensures
        r == damp_velocity(e),
        r.wf(),
        r.id == e.id,
{
    match e.damping {
        Some(d) => {
            proof {
                lemma_scaled_abs_le(e.velocity.x as int, d as int, 1000);
                lemma_scaled_abs_le(e.velocity.y as int, d as int, 1000);
            }
            let vx = scaled(e.velocity.x, d, 1000);
            let vy = scaled(e.velocity.y, d, 1000);
            Entity { velocity: Vec2 { x: vx, y: vy }, ..e }
        }
        None => e,
    }
}

/// Speed clamp: a velocity whose magnitude exceeds the entity's limit is
/// rescaled onto (or just inside) the limit, rounding toward zero per
/// component; a velocity within the limit, or an entity without a limit,
/// is untouched.
pub open spec fn clamped_velocity(e: Entity) -> Entity {
    match e.speed_limit {
        Some(l) => if norm_sq(e.velocity.x as int, e.velocity.y as int) > l * l {
            let m = sqrt_ceil_spec(norm_sq(e.velocity.x as int, e.velocity.y as int));
            Entity {
                velocity: Vec2 {
                    x: scaled_spec(e.velocity.x as int, l as int, m) as i64,
                    y: scaled_spec(e.velocity.y as int, l as int, m) as i64,
                },
                ..e
            }
        } else {
            e
        },
        None => e,
    }
}

/// One entity's speed-clamp step.
fn clamp_entity(e: Entity) -> (r: Entity)
    requires
        e.wf(),
    ensures
        r == clamped_velocity(e),
        r.wf(),
        r.id == e.id,
{
    match e.speed_limit {
        Some(l) => {
            let x = e.velocity.x;
            let y = e.velocity.y;
            let ax: u64 = if x >= 0 {
                x as u64
            } else {
                (-x) as u64
            };
            let ay: u64 = if y >= 0 {
                y as u64
            } else {
                (-y) as u64
            };
            proof {
                assert(ax * ax <= 4_000_000_000_000_000_000 && ax * ax == x * x)
                    by (nonlinear_arith)
                    requires
                        ax <= 2_000_000_000,
                        ax == abs(x as int),
                ;
                assert(ay * ay <= 4_000_000_000_000_000_000 && ay * ay == y * y)
                    by (nonlinear_arith)
                    requires
                        ay <= 2_000_000_000,
                        ay == abs(y as int),
                ;
            }
            let nsq: u64 = ax * ax + ay * ay;
            proof {
                assert((l as u64) * (l as u64) <= 4_000_000_000_000_000_000) by (nonlinear_arith)
                    requires
                        0 <= l <= 2_000_000_000,
                ;
            }
            let lim: u64 = (l as u64) * (l as u64);
            if nsq > lim {
                let m = ceil_sqrt(nsq);
                proof {
                    lemma_sqrt_ceil_spec(nsq as int);
                    lemma_ceil_sqrt_unique(nsq as int, m as int, sqrt_ceil_spec(nsq as int));
                    lemma_ceil_sqrt_above(nsq as int, m as int, l as int);
                    lemma_scaled_abs_le(x as int, l as int, m as int);
                    lemma_scaled_abs_le(y as int, l as int, m as int);
                    assert(abs(x as int) * l <= 4_000_000_000_000_000_000) by (nonlinear_arith)
                        requires
                            abs(x as int) <= 2_000_000_000,
                            0 <= l <= 2_000_000_000,
                    ;
                    assert(abs(y as int) * l <= 4_000_000_000_000_000_000) by (nonlinear_arith)
                        requires
                            abs(y as int) <= 2_000_000_000,
                            0 <= l <= 2_000_000_000,
                    ;
                }
                let vx = scaled(x, l, m as i64);
                let vy = scaled(y, l, m as i64);
                Entity { velocity: Vec2 { x: vx, y: vy }, ..e }
            } else {
                e
            }
        }
        None => e,
    }
}

/// Position integration: the position advances by the velocity scaled by
/// the tick duration, saturating at the representable band.
pub open spec fn integrate_position(e: Entity, dt: int) -> Entity {
    Entity {
        spatial: Spatial {
            position: Vec2 {
                x: clamp_spec(
                    e.spatial.position.x + scaled_spec(e.velocity.x as int, dt, 1_000_000),
                    POS_MAX as int,
                ) as i64,
                y: clamp_spec(
                    e.spatial.position.y + scaled_spec(e.velocity.y as int, dt, 1_000_000),
                    POS_MAX as int,
                ) as i64,
            },
            ..e.spatial
        },
        ..e
    }
}

/// One entity's integration step.
fn integrate_entity(e: Entity, dt: i64) -> (r: Entity)
    requires
        e.wf(),
        0 <= dt <= MICROS_PER_SEC,
    ensures
        r == integrate_position(e, dt as int),
        r.wf(),
        r.id == e.id,
{
    proof {
        lemma_scaled_sign(e.velocity.x as int, dt as int, 1_000_000);
        lemma_scaled_sign(e.velocity.y as int, dt as int, 1_000_000);
        lemma_scaled_abs_le(e.velocity.x as int, dt as int, 1_000_000);
        lemma_scaled_abs_le(e.velocity.y as int, dt as int, 1_000_000);
    }
    let dx = scaled(e.velocity.x, dt, 1_000_000);
    let dy = scaled(e.velocity.y, dt, 1_000_000);
    let px = add_clamped(e.spatial.position.x, dx, POS_MAX);
    let py = add_clamped(e.spatial.position.y, dy, POS_MAX);
    Entity { spatial: Spatial { position: Vec2 { x: px, y: py }, ..e.spatial }, ..e }
}

/// Thrust: while engaged, the engine's force is added to the velocity
/// along the unit vector of the current facing, saturating at the model's
/// velocity band; a disengaged or absent engine changes nothing.
pub open spec fn thrust_velocity(e: Entity) -> Entity {
    match e.thrust {
        Some(t) => if t.on {
            Entity {
                velocity: Vec2 {
                    x: clamp_spec(
                        e.velocity.x + scaled_spec(
                            cos_spec(e.spatial.rotation as int),
                            t.force as int,
                            1000,
                        ),
                        VEL_MAX as int,
                    ) as i64,
                    y: clamp_spec(
                        e.velocity.y + scaled_spec(
                            sin_spec(e.spatial.rotation as int),
                            t.force as int,
                            1000,
                        ),
                        VEL_MAX as int,
                    ) as i64,
                },
                ..e
            }
        } else {
            e
        },
        None => e,
    }
}

/// One entity's thrust step.
fn thrust_entity(e: Entity) -> (r: Entity)
    requires
        e.wf(),
    ensures
        r == thrust_velocity(e),
        r.wf(),
        r.id == e.id,
{
    match e.thrust {
        Some(t) => {
            if t.on {
                let c = cos_milli(e.spatial.rotation);
                let s = sin_milli(e.spatial.rotation);
                proof {
                    lemma_scaled_sign(c as int, t.force as int, 1000);
                    lemma_scaled_sign(s as int, t.force as int, 1000);
                    assert(abs(c as int) * t.force <= 1_000_000_000_000) by (nonlinear_arith)
                        requires
                            abs(c as int) <= 1000,
                            0 <= t.force <= 1_000_000_000,
                    ;
                    assert(abs(s as int) * t.force <= 1_000_000_000_000) by (nonlinear_arith)
                        requires
                            abs(s as int) <= 1000,
                            0 <= t.force <= 1_000_000_000,
                    ;
                }
                let fx = scaled(c, t.force, 1000);
                let fy = scaled(s, t.force, 1000);
                let vx = add_clamped(e.velocity.x, fx, VEL_MAX);
                let vy = add_clamped(e.velocity.y, fy, VEL_MAX);
                Entity { velocity: Vec2 { x: vx, y: vy }, ..e }
            } else {
                e
            }
        }
        None => e,
    }
}

/// Steering: while a steer intent is active the rotation advances by the
/// turn rate scaled by the elapsed time; left and right may both apply in
/// one tick and their effects sum. The result is normalized into a turn.
pub open spec fn steer_rotation(e: Entity, left: bool, right: bool, dt: int) -> Entity {
    match e.steering {
        Some(s) => {
            let d1: int = if left {
                scaled_spec(s.turn_rate as int, dt, 1_000_000)
            } else {
                0
            };
            let d2: int = if right {
                scaled_spec(s.turn_rate as int, dt, 1_000_000)
            } else {
                0
            };
            Entity {
                spatial: Spatial {
                    rotation: ((e.spatial.rotation + d1 - d2) % (FULL_TURN as int)) as i64,
                    ..e.spatial
                },
                ..e
            }
        }
        None => e,
    }
}

/// One entity's steering step.
fn steer_entity(e: Entity, left: bool, right: bool, dt: i64) -> (r: Entity)
    requires
        e.wf(),
        0 <= dt <= MICROS_PER_SEC,
    ensures
        r == steer_rotation(e, left, right, dt as int),
        r.wf(),
        r.id == e.id,
{
    match e.steering {
        Some(s) => {
            proof {
                lemma_scaled_abs_le(s.turn_rate as int, dt as int, 1_000_000);
            }
            let step = scaled(s.turn_rate, dt, 1_000_000);
            let d1: i64 = if left {
                step
            } else {
                0
            };
            let d2: i64 = if right {
                step
            } else {
                0
            };
            let rot = norm_angle(e.spatial.rotation + d1 - d2);
            Entity { spatial: Spatial { rotation: rot, ..e.spatial }, ..e }
        }
        None => e,
    }
}

/// Level-triggered thrust intent: the engine flag mirrors this tick's
/// control input.
pub open spec fn set_thrust_flag(e: Entity, on: bool) -> Entity {
    match e.thrust {
        Some(t) => (Entity { thrust: Some((crate::components::ThrustEngine { on, ..t })), ..e }),
        None => e,
    }
}

/// Level-triggered weapon trigger: the flag mirrors this tick's control
/// input.
pub open spec fn set_trigger_flag(e: Entity, triggered: bool) -> Entity {
    match e.weapon {
        Some(wp) => (Entity {
            weapon: Some((crate::components::Weapon { triggered, ..wp })),
            ..e
        }),
        None => e,
    }
}

/// Wrap of one coordinate: when the far edge (two bounding radii past the
/// position) has crossed the half-extent on one side, the entity
/// reappears at the opposite edge, offset outward by the same margin.
pub open spec fn wrap_coord(p: int, r: int, half: int) -> int {
    if p + 2 * r < -half {
        half + 2 * r
    } else if p - 2 * r > half {
        -half - 2 * r
    } else {
        p
    }
}

/// Boundary wrap of one entity, independent per axis; only entities with
/// the wrap policy move, and their velocity is untouched.
pub open spec fn wrap_entity(e: Entity, hw: int, hh: int) -> Entity {
    if e.boundary is Wrap {
        Entity {
            spatial: Spatial {
                position: Vec2 {
                    x: wrap_coord(e.spatial.position.x as int, e.spatial.radius as int, hw) as i64,
                    y: wrap_coord(e.spatial.position.y as int, e.spatial.radius as int, hh) as i64,
                },
                ..e.spatial
            },
            ..e
        }
    } else {
        e
    }
}

/// One entity's boundary-wrap step.
fn wrap_one(e: Entity, half_w: i64, half_h: i64) -> (r: Entity)
    requires
        e.wf(),
        0 <= half_w <= crate::math::HALF_EXTENT_MAX,
        0 <= half_h <= crate::math::HALF_EXTENT_MAX,
    ensures
        r == wrap_entity(e, half_w as int, half_h as int),
        r.wf(),
        r.id == e.id,
{
    match e.boundary {
        BoundaryPolicy::Wrap => {
            let rr = e.spatial.radius;
            let mut px = e.spatial.position.x;
            if px + 2 * rr < -half_w {
                px = half_w + 2 * rr;
            } else if px - 2 * rr > half_w {
                px = -half_w - 2 * rr;
            }
            let mut py = e.spatial.position.y;
            if py + 2 * rr < -half_h {
                py = half_h + 2 * rr;
            } else if py - 2 * rr > half_h {
                py = -half_h - 2 * rr;
            }
            Entity { spatial: Spatial { position: Vec2 { x: px, y: py }, ..e.spatial }, ..e }
        }
        BoundaryPolicy::Remove => e,
    }
}

/// The far edge of the entity lies beyond the bounds on at least one side
/// of at least one axis.
pub open spec fn out_of_bounds(e: Entity, hw: int, hh: int) -> bool {
    ||| e.spatial.position.x + 2 * e.spatial.radius < -hw
    ||| e.spatial.position.x - 2 * e.spatial.radius > hw
    ||| e.spatial.position.y + 2 * e.spatial.radius < -hh
    ||| e.spatial.position.y - 2 * e.spatial.radius > hh
}

/// The entity is destroyed by the boundary-remove stage this tick.
pub open spec fn removed_this_tick(e: Entity, hw: int, hh: int) -> bool {
    e.boundary is Remove && out_of_bounds(e, hw, hh)
}

/// The entities that survive the boundary-remove stage, in order.
pub open spec fn survivors(s: Seq<Entity>, hw: int, hh: int) -> Seq<Entity>
    decreases s.len(),
{
    if s.len() == 0 {
        Seq::<Entity>::empty()
    } else {
        let rest = survivors(s.drop_last(), hw, hh);
        if removed_this_tick(s.last(), hw, hh) {
            rest
        } else {
            rest.push(s.last())
        }
    }
}

/// Remove policy, completeness side: an entity not beyond bounds (or not
/// carrying the remove policy) is retained.
pub proof fn lemma_survivors_complete(s: Seq<Entity>, hw: int, hh: int, i: int)
    requires
        0 <= i < s.len(),
        !removed_this_tick(s[i], hw, hh),
    ensures
        survivors(s, hw, hh).contains(s[i]),
    decreases s.len(),
{
    if i == s.len() - 1 {
        assert(s.last() == s[i]);
        let r = survivors(s, hw, hh);
        assert(r[r.len() - 1] == s[i]);
    } else {
        assert(s.drop_last()[i] == s[i]);
        lemma_survivors_complete(s.drop_last(), hw, hh, i);
        let rb = survivors(s.drop_last(), hw, hh);
        let j = choose|j: int| 0 <= j < rb.len() && rb[j] == s[i];
        assert(survivors(s, hw, hh)[j] == s[i]);
    }
}

/// Remove policy, soundness side: every survivor is one of the old
/// entities, and it was not beyond bounds with the remove policy.
pub proof fn lemma_survivors_sound(s: Seq<Entity>, hw: int, hh: int)
    ensures
        survivors(s, hw, hh).len() <= s.len(),
        forall|i: int|
            0 <= i < survivors(s, hw, hh).len() ==> s.contains(#[trigger] survivors(s, hw, hh)[i])
                && !removed_this_tick(survivors(s, hw, hh)[i], hw, hh),
    decreases s.len(),
{
    if s.len() > 0 {
        let butlast = s.drop_last();
        lemma_survivors_sound(butlast, hw, hh);
        let r = survivors(s, hw, hh);
        let rb = survivors(butlast, hw, hh);
        assert forall|i: int|
            0 <= i < r.len() implies s.contains(#[trigger] r[i]) && !removed_this_tick(
            r[i],
            hw,
            hh,
        ) by {
            if i < rb.len() {
                assert(butlast.contains(rb[i]));
                let j = choose|j: int| 0 <= j < butlast.len() && butlast[j] == rb[i];
                assert(s[j] == r[i]);
            } else {
                assert(r[i] == s.last());
                assert(s[s.len() - 1] == s.last());
            }
        }
    }
}

/// Damping stage: every entity with a damping factor has its velocity decayed by it.
pub fn damping_system(w: &mut World)
    requires
        old(w).wf(),
    ensures
        final(w).wf(),
        final(w).next_id == old(w).next_id,
        final(w).entities@.len() == old(w).entities@.len(),
        forall|t: int|
            0 <= t < old(w).entities@.len() ==> final(w).entities@[t] == damp_velocity(
                old(w).entities@[t],
            ),
{
    let n = w.entities.len();
    let mut updated: Vec<Entity> = Vec::new();
    let mut i: usize = 0;
    while i < n
        invariant
            w == old(w),
            old(w).wf(),
            n == w.entities@.len(),
            i <= n,
            updated@.len() == i,
            forall|t: int|
                0 <= t < i ==> updated@[t] == damp_velocity(w.entities@[t])
                    && (#[trigger] updated@[t]).wf() && updated@[t].id == w.entities@[t].id,
        decreases n - i,
    {
        let e = w.entities[i];
        assert(w.entities@[i as int].wf());
        let e2 = damp_entity(e);
        updated.push(e2);
        i = i + 1;
    }
    w.entities = updated;
    proof {
        assert forall|x: int, y: int|
            0 <= x < y < final(w).entities@.len() implies final(w).entities@[x].id
            != final(w).entities@[y].id by {
            assert(final(w).entities@[x].id == old(w).entities@[x].id);
            assert(final(w).entities@[y].id == old(w).entities@[y].id);
        }
    }
}

/// Speed-clamp stage: every entity with a speed limit has its velocity magnitude capped to it, direction-preserving up to rounding.
pub fn speed_limit_system(w: &mut World)
    requires
        old(w).wf(),
    ensures
        final(w).wf(),
        final(w).next_id == old(w).next_id,
        final(w).entities@.len() == old(w).entities@.len(),
        forall|t: int|
            0 <= t < old(w).entities@.len() ==> final(w).entities@[t] == clamped_velocity(
                old(w).entities@[t],
            ),
{
    let n = w.entities.len();
    let mut updated: Vec<Entity> = Vec::new();
    let mut i: usize = 0;
    while i < n
        invariant
            w == old(w),
            old(w).wf(),
            n == w.entities@.len(),
            i <= n,
            updated@.len() == i,
            forall|t: int|
                0 <= t < i ==> updated@[t] == clamped_velocity(w.entities@[t])
                    && (#[trigger] updated@[t]).wf() && updated@[t].id == w.entities@[t].id,
        decreases n - i,
    {
        let e = w.entities[i];
        assert(w.entities@[i as int].wf());
        let e2 = clamp_entity(e);
        updated.push(e2);
        i = i + 1;
    }
    w.entities = updated;
    proof {
        assert forall|x: int, y: int|
            0 <= x < y < final(w).entities@.len() implies final(w).entities@[x].id
            != final(w).entities@[y].id by {
            assert(final(w).entities@[x].id == old(w).entities@[x].id);
            assert(final(w).entities@[y].id == old(w).entities@[y].id);
        }
    }
}

/// Integration stage: every position advances by its velocity scaled by the tick duration (microseconds).
pub fn movement_system(w: &mut World, dt: i64)
    requires
        old(w).wf(),
        0 <= dt <= MICROS_PER_SEC,
    ensures
        final(w).wf(),
        final(w).next_id == old(w).next_id,
        final(w).entities@.len() == old(w).entities@.len(),
        forall|t: int|
            0 <= t < old(w).entities@.len() ==> final(w).entities@[t] == integrate_position(
                old(w).entities@[t], dt as int,
            ),
{
    let n = w.entities.len();
    let mut updated: Vec<Entity> = Vec::new();
    let mut i: usize = 0;
    while i < n
        invariant
            w == old(w),
            old(w).wf(),
            n == w.entities@.len(),
            i <= n,
            updated@.len() == i,
            0 <= dt <= MICROS_PER_SEC,
            forall|t: int|
                0 <= t < i ==> updated@[t] == integrate_position(w.entities@[t], dt as int)
                    && (#[trigger] updated@[t]).wf() && updated@[t].id == w.entities@[t].id,
        decreases n - i,
    {
        let e = w.entities[i];
        assert(w.entities@[i as int].wf());
        let e2 = integrate_entity(e, dt);
        updated.push(e2);
        i = i + 1;
    }
    w.entities = updated;
    proof {
        assert forall|x: int, y: int|
            0 <= x < y < final(w).entities@.len() implies final(w).entities@[x].id
            != final(w).entities@[y].id by {
            assert(final(w).entities@[x].id == old(w).entities@[x].id);
            assert(final(w).entities@[y].id == old(w).entities@[y].id);
        }
    }
}

/// Thrust stage: every entity with an engaged engine gains velocity along its facing.
pub fn thrust_system(w: &mut World)
    requires
        old(w).wf(),
    ensures
        final(w).wf(),
        final(w).next_id == old(w).next_id,
        final(w).entities@.len() == old(w).entities@.len(),
        forall|t: int|
            0 <= t < old(w).entities@.len() ==> final(w).entities@[t] == thrust_velocity(
                old(w).entities@[t],
            ),
{
    let n = w.entities.len();
    let mut updated: Vec<Entity> = Vec::new();
    let mut i: usize = 0;
    while i < n
        invariant
            w == old(w),
            old(w).wf(),
            n == w.entities@.len(),
            i <= n,
            updated@.len() == i,
            forall|t: int|
                0 <= t < i ==> updated@[t] == thrust_velocity(w.entities@[t])
                    && (#[trigger] updated@[t]).wf() && updated@[t].id == w.entities@[t].id,
        decreases n - i,
    {
        let e = w.entities[i];
        assert(w.entities@[i as int].wf());
        let e2 = thrust_entity(e);
        updated.push(e2);
        i = i + 1;
    }
    w.entities = updated;
    proof {
        assert forall|x: int, y: int|
            0 <= x < y < final(w).entities@.len() implies final(w).entities@[x].id
            != final(w).entities@[y].id by {
            assert(final(w).entities@[x].id == old(w).entities@[x].id);
            assert(final(w).entities@[y].id == old(w).entities@[y].id);
        }
    }
}

/// Steering stage: active steer intents turn every steerable entity by its turn rate over the elapsed time.
pub fn steering_control_system(w: &mut World, left: bool, right: bool, dt: i64)
    requires
        old(w).wf(),
        0 <= dt <= MICROS_PER_SEC,
    ensures
        final(w).wf(),
        final(w).next_id == old(w).next_id,
        final(w).entities@.len() == old(w).entities@.len(),
        forall|t: int|
            0 <= t < old(w).entities@.len() ==> final(w).entities@[t] == steer_rotation(
                old(w).entities@[t], left, right, dt as int,
            ),
{
    let n = w.entities.len();
    let mut updated: Vec<Entity> = Vec::new();
    let mut i: usize = 0;
    while i < n
        invariant
            w == old(w),
            old(w).wf(),
            n == w.entities@.len(),
            i <= n,
            updated@.len() == i,
            0 <= dt <= MICROS_PER_SEC,
            forall|t: int|
                0 <= t < i ==> updated@[t] == steer_rotation(w.entities@[t], left, right, dt as int)
                    && (#[trigger] updated@[t]).wf() && updated@[t].id == w.entities@[t].id,
        decreases n - i,
    {
        let e = w.entities[i];
        assert(w.entities@[i as int].wf());
        let e2 = steer_entity(e, left, right, dt);
        updated.push(e2);
        i = i + 1;
    }
    w.entities = updated;
    proof {
        assert forall|x: int, y: int|
            0 <= x < y < final(w).entities@.len() implies final(w).entities@[x].id
            != final(w).entities@[y].id by {
            assert(final(w).entities@[x].id == old(w).entities@[x].id);
            assert(final(w).entities@[y].id == old(w).entities@[y].id);
        }
    }
}

/// Thrust intent capture: every engine flag mirrors this tick's input.
pub fn thrust_control_system(w: &mut World, on: bool)
    requires
        old(w).wf(),
    ensures
        final(w).wf(),
        final(w).next_id == old(w).next_id,
        final(w).entities@.len() == old(w).entities@.len(),
        forall|t: int|
            0 <= t < old(w).entities@.len() ==> final(w).entities@[t] == set_thrust_flag(
                old(w).entities@[t], on,
            ),
{
    let n = w.entities.len();
    let mut updated: Vec<Entity> = Vec::new();
    let mut i: usize = 0;
    while i < n
        invariant
            w == old(w),
            old(w).wf(),
            n == w.entities@.len(),
            i <= n,
            updated@.len() == i,
            forall|t: int|
                0 <= t < i ==> updated@[t] == set_thrust_flag(w.entities@[t], on)
                    && (#[trigger] updated@[t]).wf() && updated@[t].id == w.entities@[t].id,
        decreases n - i,
    {
        let e = w.entities[i];
        assert(w.entities@[i as int].wf());
        let e2 = set_thrust_entity(e, on);
        updated.push(e2);
        i = i + 1;
    }
    w.entities = updated;
    proof {
        assert forall|x: int, y: int|
            0 <= x < y < final(w).entities@.len() implies final(w).entities@[x].id
            != final(w).entities@[y].id by {
            assert(final(w).entities@[x].id == old(w).entities@[x].id);
            assert(final(w).entities@[y].id == old(w).entities@[y].id);
        }
    }
}

/// Weapon intent capture: every trigger flag mirrors this tick's input.
pub fn weapon_control_system(w: &mut World, triggered: bool)
    requires
        old(w).wf(),
    ensures
        final(w).wf(),
        final(w).next_id == old(w).next_id,
        final(w).entities@.len() == old(w).entities@.len(),
        forall|t: int|
            0 <= t < old(w).entities@.len() ==> final(w).entities@[t] == set_trigger_flag(
                old(w).entities@[t], triggered,
            ),
{
    let n = w.entities.len();
    let mut updated: Vec<Entity> = Vec::new();
    let mut i: usize = 0;
    while i < n
        invariant
            w == old(w),
            old(w).wf(),
            n == w.entities@.len(),
            i <= n,
            updated@.len() == i,
            forall|t: int|
                0 <= t < i ==> updated@[t] == set_trigger_flag(w.entities@[t], triggered)
                    && (#[trigger] updated@[t]).wf() && updated@[t].id == w.entities@[t].id,
        decreases n - i,
    {
        let e = w.entities[i];
        assert(w.entities@[i as int].wf());
        let e2 = set_trigger_entity(e, triggered);
        updated.push(e2);
        i = i + 1;
    }
    w.entities = updated;
    proof {
        assert forall|x: int, y: int|
            0 <= x < y < final(w).entities@.len() implies final(w).entities@[x].id
            != final(w).entities@[y].id by {
            assert(final(w).entities@[x].id == old(w).entities@[x].id);
            assert(final(w).entities@[y].id == old(w).entities@[y].id);
        }
    }
}

/// Boundary-wrap stage: every wrap-policy entity whose far edge crossed a bound reappears at the opposite edge, per axis.
pub fn boundary_wrap_system(w: &mut World, half_w: i64, half_h: i64)
    requires
        old(w).wf(),
        0 <= half_w <= crate::math::HALF_EXTENT_MAX,
        0 <= half_h <= crate::math::HALF_EXTENT_MAX,
    ensures
        final(w).wf(),
        final(w).next_id == old(w).next_id,
        final(w).entities@.len() == old(w).entities@.len(),
        forall|t: int|
            0 <= t < old(w).entities@.len() ==> final(w).entities@[t] == wrap_entity(
                old(w).entities@[t], half_w as int, half_h as int,
            ),
{
    let n = w.entities.len();
    let mut updated: Vec<Entity> = Vec::new();
    let mut i: usize = 0;
    while i < n
        invariant
            w == old(w),
            old(w).wf(),
            n == w.entities@.len(),
            i <= n,
            updated@.len() == i,
            0 <= half_w <= crate::math::HALF_EXTENT_MAX,
            0 <= half_h <= crate::math::HALF_EXTENT_MAX,
            forall|t: int|
                0 <= t < i ==> updated@[t] == wrap_entity(w.entities@[t], half_w as int, half_h as int)
                    && (#[trigger] updated@[t]).wf() && updated@[t].id == w.entities@[t].id,
        decreases n - i,
    {
        let e = w.entities[i];
        assert(w.entities@[i as int].wf());
        let e2 = wrap_one(e, half_w, half_h);
        updated.push(e2);
        i = i + 1;
    }
    w.entities = updated;
    proof {
        assert forall|x: int, y: int|
            0 <= x < y < final(w).entities@.len() implies final(w).entities@[x].id
            != final(w).entities@[y].id by {
            assert(final(w).entities@[x].id == old(w).entities@[x].id);
            assert(final(w).entities@[y].id == old(w).entities@[y].id);
        }
    }
}

/// One entity's thrust-intent step.
fn set_thrust_entity(e: Entity, on: bool) -> (r: Entity)
    requires
        e.wf(),
    ensures
        r == set_thrust_flag(e, on),
        r.wf(),
        r.id == e.id,
{
    match e.thrust {
        Some(t) => Entity { thrust: Some(crate::components::ThrustEngine { on, ..t }), ..e },
        None => e,
    }
}

/// One entity's weapon-intent step.
fn set_trigger_entity(e: Entity, triggered: bool) -> (r: Entity)
    requires
        e.wf(),
    ensures
        r == set_trigger_flag(e, triggered),
        r.wf(),
        r.id == e.id,
{
    match e.weapon {
        Some(wp) => Entity { weapon: Some(crate::components::Weapon { triggered, ..wp }), ..e },
        None => e,
    }
}

/// Boundary-remove stage: every remove-policy entity whose far edge lies
/// beyond the bounds on any axis is destroyed; all others are retained,
/// in order.
pub fn boundary_remove_system(w: &mut World, half_w: i64, half_h: i64)
    requires
        old(w).wf(),
        0 <= half_w <= crate::math::HALF_EXTENT_MAX,
        0 <= half_h <= crate::math::HALF_EXTENT_MAX,
    ensures
        final(w).wf(),
        final(w).next_id == old(w).next_id,
        final(w).entities@ == survivors(old(w).entities@, half_w as int, half_h as int),
{
    let n = w.entities.len();
    let mut kept: Vec<Entity> = Vec::new();
    let mut i: usize = 0;
    while i < n
        invariant
            w == old(w),
            old(w).wf(),
            n == w.entities@.len(),
            i <= n,
            0 <= half_w <= crate::math::HALF_EXTENT_MAX,
            0 <= half_h <= crate::math::HALF_EXTENT_MAX,
            kept@ == survivors(w.entities@.take(i as int), half_w as int, half_h as int),
        decreases n - i,
    {
        let e = w.entities[i];
        assert(w.entities@[i as int].wf());
        proof {
            let t = w.entities@.take(i + 1);
            assert(t.drop_last() =~= w.entities@.take(i as int));
            assert(t.last() == w.entities@[i as int]);
        }
        let rr = e.spatial.radius;
        let gone = match e.boundary {
            BoundaryPolicy::Remove => e.spatial.position.x + 2 * rr < -half_w
                || e.spatial.position.x - 2 * rr > half_w
                || e.spatial.position.y + 2 * rr < -half_h
                || e.spatial.position.y - 2 * rr > half_h,
            BoundaryPolicy::Wrap => false,
        };
        if !gone {
            kept.push(e);
        }
        i = i + 1;
    }
    proof {
        assert(w.entities@.take(n as int) =~= w.entities@);
        lemma_survivors_wf(w.entities@, half_w as int, half_h as int, w.next_id);
    }
    w.entities = kept;
}

/// The boundary-remove stage preserves the world invariant.
proof fn lemma_survivors_wf(s: Seq<Entity>, hw: int, hh: int, bound: u64)
    requires
        forall|i: int| 0 <= i < s.len() ==> (#[trigger] s[i]).wf(),
        forall|i: int| 0 <= i < s.len() ==> (#[trigger] s[i]).id < bound,
        forall|i: int, j: int| 0 <= i < j < s.len() ==> s[i].id != s[j].id,
    ensures
        forall|i: int|
            0 <= i < survivors(s, hw, hh).len() ==> (#[trigger] survivors(s, hw, hh)[i]).wf(),
        forall|i: int|
            0 <= i < survivors(s, hw, hh).len() ==> (#[trigger] survivors(s, hw, hh)[i]).id
                < bound,
        forall|i: int, j: int|
            0 <= i < j < survivors(s, hw, hh).len() ==> survivors(s, hw, hh)[i].id != survivors(
                s,
                hw,
                hh,
            )[j].id,
    decreases s.len(),
{
    lemma_survivors_sound(s, hw, hh);
    assert forall|i: int|
        0 <= i < survivors(s, hw, hh).len() implies (#[trigger] survivors(s, hw, hh)[i]).wf()
        && survivors(s, hw, hh)[i].id < bound by {
        let e = survivors(s, hw, hh)[i];
        let j = choose|j: int| 0 <= j < s.len() && s[j] == e;
        assert(s[j].wf());
    }
    if s.len() > 0 {
        let butlast = s.drop_last();
        assert forall|i: int| 0 <= i < butlast.len() implies (#[trigger] butlast[i]).wf() by {
            assert(s[i].wf());
        }
        assert forall|i: int| 0 <= i < butlast.len() implies (#[trigger] butlast[i]).id < bound by {
            assert(s[i].id < bound);
        }
        lemma_survivors_wf(butlast, hw, hh, bound);
        if !removed_this_tick(s.last(), hw, hh) {
            let r = survivors(s, hw, hh);
            let rb = survivors(butlast, hw, hh);
            lemma_survivors_sound(butlast, hw, hh);
            assert forall|i: int, j: int| 0 <= i < j < r.len() implies r[i].id != r[j].id by {
                if j < rb.len() {
                } else {
                    assert(r[j] == s.last());
                    assert(butlast.contains(rb[i]));
                    let k = choose|k: int| 0 <= k < butlast.len() && butlast[k] == rb[i];
                    assert(s[k] == rb[i]);
                    assert(s[k].id != s[s.len() - 1].id);
                }
            }
        }
    }
}

/// The weapon timer advanced by `dt` microseconds; nothing else changes.
pub open spec fn weapon_ticked(e: Entity, dt: int) -> Entity {
    match e.weapon {
        Some(wp) => (Entity {
            weapon: Some(
                (crate::components::Weapon {
                    elapsed: crate::components::timer_elapsed_spec(
                        wp.elapsed as int,
                        dt,
                        wp.cooldown as int,
                    ) as u64,
                    ..wp
                }),
            ),
            ..e
        }),
        None => e,
    }
}

/// The entity fires this tick: it has a weapon whose cooldown interval
/// completes within `dt` while the trigger is held.
pub open spec fn weapon_fires(e: Entity, dt: int) -> bool {
    match e.weapon {
        Some(wp) => wp.triggered && crate::components::timer_fires_spec(
            wp.elapsed as int,
            dt,
            wp.cooldown as int,
        ),
        None => false,
    }
}

/// The projectile fired by `e`: spawned at the firing entity's position
/// offset along its facing by its radius, with fixed speed along the
/// facing, a small fixed radius, the remove boundary policy, and the
/// caller's category labels.
pub open spec fn bullet_for(e: Entity, cats: u32, id: u64) -> Entity {
    let c = cos_spec(e.spatial.rotation as int);
    let s = sin_spec(e.spatial.rotation as int);
    Entity {
        id,
        spatial: Spatial {
            position: Vec2 {
                x: clamp_spec(
                    e.spatial.position.x + scaled_spec(c, e.spatial.radius as int, 1000),
                    POS_MAX as int,
                ) as i64,
                y: clamp_spec(
                    e.spatial.position.y + scaled_spec(s, e.spatial.radius as int, 1000),
                    POS_MAX as int,
                ) as i64,
            },
            rotation: 0,
            radius: 2000,
        },
        velocity: Vec2 { x: (c * 1000) as i64, y: (s * 1000) as i64 },
        speed_limit: None,
        damping: None,
        thrust: None,
        steering: None,
        weapon: None,
        boundary: BoundaryPolicy::Remove,
        collidable: true,
        categories: cats,
    }
}

/// The projectiles fired by the entities of `ents` this tick, in scan
/// order, with identifiers counting up from `first_id`.
pub open spec fn bullets_spawned(ents: Seq<Entity>, dt: int, cats: u32, first_id: u64) -> Seq<
    Entity,
>
    decreases ents.len(),
{
    if ents.len() == 0 {
        Seq::<Entity>::empty()
    } else {
        let prior = bullets_spawned(ents.drop_last(), dt, cats, first_id);
        if weapon_fires(ents.last(), dt) {
            prior.push(bullet_for(ents.last(), cats, (first_id + prior.len()) as u64))
        } else {
            prior
        }
    }
}

/// Weapon stage: every weapon timer accumulates the elapsed time; each
/// completion with the trigger held fires exactly one projectile, and the
/// timer carries its residue into the next interval. Projectiles are
/// appended after all existing entities, in scan order, under fresh
/// consecutive identifiers.
pub fn weapon_system(w: &mut World, dt: u64, bullet_categories: u32)
    requires
        old(w).wf(),
        dt <= crate::components::COOLDOWN_MAX,
        old(w).next_id + old(w).entities@.len() < u64::MAX,
    ensures
        final(w).wf(),
        final(w).entities@.len() == old(w).entities@.len() + bullets_spawned(
            old(w).entities@,
            dt as int,
            bullet_categories,
            old(w).next_id,
        ).len(),
        forall|t: int|
            0 <= t < old(w).entities@.len() ==> final(w).entities@[t] == weapon_ticked(
                old(w).entities@[t],
                dt as int,
            ),
        final(w).entities@.skip(old(w).entities@.len() as int) == bullets_spawned(
            old(w).entities@,
            dt as int,
            bullet_categories,
            old(w).next_id,
        ),
        final(w).next_id == old(w).next_id + bullets_spawned(
            old(w).entities@,
            dt as int,
            bullet_categories,
            old(w).next_id,
        ).len(),
{
    let n = w.entities.len();
    let base_id = w.next_id;
    let mut updated: Vec<Entity> = Vec::new();
    let mut bullets: Vec<Entity> = Vec::new();
    let mut i: usize = 0;
    while i < n
        invariant
            w == old(w),
            old(w).wf(),
            n == w.entities@.len(),
            base_id == w.next_id,
            w.next_id + n < u64::MAX,
            dt <= crate::components::COOLDOWN_MAX,
            i <= n,
            updated@.len() == i,
            forall|t: int|
                0 <= t < i ==> updated@[t] == weapon_ticked(w.entities@[t], dt as int)
                    && (#[trigger] updated@[t]).wf() && updated@[t].id == w.entities@[t].id,
            bullets@ == bullets_spawned(
                w.entities@.take(i as int),
                dt as int,
                bullet_categories,
                base_id,
            ),
            bullets@.len() <= i,
            forall|t: int|
                0 <= t < bullets@.len() ==> (#[trigger] bullets@[t]).wf() && bullets@[t].id
                    == base_id + t,
        decreases n - i,
    {
        let e = w.entities[i];
        assert(w.entities@[i as int].wf());
        proof {
            let t = w.entities@.take(i + 1);
            assert(t.drop_last() =~= w.entities@.take(i as int));
            assert(t.last() == w.entities@[i as int]);
        }
        match e.weapon {
            Some(wp) => {
                let mut timer = wp;
                let fired = timer.tick(dt);
                let e2 = Entity { weapon: Some(timer), ..e };
                updated.push(e2);
                if fired && timer.triggered {
                    let bid = base_id + (bullets.len() as u64);
                    let b = make_bullet(e, bullet_categories, bid);
                    bullets.push(b);
                }
            }
            None => {
                updated.push(e);
            }
        }
        i = i + 1;
    }
    proof {
        assert(w.entities@.take(n as int) =~= w.entities@);
    }
    let mut j: usize = 0;
    let nb = bullets.len();
    let ghost ticked = updated@;
    let ghost all_bullets = bullets@;
    while j < nb
        invariant
            j <= nb,
            nb == bullets@.len(),
            all_bullets == bullets@,
            updated@ == ticked + bullets@.take(j as int),
        decreases nb - j,
    {
        let b = bullets[j];
        updated.push(b);
        proof {
            assert(updated@ =~= ticked + bullets@.take(j + 1));
        }
        j = j + 1;
    }
    proof {
        assert(bullets@.take(nb as int) =~= bullets@);
    }
    w.entities = updated;
    w.next_id = base_id + (nb as u64);
    proof {
        assert(final(w).entities@.skip(n as int) =~= all_bullets);
        assert forall|x: int, y: int|
            0 <= x < y < final(w).entities@.len() implies final(w).entities@[x].id
            != final(w).entities@[y].id by {
            if y < n {
                assert(final(w).entities@[x].id == old(w).entities@[x].id);
                assert(final(w).entities@[y].id == old(w).entities@[y].id);
            } else if x < n {
                assert(final(w).entities@[x].id == old(w).entities@[x].id);
                assert(old(w).entities@[x].id < base_id);
                assert(final(w).entities@[y] == all_bullets[y - n]);
                assert(final(w).entities@[y].id == base_id + (y - n));
            } else {
                assert(final(w).entities@[x] == all_bullets[x - n]);
                assert(final(w).entities@[y] == all_bullets[y - n]);
            }
        }
    }
}

/// One projectile, built from the firing entity's spatial state.
fn make_bullet(e: Entity, cats: u32, id: u64) -> (r: Entity)
    requires
        e.wf(),
    ensures
        r == bullet_for(e, cats, id),
        r.wf(),
{
    let c = cos_milli(e.spatial.rotation);
    let s = sin_milli(e.spatial.rotation);
    proof {
        lemma_scaled_sign(c as int, e.spatial.radius as int, 1000);
        lemma_scaled_sign(s as int, e.spatial.radius as int, 1000);
        assert(abs(c as int) * e.spatial.radius <= 1_000_000_000_000) by (nonlinear_arith)
            requires
                abs(c as int) <= 1000,
                0 <= e.spatial.radius <= 1_000_000_000,
        ;
        assert(abs(s as int) * e.spatial.radius <= 1_000_000_000_000) by (nonlinear_arith)
            requires
                abs(s as int) <= 1000,
                0 <= e.spatial.radius <= 1_000_000_000,
        ;
    }
    let offx = scaled(c, e.spatial.radius, 1000);
    let offy = scaled(s, e.spatial.radius, 1000);
    let px = add_clamped(e.spatial.position.x, offx, POS_MAX);
    let py = add_clamped(e.spatial.position.y, offy, POS_MAX);
    Entity {
        id,
        spatial: Spatial { position: Vec2 { x: px, y: py }, rotation: 0, radius: 2000 },
        velocity: Vec2 { x: c * 1000, y: s * 1000 },
        speed_limit: None,
        damping: None,
        thrust: None,
        steering: None,
        weapon: None,
        boundary: BoundaryPolicy::Remove,
        collidable: true,
        categories: cats,
    }
}


} // verus!
