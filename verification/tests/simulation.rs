use bevyroids::collision::CollisionRegistry;
use bevyroids::collision::collision_system;
use bevyroids::components::BoundaryPolicy;
use bevyroids::components::Spatial;
use bevyroids::components::ThrustEngine;
use bevyroids::components::Vec2;
use bevyroids::components::Weapon;
use bevyroids::spawn::aim_velocity;
use bevyroids::spawn::asteroid_spawn_system;
use bevyroids::systems::boundary_remove_system;
use bevyroids::systems::boundary_wrap_system;
use bevyroids::systems::damping_system;
use bevyroids::systems::movement_system;
use bevyroids::systems::speed_limit_system;
use bevyroids::systems::steering_control_system;
use bevyroids::systems::thrust_control_system;
use bevyroids::systems::thrust_system;
use bevyroids::systems::weapon_control_system;
use bevyroids::systems::weapon_system;
use rand::SeedableRng;
use bevyroids::world::Entity;
use bevyroids::world::World;

const HITTABLE: u32 = 0;
const HURTABLE: u32 = 1;

fn plain_entity(x: i64, y: i64, radius: i64) -> Entity {
    Entity {
        id: 0,
        spatial: Spatial { position: Vec2 { x, y }, rotation: 0, radius },
        velocity: Vec2 { x: 0, y: 0 },
        speed_limit: None,
        damping: None,
        thrust: None,
        steering: None,
        weapon: None,
        boundary: BoundaryPolicy::Wrap,
        collidable: false,
        categories: 0,
    }
}

fn tagged(x: i64, y: i64, radius: i64, cat: u32) -> Entity {
    let mut e = plain_entity(x, y, radius);
    e.collidable = true;
    e.categories = 1u32 << cat;
    e
}

#[test]
fn no_hit_when_apart_then_one_hit_when_overlapping() {
    // Hittable at (0,0) radius 10 units, hurtable at (15,0) radius 4:
    // distance 15 is not below 14, so no event; at (8,0) it is, one event.
    let mut w = World::new();
    let mut reg = CollisionRegistry::new();
    let pair = reg.register(HITTABLE, HURTABLE);
    let a = w.spawn(tagged(0, 0, 10_000, HITTABLE));
    let b = w.spawn(tagged(15_000, 0, 4_000, HURTABLE));
    let hits = collision_system(&w, &reg);
    assert_eq!(hits.len(), 0);

    w.entities[1].spatial.position.x = 8_000;
    let hits = collision_system(&w, &reg);
    assert_eq!(hits.len(), 1);
    assert_eq!(hits[0].pair, pair);
    assert_eq!(hits[0].hittable(), a);
    assert_eq!(hits[0].hurtable(), b);
}

#[test]
fn exact_touch_is_not_a_hit() {
    let mut w = World::new();
    let mut reg = CollisionRegistry::new();
    reg.register(HITTABLE, HURTABLE);
    w.spawn(tagged(0, 0, 10_000, HITTABLE));
    w.spawn(tagged(14_000, 0, 4_000, HURTABLE));
    assert_eq!(collision_system(&w, &reg).len(), 0);
    w.entities[1].spatial.position.x = 13_999;
    assert_eq!(collision_system(&w, &reg).len(), 1);
}

#[test]
fn uncollidable_or_untagged_entities_emit_nothing() {
    let mut w = World::new();
    let mut reg = CollisionRegistry::new();
    reg.register(HITTABLE, HURTABLE);
    let mut a = tagged(0, 0, 10_000, HITTABLE);
    a.collidable = false;
    w.spawn(a);
    w.spawn(tagged(0, 0, 10_000, HURTABLE));
    assert_eq!(collision_system(&w, &reg).len(), 0);
}

#[test]
fn entity_in_both_categories_hits_itself() {
    // An entity tagged with both labels pairs with itself: distance zero
    // is below twice its radius, so a self-hit event is emitted.
    let mut w = World::new();
    let mut reg = CollisionRegistry::new();
    reg.register(HITTABLE, HURTABLE);
    let mut e = tagged(0, 0, 10_000, HITTABLE);
    e.categories |= 1u32 << HURTABLE;
    let id = w.spawn(e);
    let hits = collision_system(&w, &reg);
    assert_eq!(hits.len(), 1);
    assert_eq!(hits[0].hittable(), id);
    assert_eq!(hits[0].hurtable(), id);
}

#[test]
fn wrap_triggers_just_outside_not_just_inside() {
    // Width 800 units: half-width 400. Radius 10. An entity at x = 421
    // has crossed by more than the two-radius margin and wraps to the
    // opposite edge offset by that margin; an entity at x = 419 stays.
    let mut w = World::new();
    w.spawn(plain_entity(421_000, 0, 10_000));
    w.spawn(plain_entity(419_000, 0, 10_000));
    boundary_wrap_system(&mut w, 400_000, 300_000);
    assert_eq!(w.entities[0].spatial.position.x, -420_000);
    assert_eq!(w.entities[1].spatial.position.x, 419_000);
}

#[test]
fn wrap_exact_threshold() {
    // The wrap fires only when the position minus twice the radius
    // strictly exceeds the half-extent.
    let mut w = World::new();
    w.spawn(plain_entity(420_000, 0, 10_000));
    w.spawn(plain_entity(420_001, 0, 10_000));
    w.spawn(plain_entity(0, -320_001, 10_000));
    boundary_wrap_system(&mut w, 400_000, 300_000);
    assert_eq!(w.entities[0].spatial.position.x, 420_000);
    assert_eq!(w.entities[1].spatial.position.x, -420_000);
    assert_eq!(w.entities[2].spatial.position.y, 320_000);
}

#[test]
fn remove_policy_destroys_escaped_entities_only() {
    let mut w = World::new();
    let mut inside = plain_entity(100_000, 0, 10_000);
    inside.boundary = BoundaryPolicy::Remove;
    let mut outside = plain_entity(421_000, 0, 10_000);
    outside.boundary = BoundaryPolicy::Remove;
    let wrapped = plain_entity(421_000, 0, 10_000);
    let keep = w.spawn(inside);
    w.spawn(outside);
    let keep2 = w.spawn(wrapped);
    boundary_remove_system(&mut w, 400_000, 300_000);
    assert_eq!(w.entities.len(), 2);
    assert_eq!(w.entities[0].id, keep);
    assert_eq!(w.entities[1].id, keep2);
}

#[test]
fn speed_clamp_caps_magnitude_and_keeps_direction() {
    // |(300, 400)| = 500 units/s against a limit of 250: the clamp lands
    // exactly on (150, 200).
    let mut w = World::new();
    let mut e = plain_entity(0, 0, 10_000);
    e.velocity = Vec2 { x: 300_000, y: 400_000 };
    e.speed_limit = Some(250_000);
    w.spawn(e);
    speed_limit_system(&mut w);
    assert_eq!(w.entities[0].velocity.x, 150_000);
    assert_eq!(w.entities[0].velocity.y, 200_000);
}

#[test]
fn speed_clamp_leaves_slow_velocity_unchanged() {
    let mut w = World::new();
    let mut e = plain_entity(0, 0, 10_000);
    e.velocity = Vec2 { x: 100_000, y: -50_000 };
    e.speed_limit = Some(250_000);
    w.spawn(e);
    speed_limit_system(&mut w);
    assert_eq!(w.entities[0].velocity.x, 100_000);
    assert_eq!(w.entities[0].velocity.y, -50_000);
}

#[test]
fn damping_decays_geometrically() {
    // Factor 998/1000 on 100 units/s: 99800, 99600, 99400 after three
    // stages (each stage rounds toward zero).
    let mut w = World::new();
    let mut e = plain_entity(0, 0, 10_000);
    e.velocity = Vec2 { x: 100_000, y: 0 };
    e.damping = Some(998);
    w.spawn(e);
    damping_system(&mut w);
    assert_eq!(w.entities[0].velocity.x, 99_800);
    damping_system(&mut w);
    assert_eq!(w.entities[0].velocity.x, 99_600);
    damping_system(&mut w);
    assert_eq!(w.entities[0].velocity.x, 99_400);
    assert_eq!(w.entities[0].velocity.y, 0);
}

#[test]
fn movement_advances_by_velocity_times_timestep() {
    let mut w = World::new();
    let mut e = plain_entity(0, 0, 10_000);
    e.velocity = Vec2 { x: 120_000, y: -120_000 };
    w.spawn(e);
    movement_system(&mut w, 8_333);
    assert_eq!(w.entities[0].spatial.position.x, 999);
    assert_eq!(w.entities[0].spatial.position.y, -999);
}

#[test]
fn thrust_adds_force_along_facing() {
    let mut w = World::new();
    let mut e = plain_entity(0, 0, 12_000);
    e.thrust = Some(ThrustEngine::new(1_500));
    w.spawn(e);
    thrust_control_system(&mut w, true);
    thrust_system(&mut w);
    assert_eq!(w.entities[0].velocity.x, 1_500);
    assert_eq!(w.entities[0].velocity.y, 0);
    // Disengaged: nothing changes.
    thrust_control_system(&mut w, false);
    thrust_system(&mut w);
    assert_eq!(w.entities[0].velocity.x, 1_500);
}

#[test]
fn steering_turns_by_rate_times_time() {
    let mut w = World::new();
    let mut e = plain_entity(0, 0, 12_000);
    e.steering = Some(bevyroids::components::SteeringControl { turn_rate: 180_000 });
    w.spawn(e);
    steering_control_system(&mut w, true, false, 500_000);
    assert_eq!(w.entities[0].spatial.rotation, 90_000);
    steering_control_system(&mut w, false, true, 500_000);
    steering_control_system(&mut w, false, true, 500_000);
    assert_eq!(w.entities[0].spatial.rotation, 270_000);
}

#[test]
fn weapon_fires_once_per_cooldown_interval() {
    // Cooldown 100 ms, trigger held, fixed tick of 8333 us: after 36
    // ticks (299988 us) exactly two projectiles have been fired.
    let mut w = World::new();
    let mut e = plain_entity(0, 0, 12_000);
    e.weapon = Some(Weapon::new(100_000));
    w.spawn(e);
    weapon_control_system(&mut w, true);
    for _ in 0..36 {
        weapon_system(&mut w, 8_333, 1u32 << HITTABLE);
    }
    assert_eq!(w.entities.len(), 1 + 2);
}

#[test]
fn weapon_does_not_fire_without_trigger() {
    let mut w = World::new();
    let mut e = plain_entity(0, 0, 12_000);
    e.weapon = Some(Weapon::new(100_000));
    w.spawn(e);
    weapon_control_system(&mut w, false);
    for _ in 0..36 {
        weapon_system(&mut w, 8_333, 0);
    }
    assert_eq!(w.entities.len(), 1);
}

#[test]
fn bullet_spawns_offset_along_facing_with_fixed_speed() {
    let mut w = World::new();
    let mut e = plain_entity(5_000, 7_000, 12_000);
    e.weapon = Some(Weapon::new(100_000));
    w.spawn(e);
    weapon_control_system(&mut w, true);
    weapon_system(&mut w, 100_000, 1u32 << HITTABLE);
    assert_eq!(w.entities.len(), 2);
    let b = &w.entities[1];
    // Facing 0: offset by the firer's radius along +x, speed 1000 units/s.
    assert_eq!(b.spatial.position.x, 5_000 + 12_000);
    assert_eq!(b.spatial.position.y, 7_000);
    assert_eq!(b.velocity.x, 1_000_000);
    assert_eq!(b.velocity.y, 0);
    assert_eq!(b.spatial.radius, 2_000);
    assert!(matches!(b.boundary, BoundaryPolicy::Remove));
}

#[test]
fn aim_velocity_zero_direction_is_zero() {
    let p = Vec2 { x: 123_000, y: -45_000 };
    let v = aim_velocity(p, p, 50_000);
    assert_eq!(v.x, 0);
    assert_eq!(v.y, 0);
}

#[test]
fn aim_velocity_bounded_and_directed() {
    let from = Vec2 { x: 0, y: 0 };
    let to = Vec2 { x: 30_000, y: -40_000 };
    let v = aim_velocity(from, to, 50_000);
    // Exact: the distance is 50 units, so the velocity is the direction
    // scaled to full speed.
    assert_eq!(v.x, 30_000);
    assert_eq!(v.y, -40_000);
}

#[test]
fn spawner_asteroids_meet_their_bounds() {
    let mut rng = rand::rngs::SmallRng::seed_from_u64(42);
    let half_w = 400_000;
    let half_h = 300_000;
    let mut w = World::new();
    for _ in 0..60 {
        asteroid_spawn_system(&mut w, &mut rng, half_w, half_h, 1u32 << HURTABLE);
    }
    assert!(!w.entities.is_empty());
    for e in &w.entities {
        let r = e.spatial.radius;
        assert!((30_000..40_000).contains(&r));
        assert!(matches!(e.boundary, BoundaryPolicy::Remove));
        assert!(e.collidable);
        assert_eq!(e.categories, 1u32 << HURTABLE);
        let px = e.spatial.position.x;
        let py = e.spatial.position.y;
        let c = 2 * r;
        let on_row = (-half_w..half_w).contains(&px) && (py == half_h + c || py == -half_h - c);
        let on_col = (px == half_w + c || px == -half_w - c) && (-half_h..half_h).contains(&py);
        assert!(on_row || on_col);
        let vx = e.velocity.x as i128;
        let vy = e.velocity.y as i128;
        assert!(vx * vx + vy * vy <= 60_000i128 * 60_000i128);
        // Aimed inward on the off-screen axis.
        if py == half_h + c {
            assert!(e.velocity.y <= 0);
        }
        if py == -half_h - c {
            assert!(e.velocity.y >= 0);
        }
        if px == half_w + c {
            assert!(e.velocity.x <= 0);
        }
        if px == -half_w - c {
            assert!(e.velocity.x >= 0);
        }
    }
}

#[test]
fn spawner_draws_vary_between_calls() {
    // Two different seeds and repeated draws produce different asteroid
    // placements: the generator is really consulted.
    let mut rng = rand::rngs::SmallRng::seed_from_u64(1);
    let mut w = World::new();
    for _ in 0..60 {
        asteroid_spawn_system(&mut w, &mut rng, 400_000, 300_000, 0);
    }
    assert!(w.entities.len() >= 2);
    let first = (w.entities[0].spatial.position.x, w.entities[0].spatial.position.y);
    let any_different = w.entities.iter().any(|e| {
        (e.spatial.position.x, e.spatial.position.y) != first
    });
    assert!(any_different);
}

#[test]
fn end_to_end_tick_pipeline() {
    // A ship-like entity and a hazard run through the staged pipeline:
    // actuators, damping, clamp, integration, boundary, detection.
    let mut w = World::new();
    let mut reg = CollisionRegistry::new();
    reg.register(HITTABLE, HURTABLE);
    let mut ship = tagged(0, 0, 12_000, HITTABLE);
    ship.speed_limit = Some(350_000);
    ship.damping = Some(998);
    ship.thrust = Some(ThrustEngine::new(1_500));
    ship.weapon = Some(Weapon::new(100_000));
    w.spawn(ship);
    let mut hazard = tagged(100_000, 0, 35_000, HURTABLE);
    hazard.velocity = Vec2 { x: -40_000, y: 0 };
    hazard.boundary = BoundaryPolicy::Remove;
    w.spawn(hazard);

    let dt: i64 = 8_333;
    let mut total_hits = 0usize;
    for _ in 0..400 {
        thrust_control_system(&mut w, true);
        weapon_control_system(&mut w, false);
        weapon_system(&mut w, dt as u64, 1u32 << HITTABLE);
        thrust_system(&mut w);
        damping_system(&mut w);
        speed_limit_system(&mut w);
        movement_system(&mut w, dt);
        boundary_wrap_system(&mut w, 400_000, 300_000);
        boundary_remove_system(&mut w, 400_000, 300_000);
        total_hits += collision_system(&w, &reg).len();
    }
    // The hazard drifts left into the ship: they overlap on some tick.
    assert!(total_hits > 0);
}
