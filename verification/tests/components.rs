use bevyroids::components::Spatial;
use bevyroids::components::ThrustEngine;
use bevyroids::components::Vec2;
use bevyroids::components::Weapon;
use bevyroids::components::BoundaryPolicy;
use bevyroids::trig::cos_milli;
use bevyroids::trig::sin_milli;
use bevyroids::world::Entity;
use bevyroids::world::World;

#[test]
fn thrust_engine_starts_disengaged() {
    let t = ThrustEngine::new(1_500);
    assert_eq!(t.force, 1_500);
    assert!(!t.on);
}

#[test]
fn weapon_starts_reset_and_released() {
    let w = Weapon::new(100_000);
    assert_eq!(w.cooldown, 100_000);
    assert_eq!(w.elapsed, 0);
    assert!(!w.triggered);
}

#[test]
fn weapon_timer_carries_residue() {
    let mut w = Weapon::new(100_000);
    assert!(!w.tick(60_000));
    assert_eq!(w.elapsed, 60_000);
    assert!(w.tick(60_000));
    assert_eq!(w.elapsed, 20_000);
}

#[test]
fn fixed_point_trig_hits_exact_landmarks() {
    assert_eq!(sin_milli(0), 0);
    assert_eq!(sin_milli(30_000), 500);
    assert_eq!(sin_milli(90_000), 1_000);
    assert_eq!(sin_milli(180_000), 0);
    assert_eq!(sin_milli(210_000), -500);
    assert_eq!(cos_milli(0), 1_000);
    assert_eq!(cos_milli(60_000), 500);
    assert_eq!(cos_milli(180_000), -1_000);
}

#[test]
fn despawn_removes_exactly_the_named_entity() {
    let mut w = World::new();
    let mk = |x: i64| Entity {
        id: 0,
        spatial: Spatial { position: Vec2 { x, y: 0 }, rotation: 0, radius: 1_000 },
        velocity: Vec2 { x: 0, y: 0 },
        speed_limit: None,
        damping: None,
        thrust: None,
        steering: None,
        weapon: None,
        boundary: BoundaryPolicy::Wrap,
        collidable: false,
        categories: 0,
    };
    let a = w.spawn(mk(1));
    let b = w.spawn(mk(2));
    let c = w.spawn(mk(3));
    w.despawn(b);
    assert_eq!(w.entities.len(), 2);
    assert_eq!(w.entities[0].id, a);
    assert_eq!(w.entities[1].id, c);
    // Despawning an absent identifier changes nothing.
    w.despawn(b);
    assert_eq!(w.entities.len(), 2);
}
