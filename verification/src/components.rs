//! Per-entity component state: spatial data, velocity, actuator state,
//! weapon timing, and the boundary policy tag.

use vstd::prelude::*;

verus! {

use vstd::math::abs;
use crate::math::POS_MAX;
use crate::math::RADIUS_MAX;
use crate::math::FULL_TURN;

/// Largest thrust force magnitude (milli-units per second per tick).
pub const THRUST_MAX: i64 = 1_000_000_000;

/// Largest steering rate magnitude (milli-degrees per second).
pub const TURN_RATE_MAX: i64 = 10_000_000;

/// Largest weapon cooldown (microseconds).
pub const COOLDOWN_MAX: u64 = 1_000_000_000_000_000;

/// A 2D vector in fixed-point milli-units.
#[derive(Clone, Copy, Debug, PartialEq, Eq, Structural)]
pub struct Vec2 {
    pub x: i64,
    pub y: i64,
}

/// Squared Euclidean norm of a vector.
pub open spec fn norm_sq(x: int, y: int) -> int {
    x * x + y * y
}

impl Vec2 {
    /// Both components within `[-b, b]`.
    pub open spec fn bounded(self, b: int) -> bool {
        abs(self.x as int) <= b && abs(self.y as int) <= b
    }
}

/// Position, facing and bounding radius of an entity.
#[derive(Clone, Copy, Debug, PartialEq, Eq, Structural)]
pub struct Spatial {
    /// World position, milli-units.
    pub position: Vec2,
    /// Facing angle, milli-degrees in `[0, FULL_TURN)`.
    pub rotation: i64,
    /// Bounding-circle radius, milli-units, never negative.
    pub radius: i64,
}

impl Spatial {
    /// Model bounds: position within the representable band, rotation
    /// normalized, radius non-negative.
    pub open spec fn wf(self) -> bool {
        &&& self.position.bounded(POS_MAX as int)
        &&& 0 <= self.rotation < FULL_TURN
        &&& 0 <= self.radius <= RADIUS_MAX
    }
}

/// The boundary policy an entity carries from spawn time on: leave the play
/// area and reappear on the opposite side, or be destroyed.
#[derive(Clone, Copy, Debug, PartialEq, Eq, Structural)]
pub enum BoundaryPolicy {
    Wrap,
    Remove,
}

/// Thrust actuator: a force applied along the current facing while engaged.
#[derive(Clone, Copy, Debug, PartialEq, Eq, Structural)]
pub struct ThrustEngine {
    /// Force magnitude added to the velocity per tick while on.
    pub force: i64,
    /// Whether the engine is engaged this tick.
    pub on: bool,
}

impl ThrustEngine {
    pub open spec fn wf(self) -> bool {
        0 <= self.force <= THRUST_MAX
    }

    /// A disengaged engine with the given force magnitude.
    pub fn new(force: i64) -> (r: ThrustEngine)
        requires
            0 <= force <= THRUST_MAX,
        ensures
            r.force == force,
            !r.on,
            r.wf(),
    {
        ThrustEngine { force, on: false }
    }
}

/// Steering actuator: a turn rate applied while a steering intent is active.
#[derive(Clone, Copy, Debug, PartialEq, Eq, Structural)]
pub struct SteeringControl {
    /// Turn rate, milli-degrees per second.
    pub turn_rate: i64,
}

impl SteeringControl {
    pub open spec fn wf(self) -> bool {
        -TURN_RATE_MAX <= self.turn_rate <= TURN_RATE_MAX
    }
}

/// Weapon state: a repeating cooldown timer and the trigger flag.
#[derive(Clone, Copy, Debug, PartialEq, Eq, Structural)]
pub struct Weapon {
    /// Length of the repeating cooldown interval, microseconds.
    pub cooldown: u64,
    /// Time accumulated into the current interval, microseconds.
    pub elapsed: u64,
    /// Whether the trigger is held this tick.
    pub triggered: bool,
}

/// Elapsed time after one timer tick: the accumulated time, reduced into
/// the current interval.
pub open spec fn timer_elapsed_spec(e: int, dt: int, cd: int) -> int
    recommends
        0 < cd,
{
    (e + dt) % cd
}

/// Whether one timer tick completes the interval.
pub open spec fn timer_fires_spec(e: int, dt: int, cd: int) -> bool {
    e + dt >= cd
}

impl Weapon {
    pub open spec fn wf(self) -> bool {
        &&& 0 < self.cooldown <= COOLDOWN_MAX
        &&& self.elapsed < self.cooldown
    }

    /// A released, just-reset weapon with the given cooldown interval.
    pub fn new(cooldown: u64) -> (r: Weapon)
        requires
            0 < cooldown <= COOLDOWN_MAX,
        ensures
            r.cooldown == cooldown,
            r.elapsed == 0,
            !r.triggered,
            r.wf(),
    {
        Weapon { cooldown, elapsed: 0, triggered: false }
    }

    /// Advance the repeating timer by `dt` microseconds. Returns whether the
    /// interval completed; the timer then carries the residue into the next
    /// interval.
    pub fn tick(&mut self, dt: u64) -> (fired: bool)
        requires
            old(self).wf(),
            dt <= COOLDOWN_MAX,
        ensures
            final(self).wf(),
            fired == timer_fires_spec(old(self).elapsed as int, dt as int, old(self).cooldown as int),
            final(self).elapsed == timer_elapsed_spec(
                old(self).elapsed as int,
                dt as int,
                old(self).cooldown as int,
            ),
            final(self).cooldown == old(self).cooldown,
            final(self).triggered == old(self).triggered,
    {
        let total: u64 = self.elapsed + dt;
        if total >= self.cooldown {
            self.elapsed = total % self.cooldown;
            true
        } else {
            proof {
                vstd::arithmetic::div_mod::lemma_small_mod(total as nat, self.cooldown as nat);
            }
            self.elapsed = total;
            false
        }
    }
}

} // verus!
