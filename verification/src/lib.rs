//! Simulation core of a 2D arcade space shooter: entity kinematics,
//! toroidal boundary handling, hazard spawning, weapon timing, and a
//! generic category-pair hit detector, all over fixed-point integers.

pub mod math;
pub mod trig;
pub mod components;
pub mod world;
pub mod collision;
pub mod systems;
pub mod spawn;
pub mod rng;
pub mod laws;
