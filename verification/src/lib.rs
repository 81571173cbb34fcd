//! A verified 2D physics and collision core for an asteroids-style game.
//!
//! All world coordinates, radii and velocities are fixed-point integers in
//! milli-units (1000 = one world unit); angles are integers in
//! milli-degrees (360_000 = a full turn). The crate holds the spatial
//! store (an arena of entity records with stable, never-reused indices),
//! the all-pairs collision detector with layer-mask filtering, movement
//! integration with optional collision response, and the deferred
//! entity-lifecycle systems (spawning, asteroid splitting, damage,
//! cleanup) that consume collision results.

pub mod components;
pub mod consts;
pub mod detect;
pub mod physics;
pub mod rng;
pub mod systems;
pub mod trig;
pub mod world;
pub mod fixed;
pub mod game;

use vstd::prelude::*;

verus! {

/// Milli-units per world unit: the global fixed-point scale.
pub const MILLI: i64 = 1000;

} // verus!
