//! Configuration constants: collision layers, world bounds, spawn
//! thresholds and the machine limits that keep every fixed-point
//! computation in range.
//!
//! Distances are in milli-units, angles in milli-degrees.

use vstd::prelude::*;

verus! {

// Collision layer bitmasks.
pub const LAYER_PLAYER: u64 = 1;
pub const LAYER_ENEMY: u64 = 1 << 1;
pub const LAYER_ASTEROID: u64 = 1 << 2;
pub const LAYER_BULLET_PLAYER: u64 = 1 << 3;
pub const LAYER_BULLET_ENEMY: u64 = 1 << 4;
pub const LAYER_WALL: u64 = 1 << 5;

// Wrap rectangle: positions past an edge (plus the shape extent and
// buffer) teleport to the opposite edge.
pub const WRAP_LEFT: i64 = -1_300_000;
pub const WRAP_RIGHT: i64 = 1_300_000;
pub const WRAP_TOP: i64 = -800_000;
pub const WRAP_BOTTOM: i64 = 800_000;
pub const WRAP_BUFFER: i64 = 20_000;

// Spawn band: half the wrap rectangle, the range the spawners draw
// positions from along the boundary ring.
pub const WRAP_LEFT_HALF: i64 = -650_000;
pub const WRAP_RIGHT_HALF: i64 = 650_000;
pub const WRAP_TOP_HALF: i64 = -400_000;
pub const WRAP_BOTTOM_HALF: i64 = 400_000;

// Entities beyond this rectangle are destroyed.
pub const OFFSCREEN_X: i64 = 2_000_000;
pub const OFFSCREEN_Y: i64 = 1_500_000;

// Spawn timers: one spawn each time the accumulated counter exceeds the
// threshold.
pub const ASTEROID_SPAWN_THRESHOLD: i32 = 25;
pub const SPINNER_SPAWN_THRESHOLD: i32 = 400;

// Asteroid geometry: spawn radius range, the minimum radius below which a
// split destroys the asteroid, and the angular spread of split headings.
pub const ASTEROID_RADIUS_MIN: i64 = 40_000;
pub const ASTEROID_RADIUS_MAX: i64 = 100_000;
pub const MIN_ASTEROID_RADIUS: i64 = 15_000;
pub const SPLIT_SPREAD: i64 = 140_000;
pub const SPAWN_AIM_JITTER: i64 = 22_000;

// Speeds and accelerations (milli-units per tick).
pub const ASTEROID_SPEED_MIN: i64 = 5_000;
pub const ASTEROID_SPEED_MAX: i64 = 10_000;
pub const SPINNER_ACCEL: i64 = 180;
pub const SPINNER_RADIUS: i64 = 20_000;
pub const PLAYER_SPEED: i64 = 5_000;
pub const PLAYER_BULLET_SPEED: i64 = 15_000;
pub const PLAYER_BULLET_RADIUS: i64 = 20_000;
pub const ENEMY_BULLET_SPEED: i64 = 3_000;
pub const ENEMY_BULLET_RADIUS: i64 = 7_500;

// Gameplay counters.
pub const BULLET_BOUNCE_LIMIT: u32 = 3;
pub const PLAYER_HP: i32 = 3;
pub const PLAYER_IFRAMES: i32 = 20;
pub const SPINNER_SHOT_COOLDOWN: i32 = 4;

// Draw layers, back to front.
pub const DRAW_LAYER_ASTEROID: i64 = 2;
pub const DRAW_LAYER_WALL: i64 = 1;
pub const DRAW_LAYER_PLAYER: i64 = 0;
pub const DRAW_LAYER_ENEMY: i64 = -1;
pub const DRAW_LAYER_BULLET: i64 = -2;

// No entity identifier is allocated past this machine cap.
pub const ENTITY_CAP: u64 = 1_000_000_000;

// A full turn and a half turn in milli-degrees.
pub const DEG_FULL: i64 = 360_000;
pub const DEG_HALF: i64 = 180_000;
pub const DEG_QUARTER: i64 = 90_000;

// Machine limits (far beyond anything gameplay reaches): they bound the
// stored state so that every intermediate product below fits in i128 and
// every stored value in i64.
pub const POS_LIMIT: i64 = 1_000_000_000_000_000;
pub const VEL_LIMIT: i64 = 1_000_000_000_000;
pub const RADIUS_LIMIT: i64 = 1_000_000_000;

} // verus!
