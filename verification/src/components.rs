//! Gameplay components: health with an invulnerability window, the
//! per-entity kinematic state, spinner and bullet state, tags, and the
//! render data (sprite scale, color, draw layer) derived for the
//! rendering layer.

use vstd::prelude::*;
use crate::consts::{VEL_LIMIT, RADIUS_LIMIT, DEG_FULL, BULLET_BOUNCE_LIMIT};
use crate::fixed::{absi, tdiv, mul_tdiv};

verus! {

/// An RGB color with milli-unit channels (1000 = full intensity).
#[derive(Clone, Copy, Debug, PartialEq, Eq, Structural)]
pub struct Color {
    pub r: i64,
    pub g: i64,
    pub b: i64,
}

impl Color {
    pub fn rgb(r: i64, g: i64, b: i64) -> (c: Color)
        ensures
            c == (Color { r, g, b }),
    {
        Color { r, g, b }
    }

    /// The hit-flash color.
    pub fn red() -> (c: Color)
        ensures
            c == (Color { r: 1000, g: 0, b: 0 }),
    {
        Color { r: 1000, g: 0, b: 0 }
    }
}

/// The textures the game draws with.
#[derive(Clone, Copy, Debug, PartialEq, Eq, Structural)]
pub enum Texture {
    Asteroid,
    Square,
}

/// What the rendering layer needs for one entity: a texture, a scale in
/// milli-units (1000 = natural size), a tint and a draw layer.
#[derive(Clone, Copy, Debug, PartialEq, Eq, Structural)]
pub struct Sprite {
    pub texture: Texture,
    pub scale: i64,
    pub color: Color,
    pub draw_layer: i64,
}

/// The sprite scale for a shape of the given radius: the source art is
/// 1024 pixels wide, so the scale is the diameter over 1024.
pub open spec fn sprite_scale(radius: int) -> int {
    tdiv(radius * 2, 1024)
}

/// Build the render data for a shape of the given radius.
pub fn create_sprite(texture: Texture, radius: i64, color: Color, draw_layer: i64) -> (s: Sprite)
    requires
        0 <= radius <= RADIUS_LIMIT,
    ensures
        s.texture == texture,
        s.scale == sprite_scale(radius as int),
        s.color == color,
        s.draw_layer == draw_layer,
{
    let scale = mul_tdiv(radius, 2, 1024);
    Sprite { texture, scale, color, draw_layer }
}

/// Hit points with an invulnerability window: `iframe_count` ticks down
/// once per step and blocks further damage while positive.
#[derive(Clone, Copy, Debug, PartialEq, Eq, Structural)]
pub struct Health {
    pub max: i32,
    pub hp: i32,
    pub iframe_count: i32,
    pub iframe_max: i32,
    pub iframe_col: Option<Color>,
}

impl Default for Health {
    /// An empty health record.
    fn default() -> (h: Health)
        ensures
            h == (Health { max: 0, hp: 0, iframe_count: 0, iframe_max: 0, iframe_col: None }),
    {
        Health { max: 0, hp: 0, iframe_count: 0, iframe_max: 0, iframe_col: None }
    }
}

impl Health {
    /// Full health with the given invulnerability window.
    pub fn new(max: i32, iframes: i32, iframe_col: Option<Color>) -> (h: Health)
        ensures
            h == (Health {
                max,
                hp: max,
                iframe_count: 0,
                iframe_max: iframes,
                iframe_col,
            }),
    {
        Health { max, hp: max, iframe_count: 0, iframe_max: iframes, iframe_col }
    }
}

/// Kinematic state: a constant velocity part `(dx, dy)`, plus a heading
/// given by `angle` (milli-degrees), `speed`, `accel` and `curve`.
/// Entities with `apply_auto` are integrated by the free-movement step;
/// player bullets clear it and move through the colliding step instead.
#[derive(Clone, Copy, Debug, PartialEq, Eq, Structural)]
pub struct Physics {
    pub apply_auto: bool,
    pub dx: i64,
    pub dy: i64,
    pub speed: i64,
    pub angle: i64,
    pub accel: i64,
    pub curve: i64,
}

impl Physics {
    /// Magnitudes within the machine velocity limit, the heading
    /// normalized into a full turn, the curvature at most a full turn
    /// per step.
    pub open spec fn wf(self) -> bool {
        absi(self.dx as int) <= VEL_LIMIT && absi(self.dy as int) <= VEL_LIMIT && absi(
            self.speed as int,
        ) <= VEL_LIMIT && absi(self.accel as int) <= VEL_LIMIT && 0 <= self.angle < DEG_FULL
            && absi(self.curve as int) <= DEG_FULL
    }
}

impl Default for Physics {
    /// At rest, integrated automatically.
    fn default() -> (p: Physics)
        ensures
            p == (Physics {
                apply_auto: true,
                dx: 0,
                dy: 0,
                speed: 0,
                angle: 0,
                accel: 0,
                curve: 0,
            }),
    {
        Physics { apply_auto: true, dx: 0, dy: 0, speed: 0, angle: 0, accel: 0, curve: 0 }
    }
}

/// An enemy that drifts while firing rings of bullets.
#[derive(Clone, Copy, Debug, PartialEq, Eq, Structural)]
pub struct Spinner {
    pub angle: i64,
    pub cooldown: i32,
}

impl Spinner {
    pub open spec fn wf(self) -> bool {
        0 <= self.angle < DEG_FULL
    }
}

/// A response angle attached to an entity by gameplay code.
#[derive(Clone, Copy, Debug, PartialEq, Eq, Structural)]
pub struct Collision {
    pub angle: i64,
}

/// Who fired a bullet.
#[derive(Clone, Copy, Debug, PartialEq, Eq, Structural)]
pub enum Team {
    Player,
    Ast,
}

/// A bullet: its team and how many wall bounces it has left.
#[derive(Clone, Copy, Debug, PartialEq, Eq, Structural)]
pub struct Bullet {
    pub team: Team,
    pub bounces: u32,
    pub bounce_limit: u32,
}

impl Bullet {
    /// A fresh bullet with the configured bounce allowance.
    pub fn new(team: Team) -> (b: Bullet)
        ensures
            b == (Bullet { team, bounces: 0, bounce_limit: BULLET_BOUNCE_LIMIT }),
    {
        Bullet { team, bounces: 0, bounce_limit: BULLET_BOUNCE_LIMIT }
    }
}

/// Tag for the player entity.
#[derive(Clone, Copy, Debug, PartialEq, Eq, Structural)]
pub struct Player;

/// Tag for asteroid entities.
#[derive(Clone, Copy, Debug, PartialEq, Eq, Structural)]
pub struct Asteroid;

} // verus!
