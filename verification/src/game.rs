//! The per-game resource (spawn timers, input intents, aim angle), the
//! initial world, and the fixed tick pipeline.

use vstd::prelude::*;
use crate::consts::{
    DEG_FULL, LAYER_PLAYER, LAYER_WALL, LAYER_ENEMY, LAYER_BULLET_ENEMY, LAYER_ASTEROID,
    DRAW_LAYER_PLAYER, DRAW_LAYER_WALL, PLAYER_HP, PLAYER_IFRAMES, RADIUS_LIMIT, POS_LIMIT,
    ASTEROID_SPAWN_THRESHOLD, SPINNER_SPAWN_THRESHOLD, ENTITY_CAP,
};
use crate::detect::{geoms, lists_replaced};
use crate::systems::{
    asteroid_applies, asteroid_spawn_ok, bullet_applies, bullet_outcome, bullet_spent, drain,
    drain_count, first_tagged_player, hits_of, integrated, is_volley_bullet, offscreen,
    player_bullet_drawn, player_damage_post, player_moved, sibling_ok, sibling_total_upto,
    spinner_bullet_ok, spinner_ready, spinner_spawn_ok, split_killed, split_survivor, spun,
    ticked, volley_total_upto, wrapped,
};
use crate::fixed::absi;
use crate::components::{
    Color, Sprite, Texture, Health, Physics, Player, create_sprite, sprite_scale,
};
use crate::physics::{Transform, Collider, CollisionShape, CollisionBody};
use crate::world::{EntityRecord, World};

verus! {

/// The game-wide resource: spawn timers, the input snapshot and the aim
/// angle handed in by the input layer.
pub struct AsteroidGame {
    pub asteroid_timer: i32,
    pub spinner_timer: i32,
    pub move_left: bool,
    pub move_right: bool,
    pub move_up: bool,
    pub move_down: bool,
    pub lmb_down: bool,
    pub shoot_angle: i64,
}

impl AsteroidGame {
    /// Timers with stepping headroom, the aim angle normalized.
    pub open spec fn wf(self) -> bool {
        self.asteroid_timer < i32::MAX && self.spinner_timer < i32::MAX && 0 <= self.shoot_angle
            < DEG_FULL
    }

    /// A fresh resource with the given starting timers and no input.
    pub fn new(asteroid_timer: i32, spinner_timer: i32) -> (g: AsteroidGame)
        requires
            asteroid_timer < i32::MAX,
            spinner_timer < i32::MAX,
        ensures
            g == (AsteroidGame {
                asteroid_timer,
                spinner_timer,
                move_left: false,
                move_right: false,
                move_up: false,
                move_down: false,
                lmb_down: false,
                shoot_angle: 0,
            }),
            g.wf(),
    {
        AsteroidGame {
            asteroid_timer,
            spinner_timer,
            move_left: false,
            move_right: false,
            move_down: false,
            move_up: false,
            lmb_down: false,
            shoot_angle: 0,
        }
    }
}

/// A static wall: a solid box collider on the wall layer, a black
/// square sprite behind the gameplay layers, physics at rest.
pub open spec fn is_wall_record(r: EntityRecord, x: int, y: int, hw: int, hh: int) -> bool {
    &&& r.transform == (Transform { x: x as i64, y: y as i64 })
    &&& r.body.colliders@.len() == 1
    &&& r.body.colliders@[0].shape == CollisionShape::Rect(hw as i64, hh as i64)
    &&& r.body.colliders@[0].collision_layer == LAYER_WALL
    &&& r.body.colliders@[0].collides_with == 0
    &&& r.body.colliders@[0].overlapping@.len() == 0
    &&& r.body.sensors@.len() == 0
    &&& r.physics == Some(Physics { apply_auto: true, dx: 0, dy: 0, speed: 0, angle: 0, accel: 0, curve: 0 })
    &&& r.health is None
    &&& r.bullet is None
    &&& r.spinner is None
    &&& r.player is None
    &&& r.asteroid is None
    &&& r.sprite == Some(
        Sprite {
            texture: Texture::Square,
            scale: sprite_scale(hw) as i64,
            color: Color { r: 0, g: 0, b: 0 },
            draw_layer: DRAW_LAYER_WALL,
        },
    )
}

/// The player's starting record: full health with the configured
/// invulnerability window, a solid box collider blocked by walls, a box
/// sensor reacting to enemies, enemy bullets and asteroids, and a green
/// square sprite.
pub open spec fn is_player_start(r: EntityRecord) -> bool {
    &&& r.transform == (Transform { x: 0, y: 0 })
    &&& r.body.colliders@.len() == 1
    &&& r.body.colliders@[0].shape == CollisionShape::Rect(10_000, 10_000)
    &&& r.body.colliders@[0].collision_layer == LAYER_PLAYER
    &&& r.body.colliders@[0].collides_with == LAYER_WALL
    &&& r.body.colliders@[0].overlapping@.len() == 0
    &&& r.body.sensors@.len() == 1
    &&& r.body.sensors@[0].shape == CollisionShape::Rect(10_000, 10_000)
    &&& r.body.sensors@[0].collision_layer == LAYER_PLAYER
    &&& r.body.sensors@[0].collides_with == (LAYER_ENEMY | LAYER_BULLET_ENEMY | LAYER_ASTEROID)
    &&& r.body.sensors@[0].overlapping@.len() == 0
    &&& r.physics == Some(Physics { apply_auto: true, dx: 0, dy: 0, speed: 0, angle: 0, accel: 0, curve: 0 })
    &&& r.health == Some(
        Health {
            max: PLAYER_HP,
            hp: PLAYER_HP,
            iframe_count: 0,
            iframe_max: PLAYER_IFRAMES,
            iframe_col: Some(Color { r: 1000, g: 0, b: 0 }),
        },
    )
    &&& r.bullet is None
    &&& r.spinner is None
    &&& r.player is Some
    &&& r.asteroid is None
    &&& r.sprite == Some(
        Sprite {
            texture: Texture::Square,
            scale: sprite_scale(10_000) as i64,
            color: Color { r: 0, g: 1000, b: 0 },
            draw_layer: DRAW_LAYER_PLAYER,
        },
    )
}

/// Register a static wall centered at `(pos_x, pos_y)` with the given
/// half extents.
pub fn create_wall(world: &mut World, pos_x: i64, pos_y: i64, half_w: i64, half_h: i64)
    requires
        old(world).wf(),
        old(world).next_id() < usize::MAX,
        old(world).next_id() < u64::MAX,
        absi(pos_x as int) <= POS_LIMIT,
        absi(pos_y as int) <= POS_LIMIT,
        0 <= half_w <= RADIUS_LIMIT,
        0 <= half_h <= RADIUS_LIMIT,
    ensures
        final(world).wf(),
        final(world).slots@ == old(world).slots@,
        final(world).pending@.len() == old(world).pending@.len() + 1,
        forall|q: int|
            0 <= q < old(world).pending@.len() ==> final(world).pending@[q] == old(
                world,
            ).pending@[q],
        is_wall_record(
            final(world).pending@[final(world).pending@.len() - 1],
            pos_x as int,
            pos_y as int,
            half_w as int,
            half_h as int,
        ),
{
    let sprite = create_sprite(
        Texture::Square,
        half_w,
        Color::rgb(0, 0, 0),
        DRAW_LAYER_WALL,
    );
    let rec = EntityRecord {
        transform: Transform::new(pos_x, pos_y),
        body: CollisionBody::from_collider(
            Collider::half_extents(half_w, half_h, LAYER_WALL, 0),
        ),
        physics: Some(Physics::default()),
        health: None,
        bullet: None,
        spinner: None,
        sprite: Some(sprite),
        player: None,
        asteroid: None,
    };
    world.create_body(rec);
}

/// Build the starting world: the player at the origin inside four
/// walls, all visible immediately.
pub fn new_game() -> (out: (World, AsteroidGame))
    ensures
        out.0.wf(),
        out.1.wf(),
        out.1 == (AsteroidGame {
            asteroid_timer: 50,
            spinner_timer: 50,
            move_left: false,
            move_right: false,
            move_up: false,
            move_down: false,
            lmb_down: false,
            shoot_angle: 0,
        }),
        out.0.pending@.len() == 0,
        out.0.slots@.len() == 5,
        is_player_start(out.0.slots@[0]->Some_0),
        out.0.slots@[0] is Some,
        out.0.slots@[1] is Some && is_wall_record(
            out.0.slots@[1]->Some_0,
            -1_020_000,
            0,
            20_000,
            540_000,
        ),
        out.0.slots@[2] is Some && is_wall_record(
            out.0.slots@[2]->Some_0,
            1_020_000,
            0,
            20_000,
            540_000,
        ),
        out.0.slots@[3] is Some && is_wall_record(
            out.0.slots@[3]->Some_0,
            0,
            -520_000,
            1_040_000,
            20_000,
        ),
        out.0.slots@[4] is Some && is_wall_record(
            out.0.slots@[4]->Some_0,
            0,
            520_000,
            1_040_000,
            20_000,
        ),
{
    let mut world = World::new();
    let game = AsteroidGame::new(50, 50);
    let mut player_cols: Vec<Collider> = Vec::new();
    player_cols.push(Collider::half_extents(10_000, 10_000, LAYER_PLAYER, LAYER_WALL));
    let mut player_sens: Vec<Collider> = Vec::new();
    player_sens.push(
        Collider::half_extents(
            10_000,
            10_000,
            LAYER_PLAYER,
            LAYER_ENEMY | LAYER_BULLET_ENEMY | LAYER_ASTEROID,
        ),
    );
    let player = EntityRecord {
        transform: Transform::new(0, 0),
        body: CollisionBody::from_parts(player_cols, player_sens),
        physics: Some(Physics::default()),
        health: Some(
            Health::new(PLAYER_HP, PLAYER_IFRAMES, Some(Color::red())),
        ),
        bullet: None,
        spinner: None,
        sprite: Some(
            create_sprite(
                Texture::Square,
                10_000,
                Color::rgb(0, 1000, 0),
                DRAW_LAYER_PLAYER,
            ),
        ),
        player: Some(Player),
        asteroid: None,
    };
    world.create_body(player);
    create_wall(&mut world, -1_020_000, 0, 20_000, 540_000);
    create_wall(&mut world, 1_020_000, 0, 20_000, 540_000);
    create_wall(&mut world, 0, -520_000, 1_040_000, 20_000);
    create_wall(&mut world, 0, 520_000, 1_040_000, 20_000);
    world.sync();
    (world, game)
}

/// There is no live player left: the defeat condition.
pub open spec fn no_player(s: Seq<Option<EntityRecord>>) -> bool {
    forall|i: int|
        0 <= i < s.len() ==> match #[trigger] s[i] {
            Some(r) => r.player is None,
            None => true,
        }
}

/// The live player's position, for the camera and aim conversion of
/// the input and rendering layers.
#[verifier::loop_isolation(false)]
pub fn player_position(world: &World) -> (pos: Option<Transform>)
    ensures
        match pos {
            Some(t) => exists|i: int|
                0 <= i < world.slots@.len() && (#[trigger] world.slots@[i]) is Some
                    && world.slots@[i]->Some_0.player is Some && world.slots@[i]->Some_0.transform
                    == t,
            None => no_player(world.slots@),
        },
{
    let mut i: usize = 0;
    while i < world.slots.len()
        invariant
            i <= world.slots@.len(),
            forall|q: int|
                0 <= q < i ==> match #[trigger] world.slots@[q] {
                    Some(r) => r.player is None,
                    None => true,
                },
        decreases world.slots@.len() - i,
    {
        match &world.slots[i] {
            Some(r) => {
                if r.player.is_some() {
                    return Some(r.transform);
                }
            },
            None => {},
        }
        i = i + 1;
    }
    None
}

/// Whether the player entity is gone from the live store.
#[verifier::loop_isolation(false)]
pub fn player_is_dead(world: &World) -> (dead: bool)
    ensures
        dead == no_player(world.slots@),
{
    let mut i: usize = 0;
    while i < world.slots.len()
        invariant
            i <= world.slots@.len(),
            forall|q: int|
                0 <= q < i ==> match #[trigger] world.slots@[q] {
                    Some(r) => r.player is None,
                    None => true,
                },
        decreases world.slots@.len() - i,
    {
        match &world.slots[i] {
            Some(r) => {
                if r.player.is_some() {
                    return false;
                }
            },
            None => {},
        }
        i = i + 1;
    }
    true
}


/// What the input stage leaves behind: the player moved by the intents
/// with collision response, and one drawn bullet queued while the fire
/// intent is held.
pub open spec fn player_input_rel(w0: World, g: AsteroidGame, w1: World) -> bool {
    &&& w1.wf()
    &&& (first_tagged_player(w0.synced(), 0) is None ==> w1.slots@ == w0.synced()
        && w1.pending@.len() == 0)
    &&& (first_tagged_player(w0.synced(), 0) is Some ==> w1.slots@ == player_moved(
        w0.synced(),
        first_tagged_player(w0.synced(), 0)->Some_0,
        g,
    ))
    &&& (first_tagged_player(w0.synced(), 0) is Some && !g.lmb_down ==> w1.pending@.len() == 0)
    &&& (first_tagged_player(w0.synced(), 0) is Some && g.lmb_down ==> w1.pending@.len() <= 1)
    &&& (first_tagged_player(w0.synced(), 0) is Some && g.lmb_down && w0.synced().len()
        < ENTITY_CAP ==> w1.pending@.len() == 1)
    &&& (first_tagged_player(w0.synced(), 0) is Some && g.lmb_down ==> (forall|q: int|
        0 <= q < w1.pending@.len() ==> player_bullet_drawn(
            #[trigger] w1.pending@[q],
            w1.slots@[first_tagged_player(w0.synced(), 0)->Some_0]->Some_0.transform,
            g.shoot_angle as int,
        )))
}

/// What the invulnerability-counter stage does: every health record
/// ticks its window down by one, everything else is untouched.
pub open spec fn iframe_counter_rel(w0: World, w1: World) -> bool {
    &&& w1.wf()
    &&& w1.pending@ == w0.pending@
    &&& w1.slots@.len() == w0.slots@.len()
    &&& (forall|i: int|
        0 <= i < w0.slots@.len() ==> #[trigger] w1.slots@[i] == match w0.slots@[i] {
            Some(r) => Some(
                EntityRecord {
                    health: match r.health {
                        Some(h) => Some(ticked(h)),
                        None => None,
                    },
                    ..r
                },
            ),
            None => None,
        })
}

/// What the asteroid spawner does: the timer drains and one spawn per
/// released threshold is queued.
pub open spec fn spawn_asteroids_rel(w0: World, g0: AsteroidGame, w1: World, g1: AsteroidGame) -> bool {
    &&& w1.wf()
    &&& g1.wf()
    &&& g1 == (AsteroidGame {
        asteroid_timer: drain(g0.asteroid_timer + 1, ASTEROID_SPAWN_THRESHOLD as int) as i32,
        ..g0
    })
    &&& w1.slots@ == w0.synced()
    &&& (forall|q: int|
        0 <= q < w1.pending@.len() ==> asteroid_spawn_ok(#[trigger] w1.pending@[q]))
    &&& w1.pending@.len() <= drain_count(g0.asteroid_timer + 1, ASTEROID_SPAWN_THRESHOLD as int)
    &&& (w0.synced().len() + drain_count(g0.asteroid_timer + 1, ASTEROID_SPAWN_THRESHOLD as int)
        <= ENTITY_CAP ==> w1.pending@.len() == drain_count(
        g0.asteroid_timer + 1,
        ASTEROID_SPAWN_THRESHOLD as int,
    ))
}

/// What the spinner spawner does: with a live player the timer drains
/// and one aimed spinner per released threshold is queued; without one
/// at most a single threshold is consumed and nothing spawns.
pub open spec fn spawn_spinners_rel(w0: World, g0: AsteroidGame, w1: World, g1: AsteroidGame) -> bool {
    &&& w1.wf()
    &&& g1.wf()
    &&& w1.slots@ == w0.synced()
    &&& (first_tagged_player(w0.synced(), 0) is Some ==> g1 == (AsteroidGame {
        spinner_timer: drain(g0.spinner_timer + 1, SPINNER_SPAWN_THRESHOLD as int) as i32,
        ..g0
    }))
    &&& (first_tagged_player(w0.synced(), 0) is None ==> w1.pending@.len() == 0 && g1
        == (AsteroidGame {
        spinner_timer: if g0.spinner_timer + 1 > SPINNER_SPAWN_THRESHOLD {
            (g0.spinner_timer + 1 - SPINNER_SPAWN_THRESHOLD) as i32
        } else {
            (g0.spinner_timer + 1) as i32
        },
        ..g0
    }))
    &&& (forall|q: int|
        0 <= q < w1.pending@.len() ==> spinner_spawn_ok(
            w0.synced(),
            #[trigger] w1.pending@[q],
        ))
    &&& w1.pending@.len() <= drain_count(g0.spinner_timer + 1, SPINNER_SPAWN_THRESHOLD as int)
    &&& ((first_tagged_player(w0.synced(), 0) is Some && w0.synced().len() + drain_count(
        g0.spinner_timer + 1,
        SPINNER_SPAWN_THRESHOLD as int,
    ) <= ENTITY_CAP) ==> w1.pending@.len() == drain_count(
        g0.spinner_timer + 1,
        SPINNER_SPAWN_THRESHOLD as int,
    ))
}

/// What the spinner-fire stage does: ready spinners turn, rearm and
/// queue their four-bullet fans, the others cool down.
pub open spec fn shoot_spinners_rel(w0: World, w1: World) -> bool {
    &&& w1.wf()
    &&& w1.slots@.len() == w0.synced().len()
    &&& (forall|i: int|
        0 <= i < w0.synced().len() ==> #[trigger] w1.slots@[i] == match w0.synced()[i] {
            Some(r) => Some(spun(r)),
            None => None,
        })
    &&& (forall|q: int|
        0 <= q < w1.pending@.len() ==> spinner_bullet_ok(
            w0.synced(),
            #[trigger] w1.pending@[q],
        ))
    &&& w1.pending@.len() <= volley_total_upto(w0.synced(), w0.synced().len() as int)
    &&& (w0.synced().len() + volley_total_upto(w0.synced(), w0.synced().len() as int)
        <= ENTITY_CAP ==> w1.pending@.len() == volley_total_upto(
        w0.synced(),
        w0.synced().len() as int,
    ))
    &&& (w0.synced().len() + volley_total_upto(w0.synced(), w0.synced().len() as int)
        <= ENTITY_CAP ==> (forall|sp: int, j: int|
        0 <= sp < w0.synced().len() && spinner_ready(w0.synced()[sp]) && 0 <= j < 4
            ==> is_volley_bullet(
            w0.synced()[sp]->Some_0,
            j,
            #[trigger] w1.pending@[volley_total_upto(w0.synced(), sp) + j],
        )))
}

/// What free-movement integration does to every slot.
pub open spec fn apply_physics_rel(w0: World, w1: World) -> bool {
    &&& w1.wf()
    &&& w1.pending@ == Seq::<EntityRecord>::empty()
    &&& w1.slots@.len() == w0.synced().len()
    &&& (forall|i: int|
        0 <= i < w0.synced().len() ==> #[trigger] w1.slots@[i] == match w0.synced()[i] {
            Some(r) => Some(integrated(r)),
            None => None,
        })
}

/// What the colliding bullet step does to every player bullet.
pub open spec fn move_player_bullets_rel(w0: World, w1: World) -> bool {
    &&& w1.wf()
    &&& w1.pending@ == Seq::<EntityRecord>::empty()
    &&& w1.slots@.len() == w0.synced().len()
    &&& (forall|i: int|
        0 <= i < w0.synced().len() ==> #[trigger] w1.slots@[i] == match w0.synced()[i] {
            Some(r) => Some(
                if bullet_applies(r) {
                    bullet_outcome(geoms(w0.synced()), i, r)
                } else {
                    r
                },
            ),
            None => None,
        })
}

/// What the wrap stage does to every asteroid.
pub open spec fn wrap_asteroids_rel(w0: World, w1: World) -> bool {
    &&& w1.wf()
    &&& w1.pending@ == Seq::<EntityRecord>::empty()
    &&& w1.slots@.len() == w0.synced().len()
    &&& (forall|i: int|
        0 <= i < w0.synced().len() ==> #[trigger] w1.slots@[i] == match w0.synced()[i] {
            Some(r) => Some(
                if r.asteroid is Some && r.body.sensors@.len() > 0 {
                    wrapped(r)
                } else {
                    r
                },
            ),
            None => None,
        })
}

/// What the offscreen cleanup destroys.
pub open spec fn destroy_offscreen_rel(w0: World, w1: World) -> bool {
    &&& w1.wf()
    &&& w1.pending@ == Seq::<EntityRecord>::empty()
    &&& w1.slots@.len() == w0.synced().len()
    &&& (forall|i: int|
        0 <= i < w0.synced().len() ==> #[trigger] w1.slots@[i] == match w0.synced()[i] {
            Some(r) => if offscreen(r.transform) {
                None
            } else {
                Some(r)
            },
            None => None,
        })
}

/// What detection does: every overlap list replaced by this step's
/// per-side, mask-gated records; nothing else changes.
pub open spec fn collision_rel(w0: World, w1: World) -> bool {
    &&& w1.wf()
    &&& w1.pending@ == w0.pending@
    &&& w1.slots@.len() == w0.slots@.len()
    &&& (forall|i: int|
        0 <= i < w0.slots@.len() ==> ((#[trigger] w1.slots@[i]) is Some <==> w0.slots@[i]
            is Some))
    &&& (forall|i: int|
        w1.live(i) ==> lists_replaced(
            geoms(w0.slots@),
            i,
            w0.at(i),
            #[trigger] w1.at(i),
        ))
}

/// What the player-damage pass leaves behind.
pub open spec fn player_damage_rel(w0: World, w1: World) -> bool {
    &&& w1.wf()
    &&& w1.pending@ == Seq::<EntityRecord>::empty()
    &&& w1.slots@ == player_damage_post(w0.synced())
}

/// What the split pass does: asteroids shrink per hit, siblings are
/// queued, shattered asteroids and the bullets that hit are destroyed.
pub open spec fn asteroid_damage_rel(w0: World, w1: World) -> bool {
    &&& w1.wf()
    &&& w1.slots@.len() == w0.synced().len()
    &&& (forall|i: int|
        0 <= i < w0.synced().len() && w0.synced()[i] is None ==> w1.slots@[i] is None)
    &&& (forall|i: int|
        0 <= i < w0.synced().len() && w0.synced()[i] is Some ==> ((#[trigger] w1.slots@[i])
            is None <==> split_killed(w0.synced(), i)))
    &&& (forall|i: int|
        0 <= i < w0.synced().len() && w0.synced()[i] is Some && !split_killed(w0.synced(), i)
            && !asteroid_applies(w0.synced()[i]->Some_0) ==> #[trigger] w1.slots@[i]
            == w0.synced()[i])
    &&& (forall|i: int|
        0 <= i < w0.synced().len() && w0.synced()[i] is Some && !split_killed(w0.synced(), i)
            && asteroid_applies(w0.synced()[i]->Some_0) ==> (#[trigger] w1.slots@[i]) is Some
            && split_survivor(
            w0.synced()[i]->Some_0,
            w1.slots@[i]->Some_0,
            hits_of(w0.synced()[i]->Some_0),
        ))
    &&& (forall|q: int|
        0 <= q < w1.pending@.len() ==> sibling_ok(w0.synced(), #[trigger] w1.pending@[q]))
    &&& w1.pending@.len() <= sibling_total_upto(w0.synced(), w0.synced().len() as int)
    &&& (w0.synced().len() + sibling_total_upto(w0.synced(), w0.synced().len() as int)
        <= ENTITY_CAP ==> w1.pending@.len() == sibling_total_upto(
        w0.synced(),
        w0.synced().len() as int,
    ))
}

/// What the bullet cleanup destroys.
pub open spec fn destroy_bullets_rel(w0: World, w1: World) -> bool {
    &&& w1.wf()
    &&& w1.pending@ == w0.pending@
    &&& w1.slots@.len() == w0.slots@.len()
    &&& (forall|i: int|
        0 <= i < w0.slots@.len() ==> #[trigger] w1.slots@[i] == match w0.slots@[i] {
            Some(r) => if bullet_spent(r) {
                None
            } else {
                Some(r)
            },
            None => None,
        })
}

/// The whole tick as a chain of stages: `ws` are the twelve
/// intermediate stores between the thirteen systems, `gs` the game
/// resource after each spawner, in the fixed deterministic order of the
/// pipeline (input and firing, the invulnerability counter, spawning,
/// movement, wrap, offscreen cleanup, detection, then damage, splitting
/// and bullet cleanup, so that every lifecycle read sees overlap lists
/// computed this tick).
pub open spec fn tick_stages(
    w0: World,
    g0: AsteroidGame,
    ws: Seq<World>,
    gs: Seq<AsteroidGame>,
    w_end: World,
    g_end: AsteroidGame,
) -> bool {
    &&& ws.len() == 12
    &&& gs.len() == 2
    &&& player_input_rel(w0, g0, ws[0])
    &&& iframe_counter_rel(ws[0], ws[1])
    &&& spawn_asteroids_rel(ws[1], g0, ws[2], gs[0])
    &&& spawn_spinners_rel(ws[2], gs[0], ws[3], gs[1])
    &&& g_end == gs[1]
    &&& shoot_spinners_rel(ws[3], ws[4])
    &&& apply_physics_rel(ws[4], ws[5])
    &&& move_player_bullets_rel(ws[5], ws[6])
    &&& wrap_asteroids_rel(ws[6], ws[7])
    &&& destroy_offscreen_rel(ws[7], ws[8])
    &&& collision_rel(ws[8], ws[9])
    &&& player_damage_rel(ws[9], ws[10])
    &&& asteroid_damage_rel(ws[10], ws[11])
    &&& destroy_bullets_rel(ws[11], w_end)
}

/// One simulation tick, in the fixed deterministic order: input and
/// firing, the invulnerability counter, the spawners, free and
/// colliding movement, world wrap, offscreen cleanup, collision
/// detection, then damage, splitting and bullet cleanup. Returns
/// whether a player is still alive.
#[verifier::rlimit(100)]
#[verifier::spinoff_prover]
pub fn tick(world: &mut World, game: &mut AsteroidGame, rng: &mut rand::rngs::StdRng) -> (alive:
    bool)
    requires
        old(world).wf(),
        old(game).wf(),
    ensures
        final(world).wf(),
        final(game).wf(),
        alive == !no_player(final(world).slots@),
        exists|ws: Seq<World>, gs: Seq<AsteroidGame>|
            #[trigger] tick_stages(
                *old(world),
                *old(game),
                ws,
                gs,
                *final(world),
                *final(game),
            ),
{
    let ghost g0 = *game;
    crate::systems::player_input(world, game, rng);
    let ghost w1 = *world;
    crate::systems::iframe_counter(world);
    let ghost w2 = *world;
    crate::systems::spawn_asteroids(world, game, rng);
    let ghost w3 = *world;
    let ghost g1 = *game;
    crate::systems::spawn_spinners(world, game, rng);
    let ghost w4 = *world;
    let ghost g2 = *game;
    crate::systems::shoot_spinners(world, rng);
    let ghost w5 = *world;
    crate::systems::apply_physics(world);
    let ghost w6 = *world;
    crate::systems::move_player_bullets(world);
    let ghost w7 = *world;
    crate::systems::wrap_asteroids(world);
    let ghost w8 = *world;
    crate::systems::destroy_offscreen(world);
    let ghost w9 = *world;
    crate::detect::collision_system(world);
    let ghost w10 = *world;
    crate::systems::player_damage(world);
    let ghost w11 = *world;
    crate::systems::asteroid_damage(world, rng);
    let ghost w12 = *world;
    crate::systems::destroy_bullets(world);
    proof {
        let ws = seq![w1, w2, w3, w4, w5, w6, w7, w8, w9, w10, w11, w12];
        let gs = seq![g1, g2];
        assert(player_input_rel(*old(world), g0, w1));
        assert(iframe_counter_rel(w1, w2));
        assert(spawn_asteroids_rel(w2, g0, w3, g1));
        assert(spawn_spinners_rel(w3, g1, w4, g2));
        assert(shoot_spinners_rel(w4, w5));
        assert(apply_physics_rel(w5, w6));
        assert(move_player_bullets_rel(w6, w7));
        assert(wrap_asteroids_rel(w7, w8));
        assert(destroy_offscreen_rel(w8, w9));
        assert(collision_rel(w9, w10));
        assert(player_damage_rel(w10, w11));
        assert(asteroid_damage_rel(w11, w12));
        assert(destroy_bullets_rel(w12, *world));
        assert(tick_stages(*old(world), g0, ws, gs, *world, *game));
    }
    !player_is_dead(world)
}

} // verus!
