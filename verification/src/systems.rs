//! The per-tick gameplay systems: movement integration, world wrap,
//! offscreen cleanup, damage and splitting, bullet lifecycle and the
//! invulnerability counter. Each system reads the store, buffers any
//! structural change, and leaves every surviving record in an exactly
//! specified state.

use vstd::prelude::*;
use crate::components::{
    Asteroid, Bullet, Color, Health, Physics, Spinner, Sprite, Team, Texture, create_sprite,
    sprite_scale,
};
use crate::consts::{
    ASTEROID_RADIUS_MAX, ASTEROID_RADIUS_MIN, ASTEROID_SPAWN_THRESHOLD, ASTEROID_SPEED_MAX,
    ASTEROID_SPEED_MIN, BULLET_BOUNCE_LIMIT, DEG_FULL, DRAW_LAYER_ASTEROID, DRAW_LAYER_BULLET,
    DRAW_LAYER_ENEMY, ENEMY_BULLET_RADIUS, ENEMY_BULLET_SPEED, ENTITY_CAP, LAYER_ASTEROID,
    LAYER_BULLET_ENEMY, LAYER_BULLET_PLAYER, LAYER_ENEMY, LAYER_WALL, MIN_ASTEROID_RADIUS,
    OFFSCREEN_X, OFFSCREEN_Y, PLAYER_BULLET_RADIUS, PLAYER_BULLET_SPEED, PLAYER_SPEED,
    POS_LIMIT, RADIUS_LIMIT, SPAWN_AIM_JITTER, SPINNER_ACCEL, SPINNER_RADIUS,
    SPINNER_SHOT_COOLDOWN, SPINNER_SPAWN_THRESHOLD, SPLIT_SPREAD, VEL_LIMIT, WRAP_BOTTOM,
    WRAP_BOTTOM_HALF, WRAP_BUFFER, WRAP_LEFT, WRAP_LEFT_HALF, WRAP_RIGHT, WRAP_RIGHT_HALF,
    WRAP_TOP, WRAP_TOP_HALF,
};
use crate::detect::{
    Geom, geoms, blocking_contacts, scan_blocking, lemma_blocking_wf, lemma_gs_wf,
    lemma_world_slots_wf,
};
use crate::fixed::{
    absi, clamp, clamp128, isqrt64, lemma_mul_bound, lemma_tdiv_bound, mul_tdiv, sat, sat_add,
    sqrt_floor, tdiv, tdiv128,
};
use crate::game::AsteroidGame;
use crate::physics::{
    Collider, Collision, CollisionBody, CollisionShape, Transform, fresh_copies, record_wf,
};
use crate::rng::{gen_bool, gen_range_i64};
use crate::trig::{aim_from_raw, atan2_approx, cos_approx, cos_mdeg, norm_deg, sin_approx, sin_mdeg};
use crate::world::{EntityRecord, World};

verus! {

/// Positions beyond this rectangle are destroyed at the cleanup step.
pub open spec fn offscreen(t: Transform) -> bool {
    t.x < -OFFSCREEN_X || t.x > OFFSCREEN_X || t.y < -OFFSCREEN_Y || t.y > OFFSCREEN_Y
}

/// One tick of the invulnerability window: counts down to zero, once
/// per step, and stays there.
pub open spec fn ticked(h: Health) -> Health {
    if h.iframe_count > 0 {
        Health { iframe_count: (h.iframe_count - 1) as i32, ..h }
    } else {
        h
    }
}

/// Count every entity's invulnerability window down by one step.
#[verifier::loop_isolation(false)]
pub fn iframe_counter(world: &mut World)
    requires
        old(world).wf(),
    ensures
        final(world).wf(),
        final(world).pending@ == old(world).pending@,
        final(world).slots@.len() == old(world).slots@.len(),
        forall|i: int|
            0 <= i < old(world).slots@.len() ==> #[trigger] final(world).slots@[i] == match old(world).slots@[i] {
                Some(r) => Some(
                    EntityRecord {
                        health: match r.health {
                            Some(h) => Some(ticked(h)),
                            None => None,
                        },
                        ..r
                    },
                ),
                None => None,
            },
{
    let mut i: usize = 0;
    while i < world.slots.len()
        invariant
            world.wf(),
            world.pending@ == old(world).pending@,
            world.slots@.len() == old(world).slots@.len(),
            i <= world.slots@.len(),
            forall|q: int|
                0 <= q < i ==> #[trigger] world.slots@[q] == match old(world).slots@[q] {
                    Some(r) => Some(
                        EntityRecord {
                            health: match r.health {
                                Some(h) => Some(ticked(h)),
                                None => None,
                            },
                            ..r
                        },
                    ),
                    None => None,
                },
            forall|q: int|
                i <= q < world.slots@.len() ==> #[trigger] world.slots@[q] == old(world).slots@[q],
        decreases world.slots@.len() - i,
    {
        let ghost w_head = *world;
        let needs = match &world.slots[i] {
            Some(r) => match &r.health {
                Some(h) => h.iframe_count > 0,
                None => false,
            },
            None => false,
        };
        if needs {
            let slot = world.slots[i].take();
            match slot {
                Some(mut rec) => {
                    match rec.health {
                        Some(h) => {
                            rec.health = Some(
                                Health { iframe_count: h.iframe_count - 1, ..h },
                            );
                        },
                        None => {},
                    }
                    world.slots[i] = Some(rec);
                    proof {
                        assert(world.slots@ =~= w_head.slots@.update(i as int, Some(rec)));
                        assert forall|q: int| world.live(q) implies #[trigger] world.at(
                            q,
                        ).wf() by {
                            if q != i as int {
                                assert(w_head.live(q) && world.at(q) == w_head.at(q));
                            } else {
                                assert(w_head.at(q).wf());
                            }
                        };
                    }
                },
                None => {},
            }
        }
        i = i + 1;
    }
}

/// Destroy every entity whose position left the offscreen rectangle.
#[verifier::loop_isolation(false)]
pub fn destroy_offscreen(world: &mut World)
    requires
        old(world).wf(),
    ensures
        final(world).wf(),
        final(world).pending@ == Seq::<EntityRecord>::empty(),
        final(world).slots@.len() == old(world).synced().len(),
        forall|i: int|
            0 <= i < old(world).synced().len() ==> #[trigger] final(world).slots@[i] == match old(world).synced()[i] {
                Some(r) => if offscreen(r.transform) {
                    None
                } else {
                    Some(r)
                },
                None => None,
            },
{
    world.sync();
    let mut i: usize = 0;
    while i < world.slots.len()
        invariant
            world.wf(),
            world.pending@ == Seq::<EntityRecord>::empty(),
            world.slots@.len() == old(world).synced().len(),
            i <= world.slots@.len(),
            forall|q: int|
                0 <= q < i ==> #[trigger] world.slots@[q] == match old(world).synced()[q] {
                    Some(r) => if offscreen(r.transform) {
                        None
                    } else {
                        Some(r)
                    },
                    None => None,
                },
            forall|q: int|
                i <= q < world.slots@.len() ==> #[trigger] world.slots@[q] == old(world).synced()[q],
        decreases world.slots@.len() - i,
    {
        let ghost w_head = *world;
        let gone = match &world.slots[i] {
            Some(r) => r.transform.x < -OFFSCREEN_X || r.transform.x > OFFSCREEN_X
                || r.transform.y < -OFFSCREEN_Y || r.transform.y > OFFSCREEN_Y,
            None => false,
        };
        if gone {
            world.slots[i] = None;
            proof {
                assert(world.slots@ =~= w_head.slots@.update(i as int, None));
                assert forall|q: int| world.live(q) implies #[trigger] world.at(q).wf() by {
                    assert(w_head.live(q) && world.at(q) == w_head.at(q));
                };
            }
        }
        i = i + 1;
    }
}

/// Where the x axis wraps to: past the right margin (the wrap edge plus
/// the shape extent plus the buffer) the position teleports to the
/// mirrored coordinate nudged right by the buffer, and symmetrically on
/// the left.
pub open spec fn wrap_x(x: int, r: int) -> int {
    if x > WRAP_RIGHT + r + WRAP_BUFFER {
        -x + WRAP_BUFFER
    } else if x < WRAP_LEFT - r - WRAP_BUFFER {
        -x - WRAP_BUFFER
    } else {
        x
    }
}

/// The same teleport rule for the y axis.
pub open spec fn wrap_y(y: int, r: int) -> int {
    if y > WRAP_BOTTOM + r + WRAP_BUFFER {
        -y + WRAP_BUFFER
    } else if y < WRAP_TOP - r - WRAP_BUFFER {
        -y - WRAP_BUFFER
    } else {
        y
    }
}

/// Wrap idempotence on the x axis: a position that crossed the
/// boundary by no more than one buffer teleports to a point strictly
/// inside the wrap margins, so checking the bounds again in the same
/// tick cannot trigger a second teleport.
pub proof fn lemma_wrap_x_lands_inside(x: int, r: int)
    requires
        0 <= r,
        x <= WRAP_RIGHT + r + 2 * WRAP_BUFFER,
        x >= WRAP_LEFT - r - 2 * WRAP_BUFFER,
    ensures
        wrap_x(wrap_x(x, r), r) == wrap_x(x, r),
{
}

/// Wrap idempotence on the y axis, under the matching overshoot bound.
pub proof fn lemma_wrap_y_lands_inside(y: int, r: int)
    requires
        0 <= r,
        y <= WRAP_BOTTOM + r + 2 * WRAP_BUFFER,
        y >= WRAP_TOP - r - 2 * WRAP_BUFFER,
    ensures
        wrap_y(wrap_y(y, r), r) == wrap_y(y, r),
{
}

/// Teleport a body across the wrap boundary where it crossed one, using
/// direct coordinate assignment so that no collision response fires.
/// The margin is the first sensor's half width plus the buffer.
pub fn wrap_body(world: &mut World, id: u64)
    requires
        old(world).wf(),
        old(world).live(id as int),
        old(world).at(id as int).body.sensors@.len() > 0,
    ensures
        final(world).wf(),
        final(world).pending@ == old(world).pending@,
        final(world).slots@ == old(world).slots@.update(
            id as int,
            Some(
                EntityRecord {
                    transform: Transform {
                        x: wrap_x(
                            old(world).at(id as int).transform.x as int,
                            old(world).at(id as int).body.sensors@[0].shape.spec_half_width(),
                        ) as i64,
                        y: wrap_y(
                            old(world).at(id as int).transform.y as int,
                            old(world).at(id as int).body.sensors@[0].shape.spec_half_width(),
                        ) as i64,
                    },
                    ..old(world).at(id as int)
                },
            ),
        ),
{
    let t = world.transform(id);
    let r = {
        let body = world.collider(id);
        body.sensors[0].shape.half_width()
    };
    proof {
        assert(old(world).at(id as int).wf());
        assert(old(world).at(id as int).body.sensors@[0].wf());
    }
    // wrap x
    if t.x > WRAP_RIGHT + r + WRAP_BUFFER {
        world.move_body_to_x(id, -t.x + WRAP_BUFFER);
    } else if t.x < WRAP_LEFT - r - WRAP_BUFFER {
        world.move_body_to_x(id, -t.x - WRAP_BUFFER);
    }
    let t = world.transform(id);
    // wrap y
    if t.y > WRAP_BOTTOM + r + WRAP_BUFFER {
        world.move_body_to_y(id, -t.y + WRAP_BUFFER);
    } else if t.y < WRAP_TOP - r - WRAP_BUFFER {
        world.move_body_to_y(id, -t.y - WRAP_BUFFER);
    }
    proof {
        assert(final(world).slots@ =~= old(world).slots@.update(
            id as int,
            Some(
                EntityRecord {
                    transform: Transform {
                        x: wrap_x(
                            old(world).at(id as int).transform.x as int,
                            old(world).at(id as int).body.sensors@[0].shape.spec_half_width(),
                        ) as i64,
                        y: wrap_y(
                            old(world).at(id as int).transform.y as int,
                            old(world).at(id as int).body.sensors@[0].shape.spec_half_width(),
                        ) as i64,
                    },
                    ..old(world).at(id as int)
                },
            ),
        ));
    }
}

/// A record with its transform put through the wrap rule, using the
/// first sensor's half width as the margin.
pub open spec fn wrapped(r: EntityRecord) -> EntityRecord {
    let hw = r.body.sensors@[0].shape.spec_half_width();
    EntityRecord {
        transform: Transform {
            x: wrap_x(r.transform.x as int, hw) as i64,
            y: wrap_y(r.transform.y as int, hw) as i64,
        },
        ..r
    }
}

/// Wrap every asteroid that crossed the world boundary.
#[verifier::loop_isolation(false)]
pub fn wrap_asteroids(world: &mut World)
    requires
        old(world).wf(),
    ensures
        final(world).wf(),
        final(world).pending@ == Seq::<EntityRecord>::empty(),
        final(world).slots@.len() == old(world).synced().len(),
        forall|i: int|
            0 <= i < old(world).synced().len() ==> #[trigger] final(world).slots@[i] == match old(world).synced()[i] {
                Some(r) => Some(
                    if r.asteroid is Some && r.body.sensors@.len() > 0 {
                        wrapped(r)
                    } else {
                        r
                    },
                ),
                None => None,
            },
{
    world.sync();
    let mut i: usize = 0;
    while i < world.slots.len()
        invariant
            world.wf(),
            world.pending@ == Seq::<EntityRecord>::empty(),
            world.slots@.len() == old(world).synced().len(),
            i <= world.slots@.len(),
            forall|q: int|
                0 <= q < i ==> #[trigger] world.slots@[q] == match old(world).synced()[q] {
                    Some(r) => Some(
                        if r.asteroid is Some && r.body.sensors@.len() > 0 {
                            wrapped(r)
                        } else {
                            r
                        },
                    ),
                    None => None,
                },
            forall|q: int|
                i <= q < world.slots@.len() ==> #[trigger] world.slots@[q] == old(world).synced()[q],
        decreases world.slots@.len() - i,
    {
        let ghost w_head = *world;
        let eligible = match &world.slots[i] {
            Some(r) => r.asteroid.is_some() && r.body.sensors.len() > 0,
            None => false,
        };
        if eligible {
            wrap_body(world, i as u64);
            proof {
                assert(world.slots@ =~= w_head.slots@.update(
                    i as int,
                    Some(wrapped(w_head.at(i as int))),
                ));
            }
        }
        i = i + 1;
    }
}

/// Wrap the player when it crossed the world boundary.
#[verifier::loop_isolation(false)]
pub fn wrap_player(world: &mut World)
    requires
        old(world).wf(),
    ensures
        final(world).wf(),
        final(world).pending@ == Seq::<EntityRecord>::empty(),
        final(world).slots@.len() == old(world).synced().len(),
        forall|i: int|
            0 <= i < old(world).synced().len() ==> #[trigger] final(world).slots@[i] == match old(world).synced()[i] {
                Some(r) => Some(
                    if r.player is Some && r.body.sensors@.len() > 0 {
                        wrapped(r)
                    } else {
                        r
                    },
                ),
                None => None,
            },
{
    world.sync();
    let mut i: usize = 0;
    while i < world.slots.len()
        invariant
            world.wf(),
            world.pending@ == Seq::<EntityRecord>::empty(),
            world.slots@.len() == old(world).synced().len(),
            i <= world.slots@.len(),
            forall|q: int|
                0 <= q < i ==> #[trigger] world.slots@[q] == match old(world).synced()[q] {
                    Some(r) => Some(
                        if r.player is Some && r.body.sensors@.len() > 0 {
                            wrapped(r)
                        } else {
                            r
                        },
                    ),
                    None => None,
                },
            forall|q: int|
                i <= q < world.slots@.len() ==> #[trigger] world.slots@[q] == old(world).synced()[q],
        decreases world.slots@.len() - i,
    {
        let ghost w_head = *world;
        let eligible = match &world.slots[i] {
            Some(r) => r.player.is_some() && r.body.sensors.len() > 0,
            None => false,
        };
        if eligible {
            wrap_body(world, i as u64);
            proof {
                assert(world.slots@ =~= w_head.slots@.update(
                    i as int,
                    Some(wrapped(w_head.at(i as int))),
                ));
            }
        }
        i = i + 1;
    }
}

/// The speed after one integration step: the acceleration is added
/// exactly, saturating only at the machine velocity limit.
pub open spec fn next_speed(p: Physics) -> int {
    sat(p.speed + p.accel, VEL_LIMIT as int)
}

/// The heading after one integration step, normalized into a full turn.
pub open spec fn next_angle(p: Physics) -> int {
    (p.angle + p.curve) % (DEG_FULL as int)
}

/// The x displacement of one step: the constant part plus the heading
/// direction `(sin a, -cos a)` scaled by the stepped speed.
pub open spec fn step_dx(p: Physics) -> int {
    p.dx + tdiv(sin_approx(next_angle(p)) * next_speed(p), 1000)
}

/// The y displacement of one step.
pub open spec fn step_dy(p: Physics) -> int {
    p.dy - tdiv(cos_approx(next_angle(p)) * next_speed(p), 1000)
}

/// The kinematic state after one step.
pub open spec fn stepped(p: Physics) -> Physics {
    Physics { speed: next_speed(p) as i64, angle: next_angle(p) as i64, ..p }
}

/// One integration step: the stepped state and the displacement.
pub fn integrate_physics(p: Physics) -> (r: (Physics, i64, i64))
    requires
        p.wf(),
    ensures
        r.0 == stepped(p),
        r.0.wf(),
        r.1 == step_dx(p),
        r.2 == step_dy(p),
        absi(r.1 as int) <= 2 * VEL_LIMIT,
        absi(r.2 as int) <= 2 * VEL_LIMIT,
{
    let speed = sat_add(p.speed, p.accel, VEL_LIMIT);
    let angle = norm_deg(p.angle + p.curve);
    let s = sin_mdeg(angle);
    let c = cos_mdeg(angle);
    proof {
        assert(sin_approx(next_angle(p)) == sin_approx(angle as int)) by {
            vstd::arithmetic::div_mod::lemma_mod_twice(p.angle + p.curve, DEG_FULL as int);
        }
        assert(cos_approx(next_angle(p)) == cos_approx(angle as int)) by {
            vstd::arithmetic::div_mod::lemma_mod_twice(p.angle + p.curve, DEG_FULL as int);
            vstd::arithmetic::div_mod::lemma_mod_multiples_vanish(
                (p.angle + p.curve) / (DEG_FULL as int),
                angle + 90_000,
                DEG_FULL as int,
            );
            vstd::arithmetic::div_mod::lemma_fundamental_div_mod(
                p.angle + p.curve,
                DEG_FULL as int,
            );
        }
        lemma_mul_bound(s as int, speed as int, 1000, VEL_LIMIT as int);
        lemma_tdiv_bound(s as int * speed as int, 1000, VEL_LIMIT as int);
        lemma_mul_bound(c as int, speed as int, 1000, VEL_LIMIT as int);
        lemma_tdiv_bound(c as int * speed as int, 1000, VEL_LIMIT as int);
    }
    let mx = mul_tdiv(s, speed, 1000);
    let my = mul_tdiv(c, speed, 1000);
    let p2 = Physics { speed, angle, ..p };
    (p2, p.dx + mx, p.dy - my)
}

/// The record after the free-movement step: entities with automatic
/// integration step their kinematics and add the displacement to the
/// position, exactly; a zero displacement (or one that would leave the
/// machine position range) moves nothing.
pub open spec fn integrated(r: EntityRecord) -> EntityRecord {
    match r.physics {
        Some(p) => if p.apply_auto {
            let ddx = step_dx(p);
            let ddy = step_dy(p);
            let moved = !(ddx == 0 && ddy == 0) && absi(r.transform.x + ddx) <= POS_LIMIT && absi(
                r.transform.y + ddy,
            ) <= POS_LIMIT;
            EntityRecord {
                physics: Some(stepped(p)),
                transform: if moved {
                    Transform { x: (r.transform.x + ddx) as i64, y: (r.transform.y + ddy) as i64 }
                } else {
                    r.transform
                },
                ..r
            }
        } else {
            r
        },
        None => r,
    }
}

/// Free-movement integration for every automatically integrated entity.
#[verifier::loop_isolation(false)]
pub fn apply_physics(world: &mut World)
    requires
        old(world).wf(),
    ensures
        final(world).wf(),
        final(world).pending@ == Seq::<EntityRecord>::empty(),
        final(world).slots@.len() == old(world).synced().len(),
        forall|i: int|
            0 <= i < old(world).synced().len() ==> #[trigger] final(world).slots@[i] == match old(world).synced()[i] {
                Some(r) => Some(integrated(r)),
                None => None,
            },
{
    world.sync();
    let mut i: usize = 0;
    while i < world.slots.len()
        invariant
            world.wf(),
            world.pending@ == Seq::<EntityRecord>::empty(),
            world.slots@.len() == old(world).synced().len(),
            i <= world.slots@.len(),
            forall|q: int|
                0 <= q < i ==> #[trigger] world.slots@[q] == match old(world).synced()[q] {
                    Some(r) => Some(integrated(r)),
                    None => None,
                },
            forall|q: int|
                i <= q < world.slots@.len() ==> #[trigger] world.slots@[q] == old(world).synced()[q],
        decreases world.slots@.len() - i,
    {
        let ghost w_head = *world;
        let applies = match &world.slots[i] {
            Some(r) => match &r.physics {
                Some(p) => p.apply_auto,
                None => false,
            },
            None => false,
        };
        if applies {
            let slot = world.slots[i].take();
            match slot {
                Some(mut rec) => {
                    proof {
                        assert(w_head.at(i as int).wf());
                    }
                    match rec.physics {
                        Some(p) => {
                            let (p2, ddx, ddy) = integrate_physics(p);
                            rec.physics = Some(p2);
                            if !(ddx == 0 && ddy == 0) {
                                let nx = rec.transform.x + ddx;
                                let ny = rec.transform.y + ddy;
                                if -POS_LIMIT <= nx && nx <= POS_LIMIT && -POS_LIMIT <= ny && ny
                                    <= POS_LIMIT {
                                    rec.transform = Transform { x: nx, y: ny };
                                }
                            }
                        },
                        None => {},
                    }
                    world.slots[i] = Some(rec);
                    proof {
                        assert(rec == integrated(w_head.at(i as int)));
                        assert(world.slots@ =~= w_head.slots@.update(i as int, Some(rec)));
                        assert forall|q: int| world.live(q) implies #[trigger] world.at(
                            q,
                        ).wf() by {
                            if q != i as int {
                                assert(w_head.live(q) && world.at(q) == w_head.at(q));
                            }
                        };
                    }
                },
                None => {},
            }
        } else {
            proof {
                assert(world.slots@[i as int] == match old(world).synced()[i as int] {
                    Some(r) => Some(integrated(r)),
                    None => None,
                });
            }
        }
        i = i + 1;
    }
}

/// The reflection of `(vx, vy)` across the plane with (non-unit) normal
/// `(nx, ny)`: `v - 2 (v . n) n / (n . n)`, with truncating division.
pub open spec fn reflect_x(vx: int, vy: int, nx: int, ny: int) -> int {
    vx - tdiv(2 * (vx * nx + vy * ny) * nx, nx * nx + ny * ny)
}

/// The y component of the reflection.
pub open spec fn reflect_y(vx: int, vy: int, nx: int, ny: int) -> int {
    vy - tdiv(2 * (vx * nx + vy * ny) * ny, nx * nx + ny * ny)
}

proof fn lemma_reflect_num_bound(vx: int, vy: int, nx: int, ny: int)
    by (nonlinear_arith)
    requires
        !(nx == 0 && ny == 0),
    ensures
        nx * nx + ny * ny >= 1,
        absi(2 * (vx * nx + vy * ny) * nx) <= 2 * (absi(vx) + absi(vy)) * (nx * nx + ny * ny),
        absi(2 * (vx * nx + vy * ny) * ny) <= 2 * (absi(vx) + absi(vy)) * (nx * nx + ny * ny),
{
}

/// Compute the reflection exactly.
pub fn reflect(vx: i64, vy: i64, nx: i64, ny: i64) -> (r: (i64, i64))
    requires
        absi(vx as int) <= 2 * VEL_LIMIT,
        absi(vy as int) <= 2 * VEL_LIMIT,
        absi(nx as int) <= 2 * RADIUS_LIMIT,
        absi(ny as int) <= 2 * RADIUS_LIMIT,
        !(nx == 0 && ny == 0),
    ensures
        r.0 == reflect_x(vx as int, vy as int, nx as int, ny as int),
        r.1 == reflect_y(vx as int, vy as int, nx as int, ny as int),
        absi(r.0 as int) <= 10 * VEL_LIMIT,
        absi(r.1 as int) <= 10 * VEL_LIMIT,
{
    proof {
        let c = 2 * (absi(vx as int) + absi(vy as int));
        let d2 = (nx as int) * (nx as int) + (ny as int) * (ny as int);
        lemma_reflect_num_bound(vx as int, vy as int, nx as int, ny as int);
        lemma_mul_bound(nx as int, nx as int, 2_000_000_000, 2_000_000_000);
        lemma_mul_bound(ny as int, ny as int, 2_000_000_000, 2_000_000_000);
        assert(d2 <= 8_000_000_000_000_000_000);
        assert(0 <= c <= 8_000_000_000_000);
        vstd::arithmetic::mul::lemma_mul_upper_bound(
            c,
            8_000_000_000_000,
            d2,
            8_000_000_000_000_000_000,
        );
        lemma_mul_bound(vx as int, nx as int, 2_000_000_000_000, 2_000_000_000);
        lemma_mul_bound(vy as int, ny as int, 2_000_000_000_000, 2_000_000_000);
        lemma_tdiv_bound(
            2 * (vx as int * nx as int + vy as int * ny as int) * (nx as int),
            d2,
            c,
        );
        lemma_tdiv_bound(
            2 * (vx as int * nx as int + vy as int * ny as int) * (ny as int),
            d2,
            c,
        );
    }
    let d2: i128 = (nx as i128) * (nx as i128) + (ny as i128) * (ny as i128);
    let dot2: i128 = 2 * ((vx as i128) * (nx as i128) + (vy as i128) * (ny as i128));
    let tx = tdiv128(dot2 * (nx as i128), d2);
    let ty = tdiv128(dot2 * (ny as i128), d2);
    ((vx as i128 - tx) as i64, (vy as i128 - ty) as i64)
}

/// A player bullet that moves through the colliding step.
pub open spec fn bullet_applies(r: EntityRecord) -> bool {
    r.physics is Some && r.bullet is Some && !r.physics->Some_0.apply_auto
        && r.bullet->Some_0.team == Team::Player
}

/// The state of a player bullet after its movement step against the
/// geometry `gs`: step the kinematics; with no blocking contact the
/// displacement is committed; against a blocker the position stays, the
/// last contact's normal reflects the displacement into the velocity
/// (clamped only at the machine limit), the heading state is cleared
/// and the bounce count grows by one. A degenerate (zero) normal
/// discards the bounce.
pub open spec fn bullet_outcome(gs: Seq<Option<Geom>>, i: int, r: EntityRecord) -> EntityRecord {
    let p = r.physics->Some_0;
    let b = r.bullet->Some_0;
    let p2 = stepped(p);
    let ddx = step_dx(p);
    let ddy = step_dy(p);
    if ddx == 0 && ddy == 0 {
        EntityRecord { physics: Some(p2), ..r }
    } else if !(absi(r.transform.x + ddx) <= POS_LIMIT && absi(r.transform.y + ddy)
        <= POS_LIMIT) {
        EntityRecord { physics: Some(p2), ..r }
    } else {
        let target = Transform { x: (r.transform.x + ddx) as i64, y: (r.transform.y + ddy) as i64 };
        let contacts = blocking_contacts(gs, i, target);
        if contacts.len() == 0 {
            EntityRecord { physics: Some(p2), transform: target, ..r }
        } else {
            let c = contacts.last();
            if c.normal_x == 0 && c.normal_y == 0 {
                EntityRecord { physics: Some(p2), ..r }
            } else {
                let rx = reflect_x(ddx, ddy, c.normal_x as int, c.normal_y as int);
                let ry = reflect_y(ddx, ddy, c.normal_x as int, c.normal_y as int);
                EntityRecord {
                    physics: Some(
                        Physics {
                            apply_auto: p.apply_auto,
                            dx: clamp(rx, VEL_LIMIT as int) as i64,
                            dy: clamp(ry, VEL_LIMIT as int) as i64,
                            speed: 0,
                            angle: 0,
                            accel: 0,
                            curve: 0,
                        },
                    ),
                    bullet: Some(
                        Bullet {
                            bounces: if b.bounces < u32::MAX {
                                (b.bounces + 1) as u32
                            } else {
                                b.bounces
                            },
                            ..b
                        },
                    ),
                    ..r
                }
            }
        }
    }
}

/// Move every player bullet with collision response: all movement
/// decisions are taken against the geometry at the start of the pass,
/// then applied.
#[verifier::rlimit(60)]
#[verifier::loop_isolation(false)]
pub fn move_player_bullets(world: &mut World)
    requires
        old(world).wf(),
    ensures
        final(world).wf(),
        final(world).pending@ == Seq::<EntityRecord>::empty(),
        final(world).slots@.len() == old(world).synced().len(),
        forall|i: int|
            0 <= i < old(world).synced().len() ==> #[trigger] final(world).slots@[i] == match old(world).synced()[i] {
                Some(r) => Some(
                    if bullet_applies(r) {
                        bullet_outcome(geoms(old(world).synced()), i, r)
                    } else {
                        r
                    },
                ),
                None => None,
            },
{
    world.sync();
    let ghost gs1 = geoms(world.slots@);
    let n = world.slots.len();
    // decision pass: read-only
    let mut plans: Vec<Option<(Physics, Bullet, Transform)>> = Vec::new();
    let mut i: usize = 0;
    while i < n
        invariant
            world.wf(),
            world.slots@ == old(world).synced(),
            world.pending@ == Seq::<EntityRecord>::empty(),
            n == world.slots@.len(),
            i <= n,
            plans@.len() == i,
            forall|q: int|
                0 <= q < i ==> match #[trigger] plans@[q] {
                    Some(pl) => pl.0.wf() && absi(pl.2.x as int) <= POS_LIMIT && absi(
                        pl.2.y as int,
                    ) <= POS_LIMIT,
                    None => true,
                },
            forall|q: int|
                0 <= q < i ==> #[trigger] plans@[q] == match old(world).synced()[q] {
                    Some(r) => if bullet_applies(r) {
                        Some(
                            (
                                bullet_outcome(gs1, q, r).physics->Some_0,
                                bullet_outcome(gs1, q, r).bullet->Some_0,
                                bullet_outcome(gs1, q, r).transform,
                            ),
                        )
                    } else {
                        None
                    },
                    None => None,
                },
        decreases n - i,
    {
        let applies = match &world.slots[i] {
            Some(r) => match (&r.physics, &r.bullet) {
                (Some(p), Some(b)) => !p.apply_auto && matches!(b.team, Team::Player),
                _ => false,
            },
            None => false,
        };
        if !applies {
            plans.push(None);
        } else {
            let (t0, p, b) = match &world.slots[i] {
                Some(r) => (
                    r.transform,
                    match &r.physics {
                        Some(p) => *p,
                        None => Physics::default(),
                    },
                    match &r.bullet {
                        Some(b) => *b,
                        None => Bullet::new(Team::Player),
                    },
                ),
                None => (
                    Transform { x: 0, y: 0 },
                    Physics::default(),
                    Bullet::new(Team::Player),
                ),
            };
            let ghost r0 = world.slots@[i as int]->Some_0;
            proof {
                assert(world.live(i as int) && world.at(i as int).wf());
            }
            let (p2, ddx, ddy) = integrate_physics(p);
            if ddx == 0 && ddy == 0 {
                plans.push(Some((p2, b, t0)));
                proof {
                    assert(bullet_outcome(gs1, i as int, r0) == EntityRecord {
                        physics: Some(p2),
                        ..r0
                    });
                }
            } else {
                let nxp = t0.x + ddx;
                let nyp = t0.y + ddy;
                if !(-POS_LIMIT <= nxp && nxp <= POS_LIMIT && -POS_LIMIT <= nyp && nyp
                    <= POS_LIMIT) {
                    plans.push(Some((p2, b, t0)));
                } else {
                    let target = Transform { x: nxp, y: nyp };
                    proof {
                        lemma_world_slots_wf(*world);
                        lemma_gs_wf(world.slots@);
                        lemma_blocking_wf(gs1, i as int, target, gs1.len());
                    }
                    let contacts = scan_blocking(&world.slots, i, nxp, nyp);
                    if contacts.len() == 0 {
                        plans.push(Some((p2, b, target)));
                    } else {
                        let c = contacts[contacts.len() - 1];
                        proof {
                            assert(c == blocking_contacts(gs1, i as int, target).last());
                            assert(record_wf(c));
                        }
                        if c.normal_x == 0 && c.normal_y == 0 {
                            plans.push(Some((p2, b, t0)));
                        } else {
                            let refl = reflect(ddx, ddy, c.normal_x, c.normal_y);
                            let ndx = if refl.0 > VEL_LIMIT {
                                VEL_LIMIT
                            } else if refl.0 < -VEL_LIMIT {
                                -VEL_LIMIT
                            } else {
                                refl.0
                            };
                            let ndy = if refl.1 > VEL_LIMIT {
                                VEL_LIMIT
                            } else if refl.1 < -VEL_LIMIT {
                                -VEL_LIMIT
                            } else {
                                refl.1
                            };
                            let nb = Bullet {
                                bounces: if b.bounces < u32::MAX {
                                    b.bounces + 1
                                } else {
                                    b.bounces
                                },
                                ..b
                            };
                            let np = Physics {
                                apply_auto: p.apply_auto,
                                dx: ndx,
                                dy: ndy,
                                speed: 0,
                                angle: 0,
                                accel: 0,
                                curve: 0,
                            };
                            plans.push(Some((np, nb, t0)));
                        }
                    }
                }
            }
        }
        i = i + 1;
    }
    // apply pass
    let mut i: usize = 0;
    while i < n
        invariant
            world.wf(),
            world.pending@ == Seq::<EntityRecord>::empty(),
            world.slots@.len() == old(world).synced().len(),
            n == world.slots@.len(),
            i <= n,
            plans@.len() == n,
            forall|q: int|
                0 <= q < n ==> match #[trigger] plans@[q] {
                    Some(pl) => pl.0.wf() && absi(pl.2.x as int) <= POS_LIMIT && absi(
                        pl.2.y as int,
                    ) <= POS_LIMIT,
                    None => true,
                },
            forall|q: int|
                0 <= q < n ==> #[trigger] plans@[q] == match old(world).synced()[q] {
                    Some(r) => if bullet_applies(r) {
                        Some(
                            (
                                bullet_outcome(gs1, q, r).physics->Some_0,
                                bullet_outcome(gs1, q, r).bullet->Some_0,
                                bullet_outcome(gs1, q, r).transform,
                            ),
                        )
                    } else {
                        None
                    },
                    None => None,
                },
            forall|q: int|
                0 <= q < i ==> #[trigger] world.slots@[q] == match old(world).synced()[q] {
                    Some(r) => Some(
                        if bullet_applies(r) {
                            bullet_outcome(gs1, q, r)
                        } else {
                            r
                        },
                    ),
                    None => None,
                },
            forall|q: int|
                i <= q < n ==> #[trigger] world.slots@[q] == old(world).synced()[q],
        decreases n - i,
    {
        let ghost w_head = *world;
        let has_plan = plans[i].is_some();
        if has_plan {
            let slot = world.slots[i].take();
            match slot {
                Some(mut rec) => {
                    match &plans[i] {
                        Some(plan) => {
                            rec.physics = Some(plan.0);
                            rec.bullet = Some(plan.1);
                            rec.transform = plan.2;
                        },
                        None => {},
                    }
                    world.slots[i] = Some(rec);
                    proof {
                        let r0 = old(world).synced()[i as int]->Some_0;
                        assert(rec == bullet_outcome(gs1, i as int, r0));
                        assert(world.slots@ =~= w_head.slots@.update(i as int, Some(rec)));
                        assert(rec.wf()) by {
                            assert(w_head.live(i as int));
                            assert(w_head.at(i as int).wf());
                        }
                        assert forall|q: int| world.live(q) implies #[trigger] world.at(
                            q,
                        ).wf() by {
                            if q != i as int {
                                assert(w_head.live(q) && world.at(q) == w_head.at(q));
                            }
                        };
                    }
                },
                None => {},
            }
        }
        i = i + 1;
    }
}

/// A bullet is spent when its sensor saw any overlap this step or its
/// bounce count has gone past its allowance.
pub open spec fn bullet_spent(r: EntityRecord) -> bool {
    r.bullet is Some && ((r.body.sensors@.len() > 0 && r.body.sensors@[0].overlapping@.len() > 0)
        || r.bullet->Some_0.bounces > r.bullet->Some_0.bounce_limit)
}

/// Destroy every spent bullet: one that hit something its sensor reacts
/// to, or whose bounce allowance is used up (a bullet with a bounce
/// limit of `k` survives its first `k` contacts and is destroyed on the
/// next contact-worthy step).
#[verifier::loop_isolation(false)]
pub fn destroy_bullets(world: &mut World)
    requires
        old(world).wf(),
    ensures
        final(world).wf(),
        final(world).pending@ == old(world).pending@,
        final(world).slots@.len() == old(world).slots@.len(),
        forall|i: int|
            0 <= i < old(world).slots@.len() ==> #[trigger] final(world).slots@[i] == match old(world).slots@[i] {
                Some(r) => if bullet_spent(r) {
                    None
                } else {
                    Some(r)
                },
                None => None,
            },
{
    let mut i: usize = 0;
    while i < world.slots.len()
        invariant
            world.wf(),
            world.pending@ == old(world).pending@,
            world.slots@.len() == old(world).slots@.len(),
            i <= world.slots@.len(),
            forall|q: int|
                0 <= q < i ==> #[trigger] world.slots@[q] == match old(world).slots@[q] {
                    Some(r) => if bullet_spent(r) {
                        None
                    } else {
                        Some(r)
                    },
                    None => None,
                },
            forall|q: int|
                i <= q < world.slots@.len() ==> #[trigger] world.slots@[q] == old(world).slots@[q],
        decreases world.slots@.len() - i,
    {
        let ghost w_head = *world;
        let spent = match &world.slots[i] {
            Some(r) => match &r.bullet {
                Some(b) => (r.body.sensors.len() > 0 && r.body.sensors[0].overlapping.len() > 0)
                    || b.bounces > b.bounce_limit,
                None => false,
            },
            None => false,
        };
        if spent {
            world.slots[i] = None;
            proof {
                assert(world.slots@ =~= w_head.slots@.update(i as int, None));
                assert forall|q: int| world.live(q) implies #[trigger] world.at(q).wf() by {
                    assert(w_head.live(q) && world.at(q) == w_head.at(q));
                };
            }
        }
        i = i + 1;
    }
}

/// A record whose other side damages the player.
pub open spec fn damages_player(c: Collision) -> bool {
    c.collision_layer2 & (LAYER_ASTEROID | LAYER_ENEMY | LAYER_BULLET_ENEMY) > 0
}

/// The first damaging record at or past index `q`, in list order.
pub open spec fn first_damager_from(list: Seq<Collision>, q: int) -> Option<Collision>
    decreases list.len() - q
        when 0 <= q <= list.len()
{
    if q < 0 || q >= list.len() {
        None
    } else if damages_player(list[q]) {
        Some(list[q])
    } else {
        first_damager_from(list, q + 1)
    }
}

/// The first live entity carrying the player tag, health and a sprite,
/// at or past index `q`.
pub open spec fn find_player_from(s: Seq<Option<EntityRecord>>, q: int) -> Option<int>
    decreases s.len() - q
        when 0 <= q <= s.len()
{
    if q < 0 || q >= s.len() {
        None
    } else {
        match s[q] {
            Some(r) => if r.player is Some && r.health is Some && r.sprite is Some {
                Some(q)
            } else {
                find_player_from(s, q + 1)
            },
            None => find_player_from(s, q + 1),
        }
    }
}

/// The player's overlap records this step: the first sensor's list, or
/// nothing if the body has no sensor.
pub open spec fn sensor_records(r: EntityRecord) -> Seq<Collision> {
    if r.body.sensors@.len() > 0 {
        r.body.sensors@[0].overlapping@
    } else {
        Seq::empty()
    }
}

/// One point of damage, saturating at the machine bound.
pub open spec fn hp_hit(hp: i32) -> int {
    if hp > i32::MIN {
        hp - 1
    } else {
        hp as int
    }
}

/// Whether the first damaging record was an enemy bullet (and not an
/// asteroid or enemy body), in which case that bullet dies with the hit.
pub open spec fn damager_is_bullet(c: Collision) -> bool {
    c.collision_layer2 & LAYER_ASTEROID == 0 && c.collision_layer2 & LAYER_ENEMY == 0
        && c.collision_layer2 & LAYER_BULLET_ENEMY > 0
}

/// The whole store after the player-damage pass, as a function of the
/// synced store: nothing changes without a vulnerable player; an
/// invulnerable player is skipped entirely; a vulnerable player turns
/// its flash tint off, and the first damaging overlap costs one hit
/// point, restarts the invulnerability window, turns the flash tint on,
/// destroys the damaging enemy bullet, and destroys the player once its
/// hit points are gone.
pub open spec fn player_damage_post(s: Seq<Option<EntityRecord>>) -> Seq<Option<EntityRecord>> {
    match find_player_from(s, 0) {
        None => s,
        Some(i) => {
            let r = s[i]->Some_0;
            let h = r.health->Some_0;
            let sp = r.sprite->Some_0;
            if h.iframe_count > 0 {
                s
            } else {
                match first_damager_from(sensor_records(r), 0) {
                    None => {
                        let r2 = EntityRecord {
                            sprite: Some(Sprite { color: Color { r: 0, g: 1000, b: 0 }, ..sp }),
                            ..r
                        };
                        let s2 = s.update(i, Some(r2));
                        if h.hp <= 0 {
                            s2.update(i, None)
                        } else {
                            s2
                        }
                    },
                    Some(c) => {
                        let h2 = Health {
                            hp: hp_hit(h.hp) as i32,
                            iframe_count: h.iframe_max,
                            ..h
                        };
                        let r2 = EntityRecord {
                            health: Some(h2),
                            sprite: Some(Sprite { color: Color { r: 1000, g: 0, b: 0 }, ..sp }),
                            ..r
                        };
                        let s2 = s.update(i, Some(r2));
                        let s3 = if damager_is_bullet(c) && 0 <= c.entity2 < s.len() {
                            s2.update(c.entity2 as int, None)
                        } else {
                            s2
                        };
                        if h2.hp <= 0 {
                            s3.update(i, None)
                        } else {
                            s3
                        }
                    },
                }
            }
        },
    }
}

/// Apply this step's overlaps to the player's health, honoring the
/// invulnerability window.
#[verifier::rlimit(30)]
#[verifier::loop_isolation(false)]
pub fn player_damage(world: &mut World)
    requires
        old(world).wf(),
    ensures
        final(world).wf(),
        final(world).pending@ == Seq::<EntityRecord>::empty(),
        final(world).slots@ == player_damage_post(old(world).synced()),
{
    world.sync();
    let ghost s0 = world.slots@;
    let n = world.slots.len();
    // find the player
    let mut i: usize = 0;
    while i < n
        invariant
            world.wf(),
            world.slots@ == s0,
            world.pending@ == Seq::<EntityRecord>::empty(),
            n == s0.len(),
            i <= n,
            find_player_from(s0, 0) == find_player_from(s0, i as int),
        decreases n - i,
    {
        let found = match &world.slots[i] {
            Some(r) => r.player.is_some() && r.health.is_some() && r.sprite.is_some(),
            None => false,
        };
        if found {
            break ;
        }
        i = i + 1;
    }
    if i >= n {
        proof {
            assert(find_player_from(s0, n as int) is None);
        }
        return ;
    }
    proof {
        assert(find_player_from(s0, 0) == Some(i as int));
    }
    // read the player's state
    let (vulnerable, hp0, iframe_max) = match &world.slots[i] {
        Some(r) => match &r.health {
            Some(h) => (h.iframe_count <= 0, h.hp, h.iframe_max),
            None => (false, 0, 0),
        },
        None => (false, 0, 0),
    };
    if !vulnerable {
        return ;
    }
    // find the first damaging overlap record
    let hit: Option<Collision> = {
        let mut found: Option<Collision> = None;
        match &world.slots[i] {
            Some(r) => {
                if r.body.sensors.len() > 0 {
                    let list = &r.body.sensors[0].overlapping;
                    let mut q: usize = 0;
                    while q < list.len()
                        invariant
                            q <= list@.len(),
                            list@ == sensor_records(s0[i as int]->Some_0),
                            found is None,
                            first_damager_from(list@, 0) == first_damager_from(list@, q as int),
                        decreases list@.len() - q,
                    {
                        let c = &list[q];
                        if (c.collision_layer2 & (LAYER_ASTEROID | LAYER_ENEMY
                            | LAYER_BULLET_ENEMY)) > 0 {
                            found = Some(*c);
                            break ;
                        }
                        q = q + 1;
                    }
                    proof {
                        match found {
                            Some(c) => {
                                assert(first_damager_from(list@, 0) == Some(c));
                            },
                            None => {},
                        }
                    }
                }
            },
            None => {},
        }
        found
    };
    // apply the outcome
    let ghost w_mid = *world;
    let slot = world.slots[i].take();
    match slot {
        Some(mut rec) => {
            match (rec.health, rec.sprite) {
                (Some(h), Some(sp)) => {
                    match hit {
                        None => {
                            rec.sprite = Some(Sprite { color: Color { r: 0, g: 1000, b: 0 }, ..sp });
                        },
                        Some(c) => {
                            let hp2 = if h.hp > i32::MIN {
                                h.hp - 1
                            } else {
                                h.hp
                            };
                            rec.health = Some(Health { hp: hp2, iframe_count: h.iframe_max, ..h });
                            rec.sprite = Some(Sprite { color: Color { r: 1000, g: 0, b: 0 }, ..sp });
                        },
                    }
                },
                _ => {},
            }
            let final_hp = match &rec.health {
                Some(h) => h.hp,
                None => 0,
            };
            world.slots[i] = Some(rec);
            proof {
                assert(world.slots@ =~= s0.update(i as int, Some(rec)));
                assert forall|q: int| world.live(q) implies #[trigger] world.at(q).wf() by {
                    if q != i as int {
                        assert(w_mid.live(q) && world.at(q) == w_mid.at(q));
                    } else {
                        assert(w_mid.at(q).wf());
                    }
                };
            }
            // the damaging enemy bullet dies with the hit
            match hit {
                Some(c) => {
                    if (c.collision_layer2 & LAYER_ASTEROID) == 0 && (c.collision_layer2
                        & LAYER_ENEMY) == 0 && (c.collision_layer2 & LAYER_BULLET_ENEMY) > 0 {
                        world.destroy(c.entity2);
                    }
                },
                None => {},
            }
            if final_hp <= 0 {
                world.destroy(i as u64);
            }
            proof {
                assert(world.slots@ =~= player_damage_post(s0));
            }
        },
        None => {},
    }
}

/// A record whose other side is a player bullet: the overlaps that
/// damage an asteroid.
pub open spec fn damages_asteroid(c: Collision) -> bool {
    c.collision_layer2 & LAYER_BULLET_PLAYER > 0
}

/// How many of the first `q` records damage the asteroid.
pub open spec fn count_upto(list: Seq<Collision>, q: int) -> nat
    decreases q when 0 <= q <= list.len()
{
    if q <= 0 {
        0
    } else {
        count_upto(list, q - 1) + (if damages_asteroid(list[q - 1]) {
            1nat
        } else {
            0nat
        })
    }
}

/// The last damaging record among the first `q` whose split left the
/// shape at or above the minimum radius: the one that last re-aimed the
/// asteroid (a shattering split does not re-aim).
pub open spec fn last_survivor(sh: CollisionShape, list: Seq<Collision>, q: int) -> Option<
    Collision,
>
    decreases q when 0 <= q <= list.len()
{
    if q <= 0 {
        None
    } else if damages_asteroid(list[q - 1]) && shrink_shape_n(
        sh,
        count_upto(list, q),
    ).spec_half_width() >= MIN_ASTEROID_RADIUS {
        Some(list[q - 1])
    } else {
        last_survivor(sh, list, q - 1)
    }
}

/// One asteroid split shrinks a value by the fixed divisor: two thirds,
/// rounded toward zero.
pub open spec fn shrink_val(v: int) -> int {
    tdiv(v * 2, 3)
}

pub open spec fn shrink_val_n(v: int, n: nat) -> int
    decreases n,
{
    if n == 0 {
        v
    } else {
        shrink_val(shrink_val_n(v, (n - 1) as nat))
    }
}

/// Shrinking never grows a value, and strictly shrinks any value large
/// enough to stay splittable, so repeated splits reach the destruction
/// threshold.
pub proof fn lemma_shrink_monotone(v: int)
    requires
        0 <= v,
    ensures
        0 <= shrink_val(v) <= v,
        v >= 1 ==> shrink_val(v) < v,
{
    lemma_tdiv_bound(v * 2, 3, v);
    if v >= 1 {
        assert(v * 2 / 3 < v) by (nonlinear_arith)
            requires
                v >= 1,
        {
        }
    }
}

/// Repeated shrinking is monotone in the number of splits.
pub proof fn lemma_shrink_n_monotone(v: int, n: nat)
    requires
        0 <= v,
    ensures
        0 <= shrink_val_n(v, n) <= v,
        forall|m: nat| m <= n ==> #[trigger] shrink_val_n(v, n) <= shrink_val_n(v, m),
    decreases n,
{
    if n == 0 {
    } else {
        lemma_shrink_n_monotone(v, (n - 1) as nat);
        lemma_shrink_monotone(shrink_val_n(v, (n - 1) as nat));
        assert forall|m: nat| m <= n implies #[trigger] shrink_val_n(v, n) <= shrink_val_n(
            v,
            m,
        ) by {
            if m <= (n - 1) as nat {
                assert(shrink_val_n(v, (n - 1) as nat) <= shrink_val_n(v, m));
            }
        };
    }
}

/// Repeated shrinking never grows a magnitude, whatever the sign.
pub proof fn lemma_shrink_n_abs(v: int, n: nat)
    ensures
        absi(shrink_val_n(v, n)) <= absi(v),
    decreases n,
{
    if n > 0 {
        lemma_shrink_n_abs(v, (n - 1) as nat);
        lemma_tdiv_bound(shrink_val_n(v, (n - 1) as nat) * 2, 3, absi(shrink_val_n(v, (n - 1) as nat)));
    }
}

/// A split shrinks a circle by the divisor and leaves a box unchanged.
pub open spec fn shrink_shape(sh: CollisionShape) -> CollisionShape {
    match sh {
        CollisionShape::Circle(r) => CollisionShape::Circle(shrink_val(r as int) as i64),
        CollisionShape::Rect(hw, hh) => sh,
    }
}

pub open spec fn shrink_shape_n(sh: CollisionShape, n: nat) -> CollisionShape
    decreases n,
{
    if n == 0 {
        sh
    } else {
        shrink_shape(shrink_shape_n(sh, (n - 1) as nat))
    }
}

/// After `hits` splits the asteroid has been destroyed: some split left
/// its extent below the minimum radius.
pub open spec fn shattered(sh: CollisionShape, hits: nat) -> bool {
    exists|m: int|
        1 <= m <= hits && (#[trigger] shrink_shape_n(sh, m as nat)).spec_half_width()
            < MIN_ASTEROID_RADIUS
}

proof fn lemma_shattered_step(sh: CollisionShape, c: nat)
    ensures
        shattered(sh, (c + 1) as nat) == (shattered(sh, c) || shrink_shape_n(
            sh,
            (c + 1) as nat,
        ).spec_half_width() < MIN_ASTEROID_RADIUS),
{
    if shattered(sh, (c + 1) as nat) {
        let m = choose|m: int|
            1 <= m <= c + 1 && (#[trigger] shrink_shape_n(sh, m as nat)).spec_half_width()
                < MIN_ASTEROID_RADIUS;
        if m <= c {
            assert(shattered(sh, c));
        }
    }
    if shattered(sh, c) {
        let m = choose|m: int|
            1 <= m <= c && (#[trigger] shrink_shape_n(sh, m as nat)).spec_half_width()
                < MIN_ASTEROID_RADIUS;
        assert(1 <= m <= c + 1);
        assert(shattered(sh, (c + 1) as nat));
    }
    if shrink_shape_n(sh, (c + 1) as nat).spec_half_width() < MIN_ASTEROID_RADIUS {
        assert(shattered(sh, (c + 1) as nat));
    }
}

/// The number of siblings `hits` splits spawn: one per split that left
/// the shape at or above the minimum radius.
pub open spec fn sibling_count_shape(sh: CollisionShape, hits: nat) -> nat
    decreases hits,
{
    if hits == 0 {
        0
    } else {
        sibling_count_shape(sh, (hits - 1) as nat) + (if shrink_shape_n(
            sh,
            hits,
        ).spec_half_width() >= MIN_ASTEROID_RADIUS {
            1nat
        } else {
            0nat
        })
    }
}

/// An asteroid the split pass processes: tagged, with kinematics, a
/// sprite and a sensor.
pub open spec fn asteroid_applies(r: EntityRecord) -> bool {
    r.asteroid is Some && r.physics is Some && r.sprite is Some && r.body.sensors@.len() > 0
}

/// Siblings one record spawns.
pub open spec fn sibling_count_rec(r: EntityRecord) -> nat {
    if asteroid_applies(r) {
        sibling_count_shape(
            r.body.sensors@[0].shape,
            count_upto(sensor_records(r), sensor_records(r).len() as int),
        )
    } else {
        0
    }
}

/// Siblings the whole pass spawns, over the first `n` slots.
pub open spec fn sibling_total_upto(s: Seq<Option<EntityRecord>>, n: int) -> nat
    decreases n when 0 <= n <= s.len()
{
    if n <= 0 {
        0
    } else {
        sibling_total_upto(s, n - 1) + (match s[n - 1] {
            Some(r) => sibling_count_rec(r),
            None => 0,
        })
    }
}

/// The impact angle of a record: the game's aim angle from the other
/// side's position toward ours, the basis for split divergence.
pub open spec fn impact_angle(c: Collision) -> int {
    aim_from_raw(
        atan2_approx(
            c.transform2.y - c.transform1.y,
            c.transform2.x - c.transform1.x,
        ),
    )
}

/// A heading diverged from the impact angle by up to the split spread,
/// clockwise.
pub open spec fn diverged_plus(a: int, impact: int) -> bool {
    exists|u: int| 0 <= u < SPLIT_SPREAD && a == #[trigger] ((impact + u) % (DEG_FULL as int))
}

/// A heading diverged by the mirrored spread, counterclockwise.
pub open spec fn diverged_minus(a: int, impact: int) -> bool {
    exists|u: int| 0 <= u < SPLIT_SPREAD && a == #[trigger] ((impact - u) % (DEG_FULL as int))
}

/// What survives of a processed asteroid hit `hits` times: the sensor
/// shape and the sprite scale shrunk once per hit, the heading re-aimed
/// by the mirrored spread off the last impact, everything else kept.
pub open spec fn split_survivor(r: EntityRecord, r2: EntityRecord, hits: nat) -> bool {
    let list = sensor_records(r);
    &&& r2.transform == r.transform
    &&& r2.health == r.health
    &&& r2.bullet == r.bullet
    &&& r2.spinner == r.spinner
    &&& r2.player == r.player
    &&& r2.asteroid == r.asteroid
    &&& r2.body.colliders@ == r.body.colliders@
    &&& r2.body.sensors@.len() == r.body.sensors@.len()
    &&& r2.body.sensors@[0].shape == shrink_shape_n(r.body.sensors@[0].shape, hits)
    &&& r2.body.sensors@[0].collision_layer == r.body.sensors@[0].collision_layer
    &&& r2.body.sensors@[0].collides_with == r.body.sensors@[0].collides_with
    &&& r2.body.sensors@[0].overlapping@ == sensor_records(r)
    &&& forall|k: int| 1 <= k < r2.body.sensors@.len() ==> r2.body.sensors@[k] == r.body.sensors@[k]
    &&& r2.sprite == Some(
        Sprite {
            scale: shrink_val_n(r.sprite->Some_0.scale as int, hits) as i64,
            ..r.sprite->Some_0
        },
    )
    &&& (match last_survivor(r.body.sensors@[0].shape, list, list.len() as int) {
        Some(c) => r2.physics is Some && diverged_minus(
            r2.physics->Some_0.angle as int,
            impact_angle(c),
        ) && r2.physics->Some_0 == (Physics {
            angle: r2.physics->Some_0.angle,
            ..r.physics->Some_0
        }),
        None => r2.physics == r.physics,
    })
}

/// A record some processed asteroid's damaging overlap names: its other
/// entity (the player bullet) is destroyed by the pass.
pub open spec fn named_by_damager(s: Seq<Option<EntityRecord>>, id: u64) -> bool {
    exists|a: int, q: int|
        0 <= a < s.len() && s[a] is Some && asteroid_applies(s[a]->Some_0) && 0 <= q
            < sensor_records(s[a]->Some_0).len() && damages_asteroid(
            #[trigger] sensor_records(s[a]->Some_0)[q],
        ) && sensor_records(s[a]->Some_0)[q].entity2 == id
}

/// Everything the pass may destroy: bullets named by damaging records,
/// and asteroids whose splits reached the destruction threshold.
pub open spec fn split_killed(s: Seq<Option<EntityRecord>>, i: int) -> bool {
    named_by_damager(s, i as u64) || (0 <= i < s.len() && s[i] is Some && asteroid_applies(
        s[i]->Some_0,
    ) && shattered(
        s[i]->Some_0.body.sensors@[0].shape,
        count_upto(sensor_records(s[i]->Some_0), sensor_records(s[i]->Some_0).len() as int),
    ))
}

/// What a spawned sibling looks like: an asteroid at its parent's
/// position, with the parent's kinematics diverged clockwise off some
/// impact angle, a fresh body whose sensor carries the radius after the
/// split that spawned it, and a sprite scaled to that radius.
pub open spec fn sibling_ok(s: Seq<Option<EntityRecord>>, e: EntityRecord) -> bool {
    exists|a: int, m: int|
        #![trigger shrink_shape_n(s[a]->Some_0.body.sensors@[0].shape, m as nat)]
        0 <= a < s.len() && s[a] is Some && asteroid_applies(s[a]->Some_0) && {
            let r = s[a]->Some_0;
            let list = sensor_records(r);
            let sh = r.body.sensors@[0].shape;
            &&& 1 <= m <= count_upto(list, list.len() as int)
            &&& shrink_shape_n(sh, m as nat).spec_half_width() >= MIN_ASTEROID_RADIUS
            &&& e.transform == r.transform
            &&& e.asteroid is Some
            &&& e.bullet is None
            &&& e.health is None
            &&& e.spinner is None
            &&& e.player is None
            &&& e.physics is Some
            &&& (exists|q: int|
                0 <= q < list.len() && damages_asteroid(#[trigger] list[q]) && diverged_plus(
                    e.physics->Some_0.angle as int,
                    impact_angle(list[q]),
                ))
            &&& e.physics->Some_0 == (Physics {
                angle: e.physics->Some_0.angle,
                ..r.physics->Some_0
            })
            &&& e.body.sensors@.len() == r.body.sensors@.len()
            &&& e.body.colliders@.len() == r.body.colliders@.len()
            &&& e.body.sensors@[0].shape == shrink_shape_n(sh, m as nat)
            &&& e.body.sensors@[0].collision_layer == r.body.sensors@[0].collision_layer
            &&& e.body.sensors@[0].collides_with == r.body.sensors@[0].collides_with
            &&& e.body.sensors@[0].overlapping@.len() == 0
            &&& e.sprite == Some(
                Sprite {
                    texture: Texture::Asteroid,
                    scale: sprite_scale(shrink_shape_n(sh, m as nat).spec_half_width()) as i64,
                    color: Color { r: 300, g: 300, b: 300 },
                    draw_layer: DRAW_LAYER_ASTEROID,
                },
            )
        }
}

/// An identifier occurs in a kill list.
pub open spec fn in_kills(ks: Seq<u64>, id: u64) -> bool {
    exists|e: int| 0 <= e < ks.len() && ks[e] == id
}

/// Some damaging record among the first `q` names this entity.
pub open spec fn named_in(list: Seq<Collision>, q: int, id: u64) -> bool {
    exists|w: int| 0 <= w < q && damages_asteroid(#[trigger] list[w]) && list[w].entity2 == id
}

proof fn lemma_named_in_widen(list: Seq<Collision>, q1: int, q2: int, id: u64)
    requires
        named_in(list, q1, id),
        q1 <= q2,
    ensures
        named_in(list, q2, id),
{
    let w = choose|w: int|
        0 <= w < q1 && damages_asteroid(#[trigger] list[w]) && list[w].entity2 == id;
    assert(0 <= w < q2 && damages_asteroid(list[w]) && list[w].entity2 == id);
}

/// Fewer hits never spawn more siblings.
proof fn lemma_sibling_count_mono(sh: CollisionShape, m: nat, n: nat)
    requires
        m <= n,
    ensures
        sibling_count_shape(sh, m) <= sibling_count_shape(sh, n),
    decreases n,
{
    if m < n {
        lemma_sibling_count_mono(sh, m, (n - 1) as nat);
    }
}

/// A prefix of the pass spawns no more siblings than the whole pass.
proof fn lemma_sibling_total_mono(s: Seq<Option<EntityRecord>>, m: int, n: int)
    requires
        0 <= m <= n <= s.len(),
    ensures
        sibling_total_upto(s, m) <= sibling_total_upto(s, n),
    decreases n,
{
    if m < n {
        lemma_sibling_total_mono(s, m, n - 1);
    }
}

/// A sibling of one particular parent record.
pub open spec fn sibling_of(r: EntityRecord, e: EntityRecord) -> bool {
    let list = sensor_records(r);
    let sh = r.body.sensors@[0].shape;
    exists|m: int|
        #![trigger shrink_shape_n(sh, m as nat)]
        {
            &&& 1 <= m <= count_upto(list, list.len() as int)
            &&& shrink_shape_n(sh, m as nat).spec_half_width() >= MIN_ASTEROID_RADIUS
            &&& e.transform == r.transform
            &&& e.asteroid is Some
            &&& e.bullet is None
            &&& e.health is None
            &&& e.spinner is None
            &&& e.player is None
            &&& e.physics is Some
            &&& (exists|q: int|
                0 <= q < list.len() && damages_asteroid(#[trigger] list[q]) && diverged_plus(
                    e.physics->Some_0.angle as int,
                    impact_angle(list[q]),
                ))
            &&& e.physics->Some_0 == (Physics {
                angle: e.physics->Some_0.angle,
                ..r.physics->Some_0
            })
            &&& e.body.sensors@.len() == r.body.sensors@.len()
            &&& e.body.colliders@.len() == r.body.colliders@.len()
            &&& e.body.sensors@[0].shape == shrink_shape_n(sh, m as nat)
            &&& e.body.sensors@[0].collision_layer == r.body.sensors@[0].collision_layer
            &&& e.body.sensors@[0].collides_with == r.body.sensors@[0].collides_with
            &&& e.body.sensors@[0].overlapping@.len() == 0
            &&& e.sprite == Some(
                Sprite {
                    texture: Texture::Asteroid,
                    scale: sprite_scale(shrink_shape_n(sh, m as nat).spec_half_width()) as i64,
                    color: Color { r: 300, g: 300, b: 300 },
                    draw_layer: DRAW_LAYER_ASTEROID,
                },
            )
        }
}

/// Process one asteroid's overlap records: shrink per hit, re-aim off
/// each impact, spawn one sibling per surviving split, and report
/// whether the asteroid shattered. Creations are queued on the world;
/// the bullets the damaging records name are appended to `kills`.
#[verifier::rlimit(100)]
#[verifier::loop_isolation(false)]
fn process_asteroid(
    rec0: EntityRecord,
    rng: &mut rand::rngs::StdRng,
    kills: &mut Vec<u64>,
    world: &mut World,
) -> (out: (EntityRecord, bool))
    requires
        rec0.wf(),
        asteroid_applies(rec0),
        old(world).wf(),
    ensures
        final(world).wf(),
        final(world).slots@ == old(world).slots@,
        out.0.wf(),
        split_survivor(
            rec0,
            out.0,
            count_upto(sensor_records(rec0), sensor_records(rec0).len() as int),
        ),
        out.1 == shattered(
            rec0.body.sensors@[0].shape,
            count_upto(sensor_records(rec0), sensor_records(rec0).len() as int),
        ),
        final(kills)@.len() >= old(kills)@.len(),
        forall|e: int| 0 <= e < old(kills)@.len() ==> final(kills)@[e] == old(kills)@[e],
        forall|e: int|
            old(kills)@.len() <= e < final(kills)@.len() ==> named_in(
                sensor_records(rec0),
                sensor_records(rec0).len() as int,
                #[trigger] final(kills)@[e],
            ),
        forall|w: int|
            0 <= w < sensor_records(rec0).len() && damages_asteroid(
                #[trigger] sensor_records(rec0)[w],
            ) ==> in_kills(final(kills)@, sensor_records(rec0)[w].entity2),
        final(world).pending@.len() >= old(world).pending@.len(),
        forall|q: int|
            old(world).pending@.len() <= q < final(world).pending@.len() ==> sibling_of(
                rec0,
                #[trigger] final(world).pending@[q],
            ) && final(world).pending@[q].wf(),
        forall|q: int|
            0 <= q < old(world).pending@.len() ==> final(world).pending@[q] == old(world).pending@[q],
        final(world).pending@.len() <= old(world).pending@.len() + sibling_count_shape(
            rec0.body.sensors@[0].shape,
            count_upto(sensor_records(rec0), sensor_records(rec0).len() as int),
        ),
        old(world).next_id() + sibling_count_shape(
            rec0.body.sensors@[0].shape,
            count_upto(sensor_records(rec0), sensor_records(rec0).len() as int),
        ) <= ENTITY_CAP ==> final(world).pending@.len() == old(world).pending@.len()
            + sibling_count_shape(
            rec0.body.sensors@[0].shape,
            count_upto(sensor_records(rec0), sensor_records(rec0).len() as int),
        ),
{
    let ghost list = sensor_records(rec0);
    let ghost sh0 = rec0.body.sensors@[0].shape;
    let ghost p0 = rec0.physics->Some_0;
    let ghost sp0 = rec0.sprite->Some_0;
    let ghost kills0 = kills@;
    let ghost pend0 = old(world).pending@;
    proof {
        assert(rec0.body.sensors@[0].wf());
    }
    let mut rec = rec0;
    let mut sen0 = rec.body.sensors.remove(0);
    let ghost sens_rest = rec.body.sensors@;
    let mut killed = false;
    let mut q: usize = 0;
    while q < sen0.overlapping.len()
        invariant
            q <= list.len(),
            sen0.overlapping@ == list,
            sen0.shape == shrink_shape_n(sh0, count_upto(list, q as int)),
            sen0.shape.wf(),
            sen0.collision_layer == rec0.body.sensors@[0].collision_layer,
            sen0.collides_with == rec0.body.sensors@[0].collides_with,
            rec.body.sensors@ == sens_rest,
            rec.body.colliders@ == rec0.body.colliders@,
            rec.transform == rec0.transform,
            rec.health == rec0.health,
            rec.bullet == rec0.bullet,
            rec.spinner == rec0.spinner,
            rec.player == rec0.player,
            rec.asteroid == rec0.asteroid,
            rec.sprite is Some,
            rec.sprite->Some_0 == (Sprite { scale: rec.sprite->Some_0.scale, ..sp0 }),
            rec.sprite->Some_0.scale as int == shrink_val_n(
                sp0.scale as int,
                count_upto(list, q as int),
            ),
            match last_survivor(sh0, list, q as int) {
                Some(c) => rec.physics is Some && diverged_minus(
                    rec.physics->Some_0.angle as int,
                    impact_angle(c),
                ) && rec.physics->Some_0 == (Physics {
                    angle: rec.physics->Some_0.angle,
                    ..p0
                }) && 0 <= rec.physics->Some_0.angle < DEG_FULL,
                None => rec.physics == rec0.physics,
            },
            killed == shattered(sh0, count_upto(list, q as int)),
            kills@.len() >= kills0.len(),
            forall|e: int| 0 <= e < kills0.len() ==> kills@[e] == kills0[e],
            forall|e: int|
                kills0.len() <= e < kills@.len() ==> named_in(
                    list,
                    q as int,
                    #[trigger] kills@[e],
                ),
            forall|w: int|
                0 <= w < q && damages_asteroid(#[trigger] list[w]) ==> in_kills(
                    kills@,
                    list[w].entity2,
                ),
            world.wf(),
            world.slots@ == old(world).slots@,
            world.pending@.len() >= pend0.len(),
            forall|w: int|
                pend0.len() <= w < world.pending@.len() ==> sibling_of(
                    rec0,
                    #[trigger] world.pending@[w],
                ) && world.pending@[w].wf(),
            forall|w: int| 0 <= w < pend0.len() ==> world.pending@[w] == pend0[w],
            world.pending@.len() <= pend0.len() + sibling_count_shape(
                sh0,
                count_upto(list, q as int),
            ),
            old(world).next_id() + sibling_count_shape(sh0, count_upto(list, list.len() as int))
                <= ENTITY_CAP ==> world.pending@.len() == pend0.len() + sibling_count_shape(
                sh0,
                count_upto(list, q as int),
            ),
        decreases list.len() - q,
    {
        let ghost hits_before = count_upto(list, q as int);
        let c = sen0.overlapping[q];
        proof {
            assert(record_wf(list[q as int])) by {
                assert(rec0.body.sensors@[0].wf());
            }
            assert(count_upto(list, q as int + 1) == count_upto(list, q as int) + (
            if damages_asteroid(list[q as int]) {
                1nat
            } else {
                0nat
            }));
        }
        if c.collision_layer2 & LAYER_BULLET_PLAYER > 0 {
            let ghost hits_now = (hits_before + 1) as nat;
            let ghost kills_before = kills@;
            kills.push(c.entity2);
            proof {
                assert(kills@[kills@.len() - 1] == list[q as int].entity2);
                assert forall|e: int|
                    kills0.len() <= e < kills@.len() implies named_in(
                    list,
                    q as int + 1,
                    #[trigger] kills@[e],
                ) by {
                    if e < kills_before.len() {
                        assert(kills@[e] == kills_before[e]);
                        assert(named_in(list, q as int, kills_before[e]));
                        lemma_named_in_widen(list, q as int, q as int + 1, kills_before[e]);
                    } else {
                        assert(kills@[e] == c.entity2);
                        assert(0 <= q < q + 1 && damages_asteroid(list[q as int])
                            && list[q as int].entity2 == kills@[e]);
                    }
                };
                assert forall|w: int|
                    0 <= w < q + 1 && damages_asteroid(#[trigger] list[w]) implies in_kills(
                    kills@,
                    list[w].entity2,
                ) by {
                    if w < q {
                        let e = choose|e: int|
                            0 <= e < kills_before.len() && kills_before[e] == list[w].entity2;
                        assert(kills@[e] == list[w].entity2);
                    } else {
                        assert(kills@[kills@.len() - 1] == list[w].entity2);
                    }
                };
            }
            // shrink the sensor shape
            match sen0.shape {
                CollisionShape::Circle(r) => {
                    proof {
                        lemma_tdiv_bound(r as int * 2, 3, absi(r as int));
                    }
                    let nr = mul_tdiv(r, 2, 3);
                    proof {
                        lemma_shrink_monotone(r as int);
                    }
                    sen0.shape = CollisionShape::Circle(nr);
                },
                CollisionShape::Rect(_, _) => {},
            }
            proof {
                assert(sen0.shape == shrink_shape_n(sh0, hits_now));
            }
            // shrink the sprite
            match rec.sprite {
                Some(sp) => {
                    proof {
                        lemma_shrink_n_abs(sp0.scale as int, hits_before);
                        lemma_shrink_n_abs(sp0.scale as int, hits_now);
                        lemma_tdiv_bound(sp.scale as int * 2, 3, absi(sp.scale as int));
                    }
                    let ns = mul_tdiv(sp.scale, 2, 3);
                    rec.sprite = Some(Sprite { scale: ns, ..sp });
                    proof {
                        assert(ns == shrink_val(shrink_val_n(sp0.scale as int, hits_before)));
                        assert(ns as int == shrink_val_n(sp0.scale as int, hits_now));
                    }
                },
                None => {},
            }
            let hw = sen0.shape.half_width();
            if hw < MIN_ASTEROID_RADIUS {
                killed = true;
                proof {
                    lemma_shattered_step(sh0, hits_before);
                    assert(last_survivor(sh0, list, q as int + 1) == last_survivor(
                        sh0,
                        list,
                        q as int,
                    ));
                }
            } else {
                proof {
                    lemma_shattered_step(sh0, hits_before);
                    assert(c.transform1.wf() && c.transform2.wf());
                }
                let impact = c.transform2.get_angle_to(c.transform1.x, c.transform1.y);
                let u1 = gen_range_i64(rng, 0, SPLIT_SPREAD);
                let child_angle = norm_deg(impact + u1);
                let u2 = gen_range_i64(rng, 0, SPLIT_SPREAD);
                let parent_angle = norm_deg(impact - u2);
                let child_phys = match &rec.physics {
                    Some(p) => Physics { angle: child_angle, ..*p },
                    None => Physics::default(),
                };
                match rec.physics {
                    Some(p) => {
                        rec.physics = Some(Physics { angle: parent_angle, ..p });
                    },
                    None => {},
                }
                proof {
                    assert(impact == impact_angle(list[q as int]));
                    assert(diverged_plus(child_angle as int, impact as int)) by {
                        assert(child_angle == (impact as int + u1) % (DEG_FULL as int));
                    }
                    assert(diverged_minus(parent_angle as int, impact as int)) by {
                        assert(parent_angle == (impact as int - u2) % (DEG_FULL as int));
                    }
                    assert(last_survivor(sh0, list, q as int + 1) == Some(list[q as int]));
                }
                let mut child_sensors = fresh_copies(&rec.body.sensors);
                let fresh_list: Vec<Collision> = Vec::new();
                child_sensors.insert(
                    0,
                    Collider {
                        shape: sen0.shape,
                        collision_layer: sen0.collision_layer,
                        collides_with: sen0.collides_with,
                        overlapping: fresh_list,
                    },
                );
                let child_cols = fresh_copies(&rec.body.colliders);
                let child_body = CollisionBody { colliders: child_cols, sensors: child_sensors };
                let child_sprite = create_sprite(
                    Texture::Asteroid,
                    hw,
                    Color::rgb(300, 300, 300),
                    DRAW_LAYER_ASTEROID,
                );
                let child = EntityRecord {
                    transform: rec.transform,
                    body: child_body,
                    physics: Some(child_phys),
                    health: None,
                    bullet: None,
                    spinner: None,
                    sprite: Some(child_sprite),
                    player: None,
                    asteroid: Some(Asteroid),
                };
                proof {
                    assert(child.wf()) by {
                        assert(rec0.wf());
                        assert(p0.wf());
                        assert forall|k: int|
                            0 <= k < child.body.sensors@.len() implies #[trigger] child.body.sensors@[k].wf() by {
                            if k == 0 {
                            } else {
                                assert(child.body.sensors@[k] == child_sensors@[k]);
                            }
                        };
                    }
                    assert(sibling_of(rec0, child)) by {
                        assert(1 <= hits_now <= count_upto(list, list.len() as int)) by {
                            lemma_count_upto_mono(list, q as int + 1, list.len() as int);
                        }
                        assert(shrink_shape_n(sh0, hits_now).spec_half_width()
                            >= MIN_ASTEROID_RADIUS);
                    }
                }
                proof {
                    lemma_count_upto_mono(list, q as int + 1, list.len() as int);
                    lemma_sibling_count_mono(sh0, hits_now, count_upto(list, list.len() as int));
                }
                let have = world.slots.len() + world.pending.len();
                if (have as u64) < ENTITY_CAP {
                    world.create_body(child);
                }
            }
        } else {
            proof {
                assert(last_survivor(sh0, list, q as int + 1) == last_survivor(
                    sh0,
                    list,
                    q as int,
                ));
                assert forall|e: int|
                    kills0.len() <= e < kills@.len() implies named_in(
                    list,
                    q as int + 1,
                    #[trigger] kills@[e],
                ) by {
                    assert(named_in(list, q as int, kills@[e]));
                    lemma_named_in_widen(list, q as int, q as int + 1, kills@[e]);
                };
            }
        }
        q = q + 1;
    }
    proof {
        assert(q == list.len());
    }
    rec.body.sensors.insert(0, sen0);
    proof {
        assert(rec.body.sensors@ == sens_rest.insert(0, sen0));
        assert(sens_rest == rec0.body.sensors@.remove(0));
        assert(rec.body.sensors@.len() == rec0.body.sensors@.len());
        assert(rec.body.sensors@[0] == sen0);
        assert forall|k: int| 1 <= k < rec.body.sensors@.len() implies rec.body.sensors@[k]
            == rec0.body.sensors@[k] by {
            assert(rec.body.sensors@[k] == sens_rest[k - 1]);
            assert(rec0.body.sensors@.remove(0) == rec0.body.sensors@.subrange(
                0,
                0,
            ) + rec0.body.sensors@.subrange(1, rec0.body.sensors@.len() as int));
            assert(sens_rest[k - 1] == rec0.body.sensors@.subrange(
                1,
                rec0.body.sensors@.len() as int,
            )[k - 1]);
        };
        assert(rec.wf()) by {
            assert(rec0.wf());
            assert forall|k: int|
                0 <= k < rec.body.sensors@.len() implies #[trigger] rec.body.sensors@[k].wf() by {
                if k == 0 {
                    assert(rec0.body.sensors@[0].wf());
                } else {
                    assert(rec0.body.sensors@[k].wf());
                }
            };
            assert forall|k: int|
                0 <= k < rec.body.colliders@.len() implies #[trigger] rec.body.colliders@[k].wf() by {
                assert(rec0.body.colliders@[k].wf());
            };
        }
        assert(split_survivor(rec0, rec, count_upto(list, list.len() as int)));
    }
    (rec, killed)
}

/// Hits counted over a prefix never exceed the whole list's count.
proof fn lemma_count_upto_mono(list: Seq<Collision>, m: int, n: int)
    requires
        0 <= m <= n <= list.len(),
    ensures
        count_upto(list, m) <= count_upto(list, n),
    decreases n,
{
    if m < n {
        lemma_count_upto_mono(list, m, n - 1);
    }
}

/// The number of damaging records a record carries this step.
pub open spec fn hits_of(r: EntityRecord) -> nat {
    count_upto(sensor_records(r), sensor_records(r).len() as int)
}

/// The state of one slot after the split pass but before the deferred
/// kills: a processed asteroid satisfies the survivor relation,
/// everything else is untouched.
pub open spec fn processed_slot(
    s: Seq<Option<EntityRecord>>,
    i: int,
    cur: Option<EntityRecord>,
) -> bool {
    match s[i] {
        None => cur is None,
        Some(r) => if asteroid_applies(r) {
            cur is Some && split_survivor(r, cur->Some_0, hits_of(r))
        } else {
            cur == s[i]
        },
    }
}

/// Membership in the first `k` entries of a kill list.
pub open spec fn in_kills_upto(ks: Seq<u64>, k: int, id: u64) -> bool {
    exists|e: int| 0 <= e < k && ks[e] == id
}

proof fn lemma_sibling_lift(s: Seq<Option<EntityRecord>>, a: int, e: EntityRecord)
    requires
        0 <= a < s.len(),
        s[a] is Some,
        asteroid_applies(s[a]->Some_0),
        sibling_of(s[a]->Some_0, e),
    ensures
        sibling_ok(s, e),
{
    let r = s[a]->Some_0;
    let list = sensor_records(r);
    let sh = r.body.sensors@[0].shape;
    let m = choose|m: int|
        #![trigger shrink_shape_n(sh, m as nat)]
        {
            &&& 1 <= m <= count_upto(list, list.len() as int)
            &&& shrink_shape_n(sh, m as nat).spec_half_width() >= MIN_ASTEROID_RADIUS
            &&& e.transform == r.transform
            &&& e.asteroid is Some
            &&& e.bullet is None
            &&& e.health is None
            &&& e.spinner is None
            &&& e.player is None
            &&& e.physics is Some
            &&& (exists|q: int|
                0 <= q < list.len() && damages_asteroid(#[trigger] list[q]) && diverged_plus(
                    e.physics->Some_0.angle as int,
                    impact_angle(list[q]),
                ))
            &&& e.physics->Some_0 == (Physics {
                angle: e.physics->Some_0.angle,
                ..r.physics->Some_0
            })
            &&& e.body.sensors@.len() == r.body.sensors@.len()
            &&& e.body.colliders@.len() == r.body.colliders@.len()
            &&& e.body.sensors@[0].shape == shrink_shape_n(sh, m as nat)
            &&& e.body.sensors@[0].collision_layer == r.body.sensors@[0].collision_layer
            &&& e.body.sensors@[0].collides_with == r.body.sensors@[0].collides_with
            &&& e.body.sensors@[0].overlapping@.len() == 0
            &&& e.sprite == Some(
                Sprite {
                    texture: Texture::Asteroid,
                    scale: sprite_scale(shrink_shape_n(sh, m as nat).spec_half_width()) as i64,
                    color: Color { r: 300, g: 300, b: 300 },
                    draw_layer: DRAW_LAYER_ASTEROID,
                },
            )
        };
    assert(shrink_shape_n(s[a]->Some_0.body.sensors@[0].shape, m as nat) == shrink_shape_n(
        sh,
        m as nat,
    ));
}

/// Apply this step's player-bullet overlaps to every asteroid: shrink
/// once per hit, spawn a sibling per surviving split (deferred to the
/// next `sync`), destroy the bullets that hit and every asteroid whose
/// radius fell below the minimum.
#[verifier::rlimit(100)]
#[verifier::loop_isolation(false)]
pub fn asteroid_damage(world: &mut World, rng: &mut rand::rngs::StdRng)
    requires
        old(world).wf(),
    ensures
        final(world).wf(),
        final(world).slots@.len() == old(world).synced().len(),
        forall|i: int|
            0 <= i < old(world).synced().len() && old(world).synced()[i] is None ==> final(world).slots@[i] is None,
        forall|i: int|
            0 <= i < old(world).synced().len() && old(world).synced()[i] is Some ==> ((#[trigger] final(world).slots@[i]) is None <==> split_killed(old(world).synced(), i)),
        forall|i: int|
            0 <= i < old(world).synced().len() && old(world).synced()[i] is Some && !split_killed(
                old(world).synced(),
                i,
            ) && !asteroid_applies(old(world).synced()[i]->Some_0) ==> #[trigger] final(world).slots@[i] == old(world).synced()[i],
        forall|i: int|
            0 <= i < old(world).synced().len() && old(world).synced()[i] is Some && !split_killed(
                old(world).synced(),
                i,
            ) && asteroid_applies(old(world).synced()[i]->Some_0) ==> (#[trigger] final(world).slots@[i]) is Some && split_survivor(
                old(world).synced()[i]->Some_0,
                final(world).slots@[i]->Some_0,
                hits_of(old(world).synced()[i]->Some_0),
            ),
        forall|q: int|
            0 <= q < final(world).pending@.len() ==> sibling_ok(
                old(world).synced(),
                #[trigger] final(world).pending@[q],
            ),
        final(world).pending@.len() <= sibling_total_upto(
            old(world).synced(),
            old(world).synced().len() as int,
        ),
        old(world).synced().len() + sibling_total_upto(
            old(world).synced(),
            old(world).synced().len() as int,
        ) <= ENTITY_CAP ==> final(world).pending@.len() == sibling_total_upto(
            old(world).synced(),
            old(world).synced().len() as int,
        ),
{
    world.sync();
    let ghost s0 = world.slots@;
    let n = world.slots.len();
    let mut kills: Vec<u64> = Vec::new();
    let mut a: usize = 0;
    while a < n
        invariant
            world.wf(),
            n == world.slots@.len(),
            world.slots@.len() == s0.len(),
            a <= n,
            forall|i: int| a <= i < n ==> #[trigger] world.slots@[i] == s0[i],
            forall|i: int| 0 <= i < a ==> processed_slot(s0, i, #[trigger] world.slots@[i]),
            forall|e: int|
                0 <= e < kills@.len() ==> split_killed(s0, #[trigger] kills@[e] as int),
            forall|ap: int|
                0 <= ap < a && s0[ap] is Some && asteroid_applies(#[trigger] s0[ap]->Some_0)
                    ==> (forall|w: int|
                    0 <= w < sensor_records(s0[ap]->Some_0).len() && damages_asteroid(
                        #[trigger] sensor_records(s0[ap]->Some_0)[w],
                    ) ==> in_kills(kills@, sensor_records(s0[ap]->Some_0)[w].entity2)),
            forall|ap: int|
                0 <= ap < a && s0[ap] is Some && asteroid_applies(#[trigger] s0[ap]->Some_0)
                    && shattered(
                    s0[ap]->Some_0.body.sensors@[0].shape,
                    hits_of(s0[ap]->Some_0),
                ) ==> in_kills(kills@, ap as u64),
            forall|q: int|
                0 <= q < world.pending@.len() ==> sibling_ok(
                    s0,
                    #[trigger] world.pending@[q],
                ) && world.pending@[q].wf(),
            world.pending@.len() <= sibling_total_upto(s0, a as int),
            s0.len() + sibling_total_upto(s0, s0.len() as int) <= ENTITY_CAP
                ==> world.pending@.len() == sibling_total_upto(s0, a as int),
        decreases n - a,
    {
        let ghost w_head = *world;
        let applies = match &world.slots[a] {
            Some(r) => r.asteroid.is_some() && r.physics.is_some() && r.sprite.is_some()
                && r.body.sensors.len() > 0,
            None => false,
        };
        if applies {
            let ghost kills_head = kills@;
            let ghost pend_head = world.pending@;
            let slot = world.slots[a].take();
            match slot {
                Some(rec) => {
                    proof {
                        assert(rec == s0[a as int]->Some_0);
                        assert(w_head.at(a as int).wf());
                        assert(asteroid_applies(rec));
                        assert forall|i: int| world.live(i) implies #[trigger] world.at(
                            i,
                        ).wf() by {
                            assert(w_head.live(i) && world.at(i) == w_head.at(i));
                        };
                        lemma_sibling_total_mono(s0, a as int + 1, s0.len() as int);
                    }
                    let ghost w_taken = *world;
                    let (rec2, killed_self) = process_asteroid(rec, rng, &mut kills, world);
                    let ghost kills_mid = kills@;
                    if killed_self {
                        kills.push(a as u64);
                    }
                    world.slots[a] = Some(rec2);
                    proof {
                        assert(world.slots@ =~= w_head.slots@.update(a as int, Some(rec2)));
                        assert(processed_slot(s0, a as int, world.slots@[a as int]));
                        assert forall|i: int| world.live(i) implies #[trigger] world.at(
                            i,
                        ).wf() by {
                            if i != a as int {
                                assert(w_head.live(i) && world.at(i) == w_head.at(i));
                            }
                        };
                        // kill-list soundness
                        assert forall|e: int|
                            0 <= e < kills@.len() implies split_killed(
                            s0,
                            #[trigger] kills@[e] as int,
                        ) by {
                            if e < kills_head.len() {
                                assert(kills@[e] == kills_head[e]);
                            } else if e < kills_mid.len() {
                                assert(kills@[e] == kills_mid[e]);
                                assert(named_in(
                                    sensor_records(rec),
                                    sensor_records(rec).len() as int,
                                    kills_mid[e],
                                ));
                                let w = choose|w: int|
                                    0 <= w < sensor_records(rec).len() && damages_asteroid(
                                        #[trigger] sensor_records(rec)[w],
                                    ) && sensor_records(rec)[w].entity2 == kills_mid[e];
                                assert(named_by_damager(s0, kills@[e]));
                            } else {
                                assert(kills@[e] == a as u64);
                                assert(killed_self);
                                assert(split_killed(s0, a as int));
                            }
                        };
                        // kill-list completeness
                        assert forall|ap: int|
                            0 <= ap < a + 1 && s0[ap] is Some && asteroid_applies(
                            #[trigger] s0[ap]->Some_0,
                        ) implies (forall|w: int|
                            0 <= w < sensor_records(s0[ap]->Some_0).len() && damages_asteroid(
                                #[trigger] sensor_records(s0[ap]->Some_0)[w],
                            ) ==> in_kills(
                                kills@,
                                sensor_records(s0[ap]->Some_0)[w].entity2,
                            )) by {
                            assert forall|w: int|
                                0 <= w < sensor_records(s0[ap]->Some_0).len() && damages_asteroid(
                                    #[trigger] sensor_records(s0[ap]->Some_0)[w],
                                ) implies in_kills(
                                kills@,
                                sensor_records(s0[ap]->Some_0)[w].entity2,
                            ) by {
                                let id = sensor_records(s0[ap]->Some_0)[w].entity2;
                                if ap < a as int {
                                    let e = choose|e: int|
                                        0 <= e < kills_head.len() && kills_head[e] == id;
                                    assert(kills@[e] == id);
                                } else {
                                    assert(in_kills(kills_mid, id));
                                    let e = choose|e: int|
                                        0 <= e < kills_mid.len() && kills_mid[e] == id;
                                    assert(kills@[e] == id);
                                }
                            };
                        };
                        assert forall|ap: int|
                            0 <= ap < a + 1 && s0[ap] is Some && asteroid_applies(
                            #[trigger] s0[ap]->Some_0,
                        ) && shattered(
                            s0[ap]->Some_0.body.sensors@[0].shape,
                            hits_of(s0[ap]->Some_0),
                        ) implies in_kills(kills@, ap as u64) by {
                            if ap < a as int {
                                let e = choose|e: int|
                                    0 <= e < kills_head.len() && kills_head[e] == ap as u64;
                                assert(kills@[e] == ap as u64);
                            } else {
                                assert(killed_self);
                                assert(kills@[kills@.len() - 1] == a as u64);
                            }
                        };
                        // pending
                        assert forall|q: int|
                            0 <= q < world.pending@.len() implies sibling_ok(
                            s0,
                            #[trigger] world.pending@[q],
                        ) && world.pending@[q].wf() by {
                            if q < pend_head.len() {
                                assert(world.pending@[q] == pend_head[q]);
                            } else {
                                assert(sibling_of(rec, world.pending@[q]));
                                lemma_sibling_lift(s0, a as int, world.pending@[q]);
                            }
                        };
                        assert(sibling_total_upto(s0, a as int + 1) == sibling_total_upto(
                            s0,
                            a as int,
                        ) + sibling_count_rec(rec));
                    }
                },
                None => {},
            }
        }
        a = a + 1;
    }
    // apply the deferred kills
    let ghost mid = world.slots@;
    let ghost pend_mid = world.pending@;
    let mut k: usize = 0;
    while k < kills.len()
        invariant
            world.wf(),
            world.slots@.len() == s0.len(),
            world.pending@ == pend_mid,
            k <= kills@.len(),
            forall|i: int|
                0 <= i < s0.len() ==> #[trigger] world.slots@[i] == (if in_kills_upto(
                    kills@,
                    k as int,
                    i as u64,
                ) {
                    None
                } else {
                    mid[i]
                }),
        decreases kills@.len() - k,
    {
        let ghost w_head = *world;
        let id = kills[k];
        world.destroy(id);
        proof {
            assert forall|i: int|
                0 <= i < s0.len() implies #[trigger] world.slots@[i] == (if in_kills_upto(
                kills@,
                k as int + 1,
                i as u64,
            ) {
                None
            } else {
                mid[i]
            }) by {
                if i as u64 == id && id < s0.len() as u64 {
                    assert(kills@[k as int] == i as u64);
                    assert(in_kills_upto(kills@, k as int + 1, i as u64));
                } else {
                    assert(world.slots@[i] == w_head.slots@[i]);
                    if in_kills_upto(kills@, k as int + 1, i as u64) {
                        let e = choose|e: int| 0 <= e < k + 1 && kills@[e] == i as u64;
                        assert(e < k);
                        assert(in_kills_upto(kills@, k as int, i as u64));
                    } else {
                        if in_kills_upto(kills@, k as int, i as u64) {
                            let e = choose|e: int| 0 <= e < k && kills@[e] == i as u64;
                            assert(in_kills_upto(kills@, k as int + 1, i as u64));
                        }
                    }
                }
            };
        }
        k = k + 1;
    }
    proof {
        assert forall|i: int|
            0 <= i < s0.len() && s0[i] is Some implies ((#[trigger] world.slots@[i]) is None
            <==> split_killed(s0, i)) by {
            assert(processed_slot(s0, i, mid[i]));
            if world.slots@[i] is None {
                if mid[i] is None {
                    assert(s0[i] is None);
                } else {
                    assert(in_kills_upto(kills@, kills@.len() as int, i as u64));
                    let e = choose|e: int| 0 <= e < kills@.len() && kills@[e] == i as u64;
                    assert(split_killed(s0, kills@[e] as int));
                }
            }
            if split_killed(s0, i) {
                if named_by_damager(s0, i as u64) {
                    let (ap, w): (int, int) = choose|ap: int, w: int|
                        0 <= ap < s0.len() && s0[ap] is Some && asteroid_applies(
                            s0[ap]->Some_0,
                        ) && 0 <= w < sensor_records(s0[ap]->Some_0).len() && damages_asteroid(
                            #[trigger] sensor_records(s0[ap]->Some_0)[w],
                        ) && sensor_records(s0[ap]->Some_0)[w].entity2 == i as u64;
                    assert(in_kills(kills@, i as u64));
                    let e = choose|e: int| 0 <= e < kills@.len() && kills@[e] == i as u64;
                    assert(in_kills_upto(kills@, kills@.len() as int, i as u64));
                } else {
                    assert(in_kills(kills@, i as u64));
                    let e = choose|e: int| 0 <= e < kills@.len() && kills@[e] == i as u64;
                    assert(in_kills_upto(kills@, kills@.len() as int, i as u64));
                }
            }
        };
        assert forall|i: int|
            0 <= i < s0.len() && s0[i] is Some && !split_killed(s0, i) implies #[trigger] world.slots@[i]
            == mid[i] by {
            if in_kills_upto(kills@, kills@.len() as int, i as u64) {
                let e = choose|e: int| 0 <= e < kills@.len() && kills@[e] == i as u64;
                assert(split_killed(s0, kills@[e] as int));
            }
        };
        assert forall|i: int| 0 <= i < s0.len() && s0[i] is None implies (#[trigger] world.slots@[i]) is None by {
            assert(processed_slot(s0, i, mid[i]));
            if !in_kills_upto(kills@, kills@.len() as int, i as u64) {
                assert(world.slots@[i] == mid[i]);
            }
        };
    }
}

/// The timer value after repeatedly subtracting the threshold while it
/// is exceeded.
pub open spec fn drain(t: int, step: int) -> int
    decreases t when step >= 1
{
    if t > step {
        drain(t - step, step)
    } else {
        t
    }
}

/// How many times the threshold is subtracted: the number of spawns one
/// accumulation step releases.
pub open spec fn drain_count(t: int, step: int) -> nat
    decreases t when step >= 1
{
    if t > step {
        1 + drain_count(t - step, step)
    } else {
        0
    }
}

/// A drained timer never exceeds the threshold or its starting value.
pub proof fn lemma_drain_le(t: int, step: int)
    requires
        step >= 1,
    ensures
        drain(t, step) <= step || drain(t, step) == t,
        t > step ==> drain(t, step) <= step,
        t <= step ==> drain(t, step) == t,
    decreases t,
{
    if t > step {
        lemma_drain_le(t - step, step);
    }
}

/// A freshly spawned asteroid: a sensor circle on the asteroid layer
/// reacting to player bullets, placed on the boundary ring, heading
/// toward the origin give or take the aim jitter at a drawn speed.
pub open spec fn asteroid_spawn_ok(e: EntityRecord) -> bool {
    exists|radius: int, speed: int|
        #![trigger spawn_geometry(e, radius, speed)]
        {
            &&& ASTEROID_RADIUS_MIN <= radius < ASTEROID_RADIUS_MAX
            &&& ASTEROID_SPEED_MIN <= speed < ASTEROID_SPEED_MAX
            &&& spawn_geometry(e, radius, speed)
        }
}

/// The body, position, kinematics and render data of a spawned
/// asteroid of the given radius and speed.
pub open spec fn spawn_geometry(e: EntityRecord, radius: int, speed: int) -> bool {
    &&& e.body.colliders@.len() == 0
    &&& e.body.sensors@.len() == 1
    &&& e.body.sensors@[0].shape == CollisionShape::Circle(radius as i64)
    &&& e.body.sensors@[0].collision_layer == LAYER_ASTEROID
    &&& e.body.sensors@[0].collides_with == LAYER_BULLET_PLAYER
    &&& e.body.sensors@[0].overlapping@.len() == 0
    &&& on_spawn_ring(e.transform, radius)
    &&& e.asteroid is Some
    &&& e.player is None
    &&& e.bullet is None
    &&& e.health is None
    &&& e.spinner is None
    &&& e.physics is Some
    &&& e.physics->Some_0 == (Physics {
        apply_auto: true,
        dx: 0,
        dy: 0,
        speed: speed as i64,
        angle: e.physics->Some_0.angle,
        accel: 0,
        curve: 0,
    })
    &&& aimed_at_origin(e.physics->Some_0.angle as int, e.transform)
    &&& e.sprite == Some(
        Sprite {
            texture: Texture::Asteroid,
            scale: sprite_scale(radius) as i64,
            color: Color { r: 300, g: 300, b: 300 },
            draw_layer: DRAW_LAYER_ASTEROID,
        },
    )
}

/// On the boundary ring: flush against a vertical wrap edge within the
/// vertical spawn band, or against a horizontal edge within the
/// horizontal band.
pub open spec fn on_spawn_ring(t: Transform, radius: int) -> bool {
    ((t.x == WRAP_LEFT - radius || t.x == WRAP_RIGHT + radius) && WRAP_TOP_HALF - radius <= t.y
        < WRAP_BOTTOM_HALF + radius) || ((t.y == WRAP_TOP - radius || t.y == WRAP_BOTTOM + radius)
        && WRAP_LEFT_HALF - radius <= t.x < WRAP_RIGHT_HALF + radius)
}

/// The heading points at the origin, give or take the aim jitter.
pub open spec fn aimed_at_origin(a: int, t: Transform) -> bool {
    exists|j: int|
        -SPAWN_AIM_JITTER <= j < SPAWN_AIM_JITTER && a == #[trigger] ((aim_from_raw(
            atan2_approx(t.y as int, t.x as int),
        ) + j) % (DEG_FULL as int))
}

/// Accumulate the asteroid spawn timer and spawn one asteroid for each
/// time it exceeds its threshold (subtracting the threshold, so a large
/// step can release several).
#[verifier::rlimit(60)]
#[verifier::loop_isolation(false)]
pub fn spawn_asteroids(world: &mut World, game: &mut AsteroidGame, rng: &mut rand::rngs::StdRng)
    requires
        old(world).wf(),
        old(game).wf(),
    ensures
        final(world).wf(),
        final(game).wf(),
        *final(game) == (AsteroidGame {
            asteroid_timer: drain(
                old(game).asteroid_timer + 1,
                ASTEROID_SPAWN_THRESHOLD as int,
            ) as i32,
            ..*old(game)
        }),
        final(world).slots@ == old(world).synced(),
        forall|q: int|
            0 <= q < final(world).pending@.len() ==> asteroid_spawn_ok(
                #[trigger] final(world).pending@[q],
            ),
        final(world).pending@.len() <= drain_count(
            old(game).asteroid_timer + 1,
            ASTEROID_SPAWN_THRESHOLD as int,
        ),
        old(world).synced().len() + drain_count(
            old(game).asteroid_timer + 1,
            ASTEROID_SPAWN_THRESHOLD as int,
        ) <= ENTITY_CAP ==> final(world).pending@.len() == drain_count(
            old(game).asteroid_timer + 1,
            ASTEROID_SPAWN_THRESHOLD as int,
        ),
{
    world.sync();
    let ghost t0 = old(game).asteroid_timer + 1;
    let ghost total = drain_count(t0, ASTEROID_SPAWN_THRESHOLD as int);
    game.asteroid_timer = game.asteroid_timer + 1;
    proof {
        lemma_drain_le(t0, ASTEROID_SPAWN_THRESHOLD as int);
    }
    while game.asteroid_timer > ASTEROID_SPAWN_THRESHOLD
        invariant
            world.wf(),
            game.asteroid_timer <= t0,
            *game == (AsteroidGame { asteroid_timer: game.asteroid_timer, ..*old(game) }),
            drain(game.asteroid_timer as int, ASTEROID_SPAWN_THRESHOLD as int) == drain(
                t0,
                ASTEROID_SPAWN_THRESHOLD as int,
            ),
            world.pending@.len() <= total - drain_count(
                game.asteroid_timer as int,
                ASTEROID_SPAWN_THRESHOLD as int,
            ),
            world.slots@ == old(world).synced(),
            forall|q: int|
                0 <= q < world.pending@.len() ==> asteroid_spawn_ok(
                    #[trigger] world.pending@[q],
                ) && world.pending@[q].wf(),
            old(world).synced().len() + total <= ENTITY_CAP ==> world.pending@.len() == total
                - drain_count(game.asteroid_timer as int, ASTEROID_SPAWN_THRESHOLD as int),
        decreases game.asteroid_timer,
    {
        let ghost pend_head = world.pending@;
        game.asteroid_timer = game.asteroid_timer - ASTEROID_SPAWN_THRESHOLD;
        let radius = gen_range_i64(rng, ASTEROID_RADIUS_MIN, ASTEROID_RADIUS_MAX);
        let vertical = gen_bool(rng);
        let (x, y): (i64, i64) = if vertical {
            let left = gen_bool(rng);
            (
                if left {
                    WRAP_LEFT - radius
                } else {
                    WRAP_RIGHT + radius
                },
                gen_range_i64(rng, WRAP_TOP_HALF - radius, WRAP_BOTTOM_HALF + radius),
            )
        } else {
            let top = gen_bool(rng);
            (
                gen_range_i64(rng, WRAP_LEFT_HALF - radius, WRAP_RIGHT_HALF + radius),
                if top {
                    WRAP_TOP - radius
                } else {
                    WRAP_BOTTOM + radius
                },
            )
        };
        let transform = Transform::new(x, y);
        let aim = transform.get_angle_to(0, 0);
        let j = gen_range_i64(rng, -SPAWN_AIM_JITTER, SPAWN_AIM_JITTER);
        let angle = norm_deg(aim + j);
        let speed = gen_range_i64(rng, ASTEROID_SPEED_MIN, ASTEROID_SPEED_MAX);
        let sprite = create_sprite(
            Texture::Asteroid,
            radius,
            Color::rgb(300, 300, 300),
            DRAW_LAYER_ASTEROID,
        );
        let rec = EntityRecord {
            transform,
            body: CollisionBody::from_sensor(
                Collider::circle(radius, LAYER_ASTEROID, LAYER_BULLET_PLAYER),
            ),
            physics: Some(
                Physics {
                    apply_auto: true,
                    dx: 0,
                    dy: 0,
                    speed,
                    angle,
                    accel: 0,
                    curve: 0,
                },
            ),
            health: None,
            bullet: None,
            spinner: None,
            sprite: Some(sprite),
            player: None,
            asteroid: Some(Asteroid),
        };
        proof {
            assert(spawn_geometry(rec, radius as int, speed as int));
            assert(asteroid_spawn_ok(rec));
            assert(rec.wf());
        }
        let have = world.slots.len() + world.pending.len();
        if (have as u64) < ENTITY_CAP {
            world.create_body(rec);
        }
        proof {
            assert forall|q: int|
                0 <= q < world.pending@.len() implies asteroid_spawn_ok(
                #[trigger] world.pending@[q],
            ) && world.pending@[q].wf() by {
                if q < pend_head.len() {
                    assert(world.pending@[q] == pend_head[q]);
                } else {
                    assert(world.pending@[q] == rec);
                }
            };
        }
    }
    proof {
        assert(drain(game.asteroid_timer as int, ASTEROID_SPAWN_THRESHOLD as int)
            == game.asteroid_timer as int);
    }
}

/// The first live entity carrying the player tag, at or past `q`.
pub open spec fn first_tagged_player(s: Seq<Option<EntityRecord>>, q: int) -> Option<int>
    decreases s.len() - q when 0 <= q <= s.len()
{
    if q < 0 || q >= s.len() {
        None
    } else {
        match s[q] {
            Some(r) => if r.player is Some {
                Some(q)
            } else {
                first_tagged_player(s, q + 1)
            },
            None => first_tagged_player(s, q + 1),
        }
    }
}

/// A freshly spawned spinner: an enemy sensor circle on the boundary
/// ring, aimed exactly at the player, accelerating from rest.
pub open spec fn spinner_spawn_ok(s: Seq<Option<EntityRecord>>, e: EntityRecord) -> bool {
    &&& e.body.colliders@.len() == 0
    &&& e.body.sensors@.len() == 1
    &&& e.body.sensors@[0].shape == CollisionShape::Circle(SPINNER_RADIUS)
    &&& e.body.sensors@[0].collision_layer == LAYER_ENEMY
    &&& e.body.sensors@[0].collides_with == 0
    &&& e.body.sensors@[0].overlapping@.len() == 0
    &&& on_spawn_ring(e.transform, SPINNER_RADIUS as int)
    &&& e.asteroid is None
    &&& e.player is None
    &&& e.bullet is None
    &&& e.health is None
    &&& e.spinner is Some
    &&& e.physics is Some
    &&& (match first_tagged_player(s, 0) {
        Some(pi) => {
            let pt = s[pi]->Some_0.transform;
            let aim = aim_from_raw(
                atan2_approx(e.transform.y - pt.y, e.transform.x - pt.x),
            );
            e.spinner == Some(Spinner { angle: aim as i64, cooldown: 0 }) && e.physics->Some_0
                == (Physics {
                apply_auto: true,
                dx: 0,
                dy: 0,
                speed: 0,
                angle: aim as i64,
                accel: SPINNER_ACCEL,
                curve: 0,
            })
        },
        None => false,
    })
    &&& e.sprite == Some(
        Sprite {
            texture: Texture::Asteroid,
            scale: sprite_scale(SPINNER_RADIUS as int) as i64,
            color: Color { r: 700, g: 0, b: 0 },
            draw_layer: DRAW_LAYER_ENEMY,
        },
    )
}

/// Accumulate the spinner spawn timer and spawn one spinner, aimed at
/// the player, for each time it exceeds its threshold. Without a live
/// player at most one threshold is consumed and nothing spawns.
#[verifier::rlimit(60)]
#[verifier::loop_isolation(false)]
pub fn spawn_spinners(world: &mut World, game: &mut AsteroidGame, rng: &mut rand::rngs::StdRng)
    requires
        old(world).wf(),
        old(game).wf(),
    ensures
        final(world).wf(),
        final(game).wf(),
        final(world).slots@ == old(world).synced(),
        first_tagged_player(old(world).synced(), 0) is Some ==> *final(game) == (AsteroidGame {
            spinner_timer: drain(
                old(game).spinner_timer + 1,
                SPINNER_SPAWN_THRESHOLD as int,
            ) as i32,
            ..*old(game)
        }),
        first_tagged_player(old(world).synced(), 0) is None ==> final(world).pending@.len() == 0
            && *final(game) == (AsteroidGame {
            spinner_timer: if old(game).spinner_timer + 1 > SPINNER_SPAWN_THRESHOLD {
                (old(game).spinner_timer + 1 - SPINNER_SPAWN_THRESHOLD) as i32
            } else {
                (old(game).spinner_timer + 1) as i32
            },
            ..*old(game)
        }),
        forall|q: int|
            0 <= q < final(world).pending@.len() ==> spinner_spawn_ok(
                old(world).synced(),
                #[trigger] final(world).pending@[q],
            ),
        final(world).pending@.len() <= drain_count(
            old(game).spinner_timer + 1,
            SPINNER_SPAWN_THRESHOLD as int,
        ),
        (first_tagged_player(old(world).synced(), 0) is Some && old(world).synced().len()
            + drain_count(old(game).spinner_timer + 1, SPINNER_SPAWN_THRESHOLD as int)
            <= ENTITY_CAP) ==> final(world).pending@.len() == drain_count(
            old(game).spinner_timer + 1,
            SPINNER_SPAWN_THRESHOLD as int,
        ),
{
    world.sync();
    let ghost s0 = world.slots@;
    let ghost t0 = old(game).spinner_timer + 1;
    let ghost total = drain_count(t0, SPINNER_SPAWN_THRESHOLD as int);
    game.spinner_timer = game.spinner_timer + 1;
    proof {
        lemma_drain_le(t0, SPINNER_SPAWN_THRESHOLD as int);
    }
    // find the player to aim at
    let n = world.slots.len();
    let mut pi: usize = 0;
    while pi < n
        invariant
            pi <= n,
            n == world.slots@.len(),
            first_tagged_player(s0, 0) == first_tagged_player(s0, pi as int),
            world.slots@ == s0,
        decreases n - pi,
    {
        let found = match &world.slots[pi] {
            Some(r) => r.player.is_some(),
            None => false,
        };
        if found {
            break ;
        }
        pi = pi + 1;
    }
    if pi >= n {
        proof {
            assert(first_tagged_player(s0, n as int) is None);
        }
        if game.spinner_timer > SPINNER_SPAWN_THRESHOLD {
            game.spinner_timer = game.spinner_timer - SPINNER_SPAWN_THRESHOLD;
        }
        return ;
    }
    proof {
        assert(first_tagged_player(s0, 0) == Some(pi as int));
    }
    let pt = world.transform(pi as u64);
    while game.spinner_timer > SPINNER_SPAWN_THRESHOLD
        invariant
            world.wf(),
            game.spinner_timer <= t0,
            *game == (AsteroidGame { spinner_timer: game.spinner_timer, ..*old(game) }),
            drain(game.spinner_timer as int, SPINNER_SPAWN_THRESHOLD as int) == drain(
                t0,
                SPINNER_SPAWN_THRESHOLD as int,
            ),
            world.pending@.len() <= total - drain_count(
                game.spinner_timer as int,
                SPINNER_SPAWN_THRESHOLD as int,
            ),
            world.slots@ == s0,
            first_tagged_player(s0, 0) == Some(pi as int),
            pt == s0[pi as int]->Some_0.transform,
            forall|q: int|
                0 <= q < world.pending@.len() ==> spinner_spawn_ok(
                    s0,
                    #[trigger] world.pending@[q],
                ) && world.pending@[q].wf(),
            s0.len() + total <= ENTITY_CAP ==> world.pending@.len() == total - drain_count(
                game.spinner_timer as int,
                SPINNER_SPAWN_THRESHOLD as int,
            ),
        decreases game.spinner_timer,
    {
        let ghost pend_head = world.pending@;
        game.spinner_timer = game.spinner_timer - SPINNER_SPAWN_THRESHOLD;
        let radius = SPINNER_RADIUS;
        let vertical = gen_bool(rng);
        let (x, y): (i64, i64) = if vertical {
            let left = gen_bool(rng);
            (
                if left {
                    WRAP_LEFT - radius
                } else {
                    WRAP_RIGHT + radius
                },
                gen_range_i64(rng, WRAP_TOP_HALF - radius, WRAP_BOTTOM_HALF + radius),
            )
        } else {
            let top = gen_bool(rng);
            (
                gen_range_i64(rng, WRAP_LEFT_HALF - radius, WRAP_RIGHT_HALF + radius),
                if top {
                    WRAP_TOP - radius
                } else {
                    WRAP_BOTTOM + radius
                },
            )
        };
        let transform = Transform::new(x, y);
        proof {
            assert(s0[pi as int]->Some_0.wf());
        }
        let angle = transform.get_angle_to(pt.x, pt.y);
        let sprite = create_sprite(
            Texture::Asteroid,
            radius,
            Color::rgb(700, 0, 0),
            DRAW_LAYER_ENEMY,
        );
        let rec = EntityRecord {
            transform,
            body: CollisionBody::from_sensor(Collider::circle(radius, LAYER_ENEMY, 0)),
            physics: Some(
                Physics {
                    apply_auto: true,
                    dx: 0,
                    dy: 0,
                    speed: 0,
                    angle,
                    accel: SPINNER_ACCEL,
                    curve: 0,
                },
            ),
            health: None,
            bullet: None,
            spinner: Some(Spinner { angle, cooldown: 0 }),
            sprite: Some(sprite),
            player: None,
            asteroid: None,
        };
        proof {
            assert(spinner_spawn_ok(s0, rec));
            assert(rec.wf());
        }
        let have = world.slots.len() + world.pending.len();
        if (have as u64) < ENTITY_CAP {
            world.create_body(rec);
        }
        proof {
            assert forall|q: int|
                0 <= q < world.pending@.len() implies spinner_spawn_ok(
                s0,
                #[trigger] world.pending@[q],
            ) && world.pending@[q].wf() by {
                if q < pend_head.len() {
                    assert(world.pending@[q] == pend_head[q]);
                } else {
                    assert(world.pending@[q] == rec);
                }
            };
        }
    }
    proof {
        assert(drain(game.spinner_timer as int, SPINNER_SPAWN_THRESHOLD as int)
            == game.spinner_timer as int);
    }
}

/// A shooting spinner turns by the per-bullet step once per bullet and
/// rearms its cooldown; a cooling spinner counts down.
pub open spec fn spun(r: EntityRecord) -> EntityRecord {
    match r.spinner {
        Some(sp) => if sp.cooldown > 0 {
            EntityRecord {
                spinner: Some(Spinner { cooldown: (sp.cooldown - 1) as i32, ..sp }),
                ..r
            }
        } else {
            EntityRecord {
                spinner: Some(
                    Spinner {
                        angle: ((sp.angle + 16_000) % (DEG_FULL as int)) as i64,
                        cooldown: SPINNER_SHOT_COOLDOWN,
                    },
                ),
                ..r
            }
        },
        None => r,
    }
}

/// The heading of the `i`-th bullet of a volley from a spinner that was
/// aimed at `a0`: the spinner turns by 4 degrees before each bullet and
/// the volley fans out a quarter turn per bullet.
pub open spec fn spinner_shot_angle(a0: int, i: int) -> int {
    (a0 + 4_000 * (i + 1) + 90_000 * i) % (DEG_FULL as int)
}

/// A slot holding a spinner whose cooldown has expired: it fires this
/// step.
pub open spec fn spinner_ready(o: Option<EntityRecord>) -> bool {
    match o {
        Some(r) => r.spinner is Some && r.spinner->Some_0.cooldown <= 0,
        None => false,
    }
}

/// The `j`-th bullet of the volley a ready spinner `r` fires: at the
/// spinner's position, on the enemy-bullet layer reacting to walls,
/// heading along the `j`-th fan angle of the spinner's aim.
pub open spec fn is_volley_bullet(r: EntityRecord, j: int, e: EntityRecord) -> bool {
    &&& e.transform == r.transform
    &&& e.bullet == Some(
        Bullet { team: Team::Ast, bounces: 0, bounce_limit: BULLET_BOUNCE_LIMIT },
    )
    &&& e.physics == Some(
        Physics {
            apply_auto: true,
            dx: 0,
            dy: 0,
            speed: ENEMY_BULLET_SPEED,
            angle: spinner_shot_angle(r.spinner->Some_0.angle as int, j) as i64,
            accel: 0,
            curve: 0,
        },
    )
    &&& e.body.colliders@.len() == 0
    &&& e.body.sensors@.len() == 1
    &&& e.body.sensors@[0].shape == CollisionShape::Circle(ENEMY_BULLET_RADIUS)
    &&& e.body.sensors@[0].collision_layer == LAYER_BULLET_ENEMY
    &&& e.body.sensors@[0].collides_with == LAYER_WALL
    &&& e.body.sensors@[0].overlapping@.len() == 0
    &&& e.health is None
    &&& e.spinner is None
    &&& e.player is None
    &&& e.asteroid is None
    &&& e.sprite == Some(
        Sprite {
            texture: Texture::Asteroid,
            scale: sprite_scale(ENEMY_BULLET_RADIUS as int) as i64,
            color: Color { r: 800, g: 0, b: 0 },
            draw_layer: DRAW_LAYER_BULLET,
        },
    )
}

/// One bullet of some ready spinner's volley.
pub open spec fn spinner_bullet_ok(s: Seq<Option<EntityRecord>>, e: EntityRecord) -> bool {
    exists|sp: int, i: int|
        #![trigger spinner_shot_angle(s[sp]->Some_0.spinner->Some_0.angle as int, i)]
        {
            &&& 0 <= sp < s.len()
            &&& spinner_ready(s[sp])
            &&& 0 <= i < 4
            &&& is_volley_bullet(s[sp]->Some_0, i, e)
        }
}

/// Four bullets per spinner whose cooldown has expired.
pub open spec fn volley_total_upto(s: Seq<Option<EntityRecord>>, n: int) -> nat
    decreases n when 0 <= n <= s.len()
{
    if n <= 0 {
        0
    } else {
        volley_total_upto(s, n - 1) + (match s[n - 1] {
            Some(r) => match r.spinner {
                Some(sp) => if sp.cooldown <= 0 {
                    4nat
                } else {
                    0
                },
                None => 0,
            },
            None => 0,
        })
    }
}

/// Every spinner whose cooldown has expired turns and fires a fan of
/// four enemy bullets (queued until the next `sync`); the others count
/// their cooldown down.
#[verifier::rlimit(100)]
#[verifier::loop_isolation(false)]
pub fn shoot_spinners(world: &mut World, rng: &mut rand::rngs::StdRng)
    requires
        old(world).wf(),
    ensures
        final(world).wf(),
        final(world).slots@.len() == old(world).synced().len(),
        forall|i: int|
            0 <= i < old(world).synced().len() ==> #[trigger] final(world).slots@[i] == match old(world).synced()[i] {
                Some(r) => Some(spun(r)),
                None => None,
            },
        forall|q: int|
            0 <= q < final(world).pending@.len() ==> spinner_bullet_ok(
                old(world).synced(),
                #[trigger] final(world).pending@[q],
            ),
        final(world).pending@.len() <= volley_total_upto(
            old(world).synced(),
            old(world).synced().len() as int,
        ),
        old(world).synced().len() + volley_total_upto(
            old(world).synced(),
            old(world).synced().len() as int,
        ) <= ENTITY_CAP ==> final(world).pending@.len() == volley_total_upto(
            old(world).synced(),
            old(world).synced().len() as int,
        ),
        old(world).synced().len() + volley_total_upto(
            old(world).synced(),
            old(world).synced().len() as int,
        ) <= ENTITY_CAP ==> (forall|sp: int, j: int|
            0 <= sp < old(world).synced().len() && spinner_ready(old(world).synced()[sp]) && 0
                <= j < 4 ==> is_volley_bullet(
                old(world).synced()[sp]->Some_0,
                j,
                #[trigger] final(world).pending@[volley_total_upto(
                    old(world).synced(),
                    sp,
                ) + j],
            )),
{
    world.sync();
    let ghost s0 = world.slots@;
    let ghost total = volley_total_upto(s0, s0.len() as int);
    let n = world.slots.len();
    let mut a: usize = 0;
    while a < n
        invariant
            world.wf(),
            n == world.slots@.len(),
            world.slots@.len() == s0.len(),
            a <= n,
            forall|i: int| a <= i < n ==> #[trigger] world.slots@[i] == s0[i],
            forall|i: int|
                0 <= i < a ==> #[trigger] world.slots@[i] == match s0[i] {
                    Some(r) => Some(spun(r)),
                    None => None,
                },
            forall|q: int|
                0 <= q < world.pending@.len() ==> spinner_bullet_ok(
                    s0,
                    #[trigger] world.pending@[q],
                ) && world.pending@[q].wf(),
            world.pending@.len() <= volley_total_upto(s0, a as int),
            s0.len() + total <= ENTITY_CAP ==> world.pending@.len() == volley_total_upto(
                s0,
                a as int,
            ),
            s0.len() + total <= ENTITY_CAP ==> (forall|sp: int, j: int|
                0 <= sp < a && spinner_ready(s0[sp]) && 0 <= j < 4 ==> is_volley_bullet(
                    s0[sp]->Some_0,
                    j,
                    #[trigger] world.pending@[volley_total_upto(s0, sp) + j],
                )),
        decreases n - a,
    {
        let ghost w_head = *world;
        let state = match &world.slots[a] {
            Some(r) => match &r.spinner {
                Some(sp) => if sp.cooldown > 0 {
                    1u8
                } else {
                    2u8
                },
                None => 0u8,
            },
            None => 0u8,
        };
        if state > 0 {
            let ghost pend_head = world.pending@;
            let slot = world.slots[a].take();
            match slot {
                Some(mut rec) => {
                    proof {
                        assert(rec == s0[a as int]->Some_0);
                        assert(w_head.at(a as int).wf());
                        assert forall|i: int| world.live(i) implies #[trigger] world.at(
                            i,
                        ).wf() by {
                            assert(w_head.live(i) && world.at(i) == w_head.at(i));
                        };
                    }
                    match rec.spinner {
                        Some(sp) => {
                            if sp.cooldown > 0 {
                                rec.spinner = Some(
                                    Spinner { cooldown: sp.cooldown - 1, ..sp },
                                );
                            } else {
                                let na = norm_deg(sp.angle + 16_000);
                                rec.spinner = Some(
                                    Spinner { angle: na, cooldown: SPINNER_SHOT_COOLDOWN },
                                );
                                proof {
                                    lemma_volley_total_mono(s0, a as int + 1, s0.len() as int);
                                }
                                let mut v: usize = 0;
                                while v < 4
                                    invariant
                                        v <= 4,
                                        world.wf(),
                                        world.slots@ == w_head.slots@.update(a as int, None),
                                        world.pending@.len() >= pend_head.len(),
                                        forall|q: int|
                                            0 <= q < pend_head.len()
                                                ==> #[trigger] world.pending@[q]
                                                == pend_head[q],
                                        forall|q: int|
                                            0 <= q < world.pending@.len()
                                                ==> spinner_bullet_ok(
                                                s0,
                                                #[trigger] world.pending@[q],
                                            ) && world.pending@[q].wf(),
                                        world.pending@.len() <= pend_head.len() + v,
                                        s0.len() + total <= ENTITY_CAP
                                            ==> world.pending@.len() == pend_head.len()
                                            + v,
                                        s0.len() + total <= ENTITY_CAP ==> (forall|j: int|
                                            0 <= j < v ==> is_volley_bullet(
                                                s0[a as int]->Some_0,
                                                j,
                                                #[trigger] world.pending@[pend_head.len()
                                                    + j],
                                            )),
                                    decreases 4 - v,
                                {
                                    let ghost pend_v = world.pending@;
                                    let vi = v as i64;
                                    let bangle = norm_deg(
                                        sp.angle + 4_000 * (vi + 1) + 90_000 * vi,
                                    );
                                    let sprite = create_sprite(
                                        Texture::Asteroid,
                                        ENEMY_BULLET_RADIUS,
                                        Color::rgb(800, 0, 0),
                                        DRAW_LAYER_BULLET,
                                    );
                                    let brec = EntityRecord {
                                        transform: rec.transform,
                                        body: CollisionBody::from_sensor(
                                            Collider::circle(
                                                ENEMY_BULLET_RADIUS,
                                                LAYER_BULLET_ENEMY,
                                                LAYER_WALL,
                                            ),
                                        ),
                                        physics: Some(
                                            Physics {
                                                apply_auto: true,
                                                dx: 0,
                                                dy: 0,
                                                speed: ENEMY_BULLET_SPEED,
                                                angle: bangle,
                                                accel: 0,
                                                curve: 0,
                                            },
                                        ),
                                        health: None,
                                        bullet: Some(Bullet::new(Team::Ast)),
                                        spinner: None,
                                        sprite: Some(sprite),
                                        player: None,
                                        asteroid: None,
                                    };
                                    proof {
                                        assert(bangle == spinner_shot_angle(
                                            sp.angle as int,
                                            vi as int,
                                        ));
                                        assert(s0[a as int]->Some_0.spinner == Some(sp));
                                        assert(spinner_bullet_ok(s0, brec));
                                        assert(brec.wf());
                                    }
                                    let have = world.slots.len() + world.pending.len();
                                    if (have as u64) < ENTITY_CAP {
                                        world.create_body(brec);
                                    }
                                    proof {
                                        assert forall|q: int|
                                            0 <= q < world.pending@.len()
                                                implies spinner_bullet_ok(
                                            s0,
                                            #[trigger] world.pending@[q],
                                        ) && world.pending@[q].wf() by {
                                            if q < pend_v.len() {
                                                assert(world.pending@[q] == pend_v[q]);
                                            } else {
                                                assert(world.pending@[q] == brec);
                                            }
                                        };
                                        assert(is_volley_bullet(
                                            s0[a as int]->Some_0,
                                            vi as int,
                                            brec,
                                        ));
                                        if s0.len() + total <= ENTITY_CAP {
                                            assert(world.pending@[pend_head.len()
                                                + v as int] == brec);
                                            assert forall|j: int|
                                                0 <= j < v + 1 implies is_volley_bullet(
                                                s0[a as int]->Some_0,
                                                j,
                                                #[trigger] world.pending@[pend_head.len()
                                                    + j],
                                            ) by {
                                                if j < v {
                                                    assert(world.pending@[pend_head.len()
                                                        + j] == pend_v[pend_head.len() + j]);
                                                }
                                            };
                                        }
                                    }
                                    v = v + 1;
                                }
                            }
                        },
                        None => {},
                    }
                    world.slots[a] = Some(rec);
                    proof {
                        assert(world.slots@ =~= w_head.slots@.update(a as int, Some(rec)));
                        assert(rec == spun(s0[a as int]->Some_0));
                        assert(rec.wf());
                        assert forall|i: int| world.live(i) implies #[trigger] world.at(
                            i,
                        ).wf() by {
                            if i != a as int {
                                assert(w_head.live(i) && world.at(i) == w_head.at(i));
                            }
                        };
                        if s0.len() + total <= ENTITY_CAP {
                            assert forall|sp: int, j: int|
                                0 <= sp < a + 1 && spinner_ready(s0[sp]) && 0 <= j < 4
                                    implies is_volley_bullet(
                                s0[sp]->Some_0,
                                j,
                                #[trigger] world.pending@[volley_total_upto(s0, sp) + j],
                            ) by {
                                if sp == a as int {
                                    assert(volley_total_upto(s0, sp) == pend_head.len());
                                } else {
                                    assert(volley_total_upto(s0, sp + 1) <= volley_total_upto(
                                        s0,
                                        a as int,
                                    )) by {
                                        lemma_volley_total_mono(s0, sp + 1, a as int);
                                    }
                                    assert(volley_total_upto(s0, sp) + j < pend_head.len());
                                    assert(world.pending@[volley_total_upto(s0, sp) + j]
                                        == pend_head[volley_total_upto(s0, sp) + j]);
                                }
                            };
                        }
                    }
                },
                None => {},
            }
        }
        a = a + 1;
    }
}

/// A prefix of the volley pass fires no more bullets than the whole.
proof fn lemma_volley_total_mono(s: Seq<Option<EntityRecord>>, m: int, n: int)
    requires
        0 <= m <= n <= s.len(),
    ensures
        volley_total_upto(s, m) <= volley_total_upto(s, n),
    decreases n,
{
    if m < n {
        lemma_volley_total_mono(s, m, n - 1);
    }
}

/// The x velocity the directional intents request.
pub open spec fn input_dx(g: AsteroidGame) -> int {
    (if g.move_left {
        -PLAYER_SPEED as int
    } else {
        0
    }) + (if g.move_right {
        PLAYER_SPEED as int
    } else {
        0
    })
}

/// The y velocity the directional intents request (up is negative).
pub open spec fn input_dy(g: AsteroidGame) -> int {
    (if g.move_up {
        -PLAYER_SPEED as int
    } else {
        0
    }) + (if g.move_down {
        PLAYER_SPEED as int
    } else {
        0
    })
}

/// Where a fired bullet appears: ahead of the muzzle along the aim
/// heading by 30 units plus the drawn height offset, shifted sideways
/// along the normalized perpendicular by the drawn column offsets, from
/// the player position, clamped only at the machine position limit.
pub open spec fn bullet_spawn_pos(t: Transform, a: int, d1: int, d2: int, d3: int) -> (
    int,
    int,
) {
    let oh = d3 * 8000;
    let px = tdiv(sin_approx(a) * (oh + 30_000), 1000);
    let py = tdiv(-cos_approx(a) * (oh + 30_000), 1000);
    let k = d1 * 15_000 + d2 * 8000;
    let len = sqrt_floor(px * px + py * py);
    let lx = if px == 0 && py == 0 {
        0
    } else {
        tdiv(py * k, len)
    };
    let ly = if px == 0 && py == 0 {
        0
    } else {
        tdiv(-px * k, len)
    };
    (clamp(t.x + px + lx, POS_LIMIT as int), clamp(t.y + py + ly, POS_LIMIT as int))
}

/// A bullet the player fired with the given draws from position `t`.
pub open spec fn player_bullet_ok(
    e: EntityRecord,
    t: Transform,
    a: int,
    d1: int,
    d2: int,
    d3: int,
) -> bool {
    &&& e.transform.x == bullet_spawn_pos(t, a, d1, d2, d3).0
    &&& e.transform.y == bullet_spawn_pos(t, a, d1, d2, d3).1
    &&& e.physics == Some(
        Physics {
            apply_auto: false,
            dx: 0,
            dy: 0,
            speed: PLAYER_BULLET_SPEED,
            angle: a as i64,
            accel: 0,
            curve: 0,
        },
    )
    &&& e.bullet == Some(
        Bullet { team: Team::Player, bounces: 0, bounce_limit: BULLET_BOUNCE_LIMIT },
    )
    &&& e.body.colliders@.len() == 1
    &&& e.body.colliders@[0].shape == CollisionShape::Circle(PLAYER_BULLET_RADIUS)
    &&& e.body.colliders@[0].collision_layer == LAYER_BULLET_PLAYER
    &&& e.body.colliders@[0].collides_with == LAYER_WALL
    &&& e.body.colliders@[0].overlapping@.len() == 0
    &&& e.body.sensors@.len() == 0
    &&& e.health is None
    &&& e.spinner is None
    &&& e.player is None
    &&& e.asteroid is None
    &&& e.sprite == Some(
        Sprite {
            texture: Texture::Asteroid,
            scale: sprite_scale(PLAYER_BULLET_RADIUS as int) as i64,
            color: Color { r: 20, g: 240, b: 810 },
            draw_layer: DRAW_LAYER_BULLET,
        },
    )
}

/// A bullet fired from `t` along aim `a` with some admissible draws.
pub open spec fn player_bullet_drawn(e: EntityRecord, t: Transform, a: int) -> bool {
    exists|d1: int, d2: int, d3: int|
        -2 <= d1 < 2 && -1 <= d2 < 1 && -1 <= d3 < 1 && #[trigger] player_bullet_ok(
            e,
            t,
            a,
            d1,
            d2,
            d3,
        )
}

/// The store after the player's movement: an empty intent (or one that
/// would leave the machine position range) moves nothing; otherwise the
/// displacement commits exactly when no solid collider blocks it.
pub open spec fn player_moved(s: Seq<Option<EntityRecord>>, pi: int, g: AsteroidGame) -> Seq<
    Option<EntityRecord>,
> {
    let r = s[pi]->Some_0;
    let ddx = input_dx(g);
    let ddy = input_dy(g);
    if ddx == 0 && ddy == 0 {
        s
    } else if !(absi(r.transform.x + ddx) <= POS_LIMIT && absi(r.transform.y + ddy)
        <= POS_LIMIT) {
        s
    } else {
        let target = Transform { x: (r.transform.x + ddx) as i64, y: (r.transform.y + ddy) as i64 };
        if blocking_contacts(geoms(s), pi, target).len() == 0 {
            s.update(pi, Some(EntityRecord { transform: target, ..r }))
        } else {
            s
        }
    }
}

/// Move the player by the input intents with collision response, and
/// fire one bullet from the moved position while the fire intent is
/// held.
#[verifier::rlimit(90)]
#[verifier::loop_isolation(false)]
pub fn player_input(world: &mut World, game: &AsteroidGame, rng: &mut rand::rngs::StdRng)
    requires
        old(world).wf(),
        game.wf(),
    ensures
        final(world).wf(),
        first_tagged_player(old(world).synced(), 0) is None ==> final(world).slots@ == old(world).synced() && final(world).pending@.len() == 0,
        first_tagged_player(old(world).synced(), 0) is Some ==> final(world).slots@
            == player_moved(
            old(world).synced(),
            first_tagged_player(old(world).synced(), 0)->Some_0,
            *game,
        ),
        first_tagged_player(old(world).synced(), 0) is Some && !game.lmb_down ==> final(world).pending@.len() == 0,
        first_tagged_player(old(world).synced(), 0) is Some && game.lmb_down ==> final(world).pending@.len() <= 1,
        first_tagged_player(old(world).synced(), 0) is Some && game.lmb_down && old(
            world,
        ).synced().len() < ENTITY_CAP ==> final(world).pending@.len() == 1,
        first_tagged_player(old(world).synced(), 0) is Some && game.lmb_down ==> (forall|q: int|
            0 <= q < final(world).pending@.len() ==> player_bullet_drawn(
                #[trigger] final(world).pending@[q],
                final(world).slots@[first_tagged_player(old(world).synced(), 0)->Some_0]
                    ->Some_0.transform,
                game.shoot_angle as int,
            )),
{
    world.sync();
    let ghost s0 = world.slots@;
    let n = world.slots.len();
    let mut pi: usize = 0;
    while pi < n
        invariant
            pi <= n,
            n == world.slots@.len(),
            first_tagged_player(s0, 0) == first_tagged_player(s0, pi as int),
            world.slots@ == s0,
        decreases n - pi,
    {
        let found = match &world.slots[pi] {
            Some(r) => r.player.is_some(),
            None => false,
        };
        if found {
            break ;
        }
        pi = pi + 1;
    }
    if pi >= n {
        proof {
            assert(first_tagged_player(s0, n as int) is None);
        }
        return ;
    }
    proof {
        assert(first_tagged_player(s0, 0) == Some(pi as int));
    }
    // movement
    let mut ddx: i64 = 0;
    let mut ddy: i64 = 0;
    if game.move_left {
        ddx = ddx - PLAYER_SPEED;
    }
    if game.move_right {
        ddx = ddx + PLAYER_SPEED;
    }
    if game.move_up {
        ddy = ddy - PLAYER_SPEED;
    }
    if game.move_down {
        ddy = ddy + PLAYER_SPEED;
    }
    proof {
        assert(ddx == input_dx(*game));
        assert(ddy == input_dy(*game));
        assert(world.at(pi as int).wf());
    }
    if !(ddx == 0 && ddy == 0) {
        let t = world.transform(pi as u64);
        let nx = t.x + ddx;
        let ny = t.y + ddy;
        if -POS_LIMIT <= nx && nx <= POS_LIMIT && -POS_LIMIT <= ny && ny <= POS_LIMIT {
            let _ = world.move_body_and_collide(pi as u64, ddx, ddy);
            proof {
                assert(world.slots@ == player_moved(s0, pi as int, *game));
            }
        } else {
            proof {
                assert(world.slots@ == player_moved(s0, pi as int, *game));
            }
        }
    } else {
        proof {
            assert(world.slots@ == player_moved(s0, pi as int, *game));
        }
    }
    // firing
    if game.lmb_down {
        let t1 = world.transform(pi as u64);
        let rec = make_player_bullet(t1, game.shoot_angle, rng);
        let have = world.slots.len() + world.pending.len();
        if (have as u64) < ENTITY_CAP {
            world.create_body(rec);
        }
        proof {
            assert(s0 == old(world).synced());
            assert(first_tagged_player(old(world).synced(), 0)->Some_0 == pi as int);
            let tgt = world.slots@[first_tagged_player(old(world).synced(), 0)->Some_0]
                ->Some_0.transform;
            assert(t1 == tgt);
            let (e1, e2, e3): (int, int, int) = choose|e1: int, e2: int, e3: int|
                -2 <= e1 < 2 && -1 <= e2 < 1 && -1 <= e3 < 1 && #[trigger] player_bullet_ok(
                    rec,
                    t1,
                    game.shoot_angle as int,
                    e1,
                    e2,
                    e3,
                );
            assert(player_bullet_drawn(rec, tgt, game.shoot_angle as int)) by {
                assert(player_bullet_ok(rec, tgt, game.shoot_angle as int, e1, e2, e3));
            }
            assert forall|q: int|
                0 <= q < world.pending@.len() implies player_bullet_drawn(
                #[trigger] world.pending@[q],
                tgt,
                game.shoot_angle as int,
            ) by {
                assert(world.pending@[q] == rec);
            };
        }
    }
}

/// Build one player bullet fired from `t1` along the aim heading, with
/// the three positional draws.
#[verifier::rlimit(90)]
fn make_player_bullet(t1: Transform, aim: i64, rng: &mut rand::rngs::StdRng) -> (rec:
    EntityRecord)
    requires
        t1.wf(),
        0 <= aim < DEG_FULL,
    ensures
        rec.wf(),
        player_bullet_drawn(rec, t1, aim as int),
{
    {
        let d1 = gen_range_i64(rng, -2, 2);
        let d2 = gen_range_i64(rng, -1, 1);
        let d3 = gen_range_i64(rng, -1, 1);
        let oh = d3 * 8000;
        let sa = sin_mdeg(aim);
        let ca = cos_mdeg(aim);
        let px = mul_tdiv(sa, oh + 30_000, 1000);
        let py = mul_tdiv(-ca, oh + 30_000, 1000);
        proof {
            lemma_mul_bound(sa as int, oh + 30_000, 1000, 30_000);
            lemma_mul_bound(-(ca as int), oh + 30_000, 1000, 30_000);
            lemma_tdiv_bound(sa as int * (oh + 30_000), 1000, 30_000);
            lemma_tdiv_bound(-(ca as int) * (oh + 30_000), 1000, 30_000);
            lemma_mul_bound(px as int, px as int, 30_000, 30_000);
            lemma_mul_bound(py as int, py as int, 30_000, 30_000);
            assert(px as int * px as int >= 0 && py as int * py as int >= 0) by (nonlinear_arith) {
            }
        }
        let l2: u64 = ((px as i128 * px as i128) + (py as i128 * py as i128)) as u64;
        let len = isqrt64(l2);
        let k = d1 * 15_000 + d2 * 8000;
        let (lx, ly): (i64, i64) = if px == 0 && py == 0 {
            (0, 0)
        } else {
            proof {
                assert(px as int * px as int + py as int * py as int >= 1) by (nonlinear_arith)
                    requires
                        !(px == 0 && py == 0),
                {
                }
                assert(l2 >= 1);
                assert(len as int >= 1) by (nonlinear_arith)
                    requires
                        l2 as int >= 1,
                        (l2 as int) < (len as int + 1) * (len as int + 1),
                        len as int >= 0,
                {
                }
                assert(1_140_000_000 * (len as int) >= 1_140_000_000) by (nonlinear_arith)
                    requires
                        len >= 1,
                {
                }
                lemma_mul_bound(py as int, k as int, 30_000, 38_000);
                lemma_mul_bound(-(px as int), k as int, 30_000, 38_000);
                lemma_tdiv_bound(py as int * k as int, len as int, 1_140_000_000);
                lemma_tdiv_bound(-(px as int) * k as int, len as int, 1_140_000_000);
            }
            (mul_tdiv(py, k, len as i64), mul_tdiv(-px, k, len as i64))
        };
        let bx = clamp128(t1.x as i128 + px as i128 + lx as i128, POS_LIMIT);
        let by = clamp128(t1.y as i128 + py as i128 + ly as i128, POS_LIMIT);
        proof {
            assert(bx as int == bullet_spawn_pos(
                t1,
                aim as int,
                d1 as int,
                d2 as int,
                d3 as int,
            ).0);
            assert(by as int == bullet_spawn_pos(
                t1,
                aim as int,
                d1 as int,
                d2 as int,
                d3 as int,
            ).1);
        }
        let sprite = create_sprite(
            Texture::Asteroid,
            PLAYER_BULLET_RADIUS,
            Color::rgb(20, 240, 810),
            DRAW_LAYER_BULLET,
        );
        let rec = EntityRecord {
            transform: Transform { x: bx, y: by },
            body: CollisionBody::from_collider(
                Collider::circle(PLAYER_BULLET_RADIUS, LAYER_BULLET_PLAYER, LAYER_WALL),
            ),
            physics: Some(
                Physics {
                    apply_auto: false,
                    dx: 0,
                    dy: 0,
                    speed: PLAYER_BULLET_SPEED,
                    angle: aim,
                    accel: 0,
                    curve: 0,
                },
            ),
            health: None,
            bullet: Some(Bullet::new(Team::Player)),
            spinner: None,
            sprite: Some(sprite),
            player: None,
            asteroid: None,
        };
        proof {
            assert(player_bullet_ok(rec, t1, aim as int, d1 as int, d2 as int, d3 as int));
            assert(player_bullet_drawn(rec, t1, aim as int));
            assert(rec.wf());
        }
        rec
    }
}

/// One round of "tick the window, then take a hit whenever vulnerable":
/// the invulnerability counter steps down, and the damage pass lands a
/// hit exactly when the window has closed, restarting it.
pub open spec fn pounded(h: Health) -> Health {
    let h1 = ticked(h);
    if h1.iframe_count > 0 {
        h1
    } else {
        Health { hp: hp_hit(h1.hp) as i32, iframe_count: h1.iframe_max, ..h1 }
    }
}

pub open spec fn pounded_n(h: Health, n: nat) -> Health
    decreases n,
{
    if n == 0 {
        h
    } else {
        pounded(pounded_n(h, (n - 1) as nat))
    }
}

/// While the player is invulnerable, the damage pass changes nothing at
/// all.
pub proof fn lemma_invulnerable_player_untouched(s: Seq<Option<EntityRecord>>)
    requires
        match find_player_from(s, 0) {
            Some(i) => s[i]->Some_0.health->Some_0.iframe_count > 0,
            None => true,
        },
    ensures
        player_damage_post(s) == s,
{
}

/// After a hit restarts the window at its maximum, no further hit point
/// is lost for the next `iframe_max - 1` rounds, even under continuous
/// damaging overlap; the counter steps down by one per round.
pub proof fn lemma_invulnerability_window(h: Health, k: nat)
    requires
        h.iframe_count == h.iframe_max,
        k < h.iframe_max,
    ensures
        pounded_n(h, k).hp == h.hp,
        pounded_n(h, k).iframe_count == h.iframe_max - k,
        pounded_n(h, k).iframe_max == h.iframe_max,
        pounded_n(h, k).max == h.max,
    decreases k,
{
    if k > 0 {
        lemma_invulnerability_window(h, (k - 1) as nat);
    }
}

/// On the round that closes the window the next hit lands: exactly one
/// hit point is lost after exactly the configured cooldown, and the
/// window restarts.
pub proof fn lemma_damage_after_window(h: Health)
    requires
        h.iframe_count == h.iframe_max,
        h.iframe_max >= 1,
    ensures
        pounded_n(h, h.iframe_max as nat).hp == hp_hit(h.hp),
        pounded_n(h, h.iframe_max as nat).iframe_count == h.iframe_max,
{
    lemma_invulnerability_window(h, (h.iframe_max - 1) as nat);
}

} // verus!
