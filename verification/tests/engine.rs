// Tests for the fixed-point arithmetic, trigonometry, geometry and the
// spatial store.

use asteroid::fixed::{tdiv64, sat_add, isqrt64, mul_tdiv};
use asteroid::trig::{sin_mdeg, cos_mdeg, atan2_mdeg, norm_deg, aim_angle};
use asteroid::physics::{
    Transform, CollisionShape, Collider, Collision, CollisionBody, circle_overlaps_circle,
    shape_overlaps_shape,
};
use asteroid::world::{EntityRecord, World};
use asteroid::systems::{reflect, wrap_body, destroy_offscreen, iframe_counter};
use asteroid::components::{Physics, Health, Sprite, Color, Texture, create_sprite};
use asteroid::consts::{LAYER_ASTEROID, LAYER_BULLET_PLAYER};

fn bare_record(x: i64, y: i64, body: CollisionBody) -> EntityRecord {
    EntityRecord {
        transform: Transform { x, y },
        body,
        physics: None,
        health: None,
        bullet: None,
        spinner: None,
        sprite: None,
        player: None,
        asteroid: None,
    }
}

#[test]
fn truncating_division_rounds_toward_zero() {
    assert_eq!(tdiv64(7, 2), 3);
    assert_eq!(tdiv64(-7, 2), -3);
    assert_eq!(tdiv64(0, 5), 0);
    assert_eq!(mul_tdiv(100_000, 2, 3), 66_666);
}

#[test]
fn saturating_add_pins_at_limit() {
    assert_eq!(sat_add(5, 7, 100), 12);
    assert_eq!(sat_add(90, 20, 100), 100);
    assert_eq!(sat_add(-90, -20, 100), -100);
}

#[test]
fn integer_square_root() {
    assert_eq!(isqrt64(0), 0);
    assert_eq!(isqrt64(1), 1);
    assert_eq!(isqrt64(10), 3);
    assert_eq!(isqrt64(144), 12);
    assert_eq!(isqrt64(u64::MAX), 0xFFFF_FFFF);
}

#[test]
fn sine_exact_at_quarters() {
    assert_eq!(sin_mdeg(0), 0);
    assert_eq!(sin_mdeg(90_000), 1000);
    assert_eq!(sin_mdeg(180_000), 0);
    assert_eq!(sin_mdeg(270_000), -1000);
    assert_eq!(cos_mdeg(0), 1000);
    assert_eq!(cos_mdeg(180_000), -1000);
    // periodic
    assert_eq!(sin_mdeg(360_000 + 90_000), 1000);
    assert_eq!(sin_mdeg(-90_000), -1000);
}

#[test]
fn arctangent_exact_at_axes_and_diagonals() {
    assert_eq!(atan2_mdeg(0, 1000), 0);
    assert_eq!(atan2_mdeg(1000, 0), 90_000);
    assert_eq!(atan2_mdeg(0, -1000), 180_000);
    assert_eq!(atan2_mdeg(-1000, 0), -90_000);
    assert_eq!(atan2_mdeg(1000, 1000), 45_000);
    assert_eq!(atan2_mdeg(0, 0), 0);
}

#[test]
fn angle_normalization_convention() {
    assert_eq!(norm_deg(-90_000), 270_000);
    assert_eq!(norm_deg(720_000), 0);
    // non-negative raw angles shift by 270 degrees, negative by 630
    assert_eq!(aim_angle(0), 270_000);
    assert_eq!(aim_angle(180_000), 90_000);
    assert_eq!(aim_angle(-90_000), 180_000);
}

#[test]
fn aim_angle_matches_heading_convention() {
    // a target straight to the right is reached with heading 90 degrees
    let t = Transform::new(0, 0);
    assert_eq!(t.get_angle_to(1000, 0), 90_000);
    // spawn far on the left aiming at the origin: heading 90 (rightward)
    let s = Transform::new(-1_340_000, 0);
    assert_eq!(s.get_angle_to(0, 0), 90_000);
}

#[test]
fn circle_overlap_is_symmetric_and_exact() {
    let a = Transform::new(0, 0);
    let b = Transform::new(5_000, 0);
    // the test is strict: circles that merely touch do not overlap
    assert!(!circle_overlaps_circle(&a, 2_000, &b, 3_000));
    assert!(!circle_overlaps_circle(&b, 3_000, &a, 2_000));
    assert!(circle_overlaps_circle(&a, 2_000, &b, 3_001));
    assert!(circle_overlaps_circle(&b, 3_001, &a, 2_000));
    assert!(!circle_overlaps_circle(&a, 2_000, &b, 2_999));
}

#[test]
fn circle_against_box_overlap() {
    let c = Transform::new(0, 0);
    let circle = CollisionShape::Circle(10_000);
    let rect = CollisionShape::Rect(20_000, 5_000);
    // nearest box point exactly on the circle edge: no overlap (strict)
    let touching = Transform::new(30_000, 0);
    assert!(!shape_overlaps_shape(&c, &circle, &touching, &rect));
    assert!(!shape_overlaps_shape(&touching, &rect, &c, &circle));
    // nearest box point strictly inside the circle
    let near = Transform::new(29_000, 0);
    assert!(shape_overlaps_shape(&c, &circle, &near, &rect));
    assert!(shape_overlaps_shape(&near, &rect, &c, &circle));
    let far = Transform::new(31_000, 0);
    assert!(!shape_overlaps_shape(&c, &circle, &far, &rect));
}

#[test]
fn move_body_is_exact() {
    let mut w = World::new();
    let rec = bare_record(10, -20, CollisionBody::from_sensor(Collider::circle(1000, 1, 0)));
    let id = w.create_body(rec);
    w.sync();
    w.move_body(id, 7, -13);
    let t = w.transform(id);
    assert_eq!(t.x, 17);
    assert_eq!(t.y, -33);
}

#[test]
fn identifiers_are_never_reused() {
    let mut w = World::new();
    let a = w.create_body(bare_record(0, 0, CollisionBody::from_sensor(Collider::circle(1, 1, 0))));
    w.sync();
    w.destroy(a);
    let b = w.create_body(bare_record(0, 0, CollisionBody::from_sensor(Collider::circle(1, 1, 0))));
    w.sync();
    assert_ne!(a, b);
    assert!(w.slots[a as usize].is_none());
    assert!(w.slots[b as usize].is_some());
}

#[test]
fn wrap_teleports_once_and_lands_inside() {
    let mut w = World::new();
    // sensor half width 10_000; right wrap margin is 1_330_000
    let rec = bare_record(
        1_335_000,
        0,
        CollisionBody::from_sensor(Collider::circle(10_000, LAYER_ASTEROID, 0)),
    );
    let id = w.create_body(rec);
    w.sync();
    wrap_body(&mut w, id);
    let t = w.transform(id);
    assert_eq!(t.x, -1_315_000);
    assert_eq!(t.y, 0);
    // wrapping again in the same tick must not move it
    wrap_body(&mut w, id);
    let t2 = w.transform(id);
    assert_eq!(t2.x, -1_315_000);
    assert_eq!(t2.y, 0);
}

#[test]
fn offscreen_entities_are_destroyed() {
    let mut w = World::new();
    let near = w.create_body(bare_record(1_999_999, 0, CollisionBody::from_sensor(Collider::circle(1, 1, 0))));
    let far = w.create_body(bare_record(2_000_001, 0, CollisionBody::from_sensor(Collider::circle(1, 1, 0))));
    destroy_offscreen(&mut w);
    assert!(w.slots[near as usize].is_some());
    assert!(w.slots[far as usize].is_none());
}

#[test]
fn iframe_counter_ticks_down_to_zero() {
    let mut w = World::new();
    let mut rec = bare_record(0, 0, CollisionBody::from_sensor(Collider::circle(1, 1, 0)));
    rec.health = Some(Health { max: 3, hp: 3, iframe_count: 2, iframe_max: 20, iframe_col: None });
    let id = w.create_body(rec);
    w.sync();
    iframe_counter(&mut w);
    assert_eq!(w.slots[id as usize].as_ref().unwrap().health.unwrap().iframe_count, 1);
    iframe_counter(&mut w);
    assert_eq!(w.slots[id as usize].as_ref().unwrap().health.unwrap().iframe_count, 0);
    iframe_counter(&mut w);
    assert_eq!(w.slots[id as usize].as_ref().unwrap().health.unwrap().iframe_count, 0);
}

#[test]
fn reflection_reverses_a_head_on_bounce() {
    // velocity (10_000, 0) against normal (-15_000, 0)
    let r = reflect(10_000, 0, -15_000, 0);
    assert_eq!(r, (-10_000, 0));
    // a 45 degree bounce off a vertical face flips only the x part
    let r2 = reflect(10_000, 10_000, -15_000, 0);
    assert_eq!(r2, (-10_000, 10_000));
}

#[test]
fn sprite_scale_follows_radius() {
    let s = create_sprite(Texture::Asteroid, 100_000, Color::rgb(300, 300, 300), 2);
    assert_eq!(s.scale, 195);
    assert_eq!(s.color, Color { r: 300, g: 300, b: 300 });
}

#[test]
fn collision_record_construction() {
    let c = Collision::new(
        1,
        2,
        CollisionShape::Circle(5),
        1,
        2,
        CollisionShape::Circle(7),
        4,
        8,
        Transform::new(0, 0),
        Transform::new(1, 1),
        3,
        4,
    );
    assert_eq!(c.entity1, 1);
    assert_eq!(c.entity2, 2);
    assert_eq!(c.collision_layer2, 4);
    assert_eq!(c.normal_x, 3);
}

#[test]
fn bounded_draw_is_in_range() {
    let mut rng = <rand::rngs::StdRng as rand::SeedableRng>::seed_from_u64(42);
    for _ in 0..100 {
        let v = asteroid::rng::gen_range_i64(&mut rng, -5, 5);
        assert!((-5..5).contains(&v));
    }
    // a one-element range pins the draw: it cannot echo an argument back
    assert_eq!(asteroid::rng::gen_range_i64(&mut rng, 41, 42), 41);
}

#[test]
fn physics_default_is_at_rest() {
    let p = Physics::default();
    assert!(p.apply_auto);
    assert_eq!((p.dx, p.dy, p.speed, p.angle, p.accel, p.curve), (0, 0, 0, 0, 0, 0));
    let s: Sprite = create_sprite(Texture::Square, 0, Color::red(), 0);
    assert_eq!(s.scale, 0);
}
