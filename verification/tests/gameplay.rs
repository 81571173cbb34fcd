// Scenario tests for the gameplay systems: detection with layer masks,
// asteroid splitting, bullet lifecycle and player damage.

use asteroid::components::{
    Asteroid, Bullet, Color, Health, Physics, Player, Spinner, Team, Texture, create_sprite,
};
use asteroid::consts::{
    DRAW_LAYER_ASTEROID, LAYER_ASTEROID, LAYER_BULLET_PLAYER, LAYER_ENEMY, LAYER_WALL,
};
use asteroid::detect::collision_system;
use asteroid::game::{new_game, player_is_dead, tick, AsteroidGame};
use asteroid::physics::{Collider, CollisionBody, CollisionShape, Transform};
use asteroid::systems::{
    apply_physics, asteroid_damage, destroy_bullets, iframe_counter, move_player_bullets,
    player_damage, shoot_spinners, spawn_asteroids,
};
use asteroid::world::{EntityRecord, World};
use rand::SeedableRng;

fn rng() -> rand::rngs::StdRng {
    rand::rngs::StdRng::seed_from_u64(7)
}

fn record(x: i64, y: i64, body: CollisionBody) -> EntityRecord {
    EntityRecord {
        transform: Transform { x, y },
        body,
        physics: None,
        health: None,
        bullet: None,
        spinner: None,
        sprite: None,
        player: None,
        asteroid: None,
    }
}

fn asteroid_at(x: i64, y: i64, radius: i64) -> EntityRecord {
    let mut r = record(
        x,
        y,
        CollisionBody::from_sensor(Collider::circle(radius, LAYER_ASTEROID, LAYER_BULLET_PLAYER)),
    );
    r.physics = Some(Physics { speed: 5_000, angle: 0, ..Physics::default() });
    r.sprite = Some(create_sprite(
        Texture::Asteroid,
        radius,
        Color::rgb(300, 300, 300),
        DRAW_LAYER_ASTEROID,
    ));
    r.asteroid = Some(Asteroid);
    r
}

fn player_bullet_at(x: i64, y: i64) -> EntityRecord {
    let mut r = record(
        x,
        y,
        CollisionBody::from_collider(Collider::circle(20_000, LAYER_BULLET_PLAYER, LAYER_WALL)),
    );
    r.physics = Some(Physics { apply_auto: false, speed: 15_000, ..Physics::default() });
    r.bullet = Some(Bullet::new(Team::Player));
    r
}

fn sensor0(w: &World, id: u64) -> &Collider {
    &w.slots[id as usize].as_ref().unwrap().body.sensors[0]
}

#[test]
fn detection_respects_layer_masks() {
    let mut w = World::new();
    // asteroid reacts to player bullets; the bullet's collider reacts
    // only to walls, so only the asteroid records the overlap
    let a = w.create_body(asteroid_at(0, 0, 100_000));
    let b = w.create_body(player_bullet_at(50_000, 0));
    w.sync();
    collision_system(&mut w);
    assert_eq!(sensor0(&w, a).overlapping.len(), 1);
    let rec = sensor0(&w, a).overlapping[0];
    assert_eq!(rec.entity2, b);
    assert!(rec.collision_layer2 & LAYER_BULLET_PLAYER > 0);
    let bullet_col = &w.slots[b as usize].as_ref().unwrap().body.colliders[0];
    assert_eq!(bullet_col.overlapping.len(), 0);
}

#[test]
fn detection_is_mutual_when_both_masks_match() {
    let mut w = World::new();
    let a = w.create_body(record(
        0,
        0,
        CollisionBody::from_sensor(Collider::circle(10_000, LAYER_ASTEROID, LAYER_ENEMY)),
    ));
    let b = w.create_body(record(
        5_000,
        0,
        CollisionBody::from_sensor(Collider::circle(10_000, LAYER_ENEMY, LAYER_ASTEROID)),
    ));
    w.sync();
    collision_system(&mut w);
    assert_eq!(sensor0(&w, a).overlapping.len(), 1);
    assert_eq!(sensor0(&w, b).overlapping.len(), 1);
    // lists are fully replaced each step, never appended to
    collision_system(&mut w);
    assert_eq!(sensor0(&w, a).overlapping.len(), 1);
    let mut lone = World::new();
    let c = lone.create_body(record(
        0,
        0,
        CollisionBody::from_sensor(Collider::circle(10_000, LAYER_ASTEROID, LAYER_ENEMY)),
    ));
    lone.sync();
    collision_system(&mut lone);
    assert_eq!(sensor0(&lone, c).overlapping.len(), 0);
}

#[test]
fn asteroid_split_shrinks_parent_and_child() {
    let mut w = World::new();
    let a = w.create_body(asteroid_at(0, 0, 100_000));
    let b = w.create_body(player_bullet_at(50_000, 0));
    w.sync();
    collision_system(&mut w);
    let mut r = rng();
    asteroid_damage(&mut w, &mut r);
    // the parent shrank from 100 to about 66.67 units
    match sensor0(&w, a).shape {
        CollisionShape::Circle(radius) => assert_eq!(radius, 66_666),
        _ => panic!("asteroid sensor must stay a circle"),
    }
    // one sibling was queued, at the same position and radius
    assert_eq!(w.pending.len(), 1);
    let child = &w.pending[0];
    assert!(child.asteroid.is_some());
    assert_eq!(child.transform, Transform { x: 0, y: 0 });
    match child.body.sensors[0].shape {
        CollisionShape::Circle(radius) => assert_eq!(radius, 66_666),
        _ => panic!("sibling sensor must be a circle"),
    }
    // the bullet that hit is destroyed
    assert!(w.slots[b as usize].is_none());
    // headings diverge from the impact angle (270 degrees: the bullet
    // sits to the right of the asteroid) in opposite rotational bias
    let impact = 270_000;
    let parent_angle = w.slots[a as usize].as_ref().unwrap().physics.unwrap().angle;
    let child_angle = child.physics.unwrap().angle;
    let plus = (child_angle - impact).rem_euclid(360_000);
    assert!(plus < 140_000);
    let minus = (impact - parent_angle).rem_euclid(360_000);
    assert!(minus < 140_000);
}

#[test]
fn small_asteroid_shatters_without_a_child() {
    let mut w = World::new();
    let a = w.create_body(asteroid_at(0, 0, 20_000));
    let b = w.create_body(player_bullet_at(10_000, 0));
    w.sync();
    collision_system(&mut w);
    let mut r = rng();
    asteroid_damage(&mut w, &mut r);
    // 20 / 1.5 is about 13.3, below the minimum radius of 15
    assert!(w.slots[a as usize].is_none());
    assert!(w.slots[b as usize].is_none());
    assert_eq!(w.pending.len(), 0);
}

#[test]
fn repeated_splits_reach_destruction() {
    // 100 -> 66.666 -> 44.444 -> 29.629 -> 19.752 -> 13.168 < 15
    let mut radius: i64 = 100_000;
    let mut splits = 0;
    while radius >= 15_000 {
        let next = radius * 2 / 3;
        assert!(next < radius);
        radius = next;
        splits += 1;
    }
    assert_eq!(splits, 5);
    assert_eq!(radius, 13_168);
}

#[test]
fn bullet_bounces_exactly_to_its_limit() {
    let mut w = World::new();
    // a bullet moving right into a solid wall face
    let mut bullet = player_bullet_at(0, 0);
    bullet.physics = Some(Physics {
        apply_auto: false,
        dx: 10_000,
        ..Physics::default()
    });
    let b = w.create_body(bullet);
    let wall = record(
        40_000,
        0,
        CollisionBody::from_collider(Collider::half_extents(15_000, 400_000, LAYER_WALL, 0)),
    );
    w.create_body(wall);
    w.sync();
    let mut bounces_seen = Vec::new();
    for _ in 0..4 {
        move_player_bullets(&mut w);
        destroy_bullets(&mut w);
        match &w.slots[b as usize] {
            Some(r) => {
                let bl = r.bullet.unwrap();
                bounces_seen.push(bl.bounces);
                // keep it heading into the wall for the next contact
                let mut r2 = r.clone();
                let mut p = r2.physics.unwrap();
                p.dx = 10_000;
                p.dy = 0;
                r2.physics = Some(p);
                w.slots[b as usize] = Some(r2);
            },
            None => bounces_seen.push(u32::MAX),
        }
    }
    // three bounces survive; the fourth contact destroys the bullet
    assert_eq!(bounces_seen, vec![1, 2, 3, u32::MAX]);
}

#[test]
fn player_damage_honors_invulnerability_window() {
    let mut w = World::new();
    let mut player = record(
        0,
        0,
        CollisionBody::from_parts(
            vec![],
            vec![Collider::half_extents(10_000, 10_000, 1, LAYER_ASTEROID)],
        ),
    );
    player.health = Some(Health::new(3, 20, Some(Color::red())));
    player.sprite = Some(create_sprite(Texture::Square, 10_000, Color::rgb(0, 1000, 0), 0));
    player.player = Some(Player);
    let p = w.create_body(player);
    // an asteroid permanently overlapping the player
    w.create_body(asteroid_at(0, 0, 50_000));
    w.sync();

    let hp = |w: &World| match &w.slots[p as usize] {
        Some(r) => r.health.unwrap().hp,
        None => i32::MIN,
    };
    // first hit
    collision_system(&mut w);
    player_damage(&mut w);
    assert_eq!(hp(&w), 2);
    // under continuous overlap, no further decrement while the window
    // is open: 20 rounds leave hit points untouched
    for _ in 0..20 {
        iframe_counter(&mut w);
        collision_system(&mut w);
        player_damage(&mut w);
        assert!(hp(&w) >= 1);
    }
    // the 21st round closes the window: second hit
    assert_eq!(hp(&w), 1);
    for _ in 0..21 {
        iframe_counter(&mut w);
        collision_system(&mut w);
        player_damage(&mut w);
    }
    // third hit at zero hit points destroys the player
    assert!(w.slots[p as usize].is_none());
    assert!(player_is_dead(&w));
}

#[test]
fn spawn_timer_releases_accumulated_spawns() {
    let mut w = World::new();
    let mut game = AsteroidGame::new(100, 0);
    let mut r = rng();
    spawn_asteroids(&mut w, &mut game, &mut r);
    // 101 drains to 1 in four steps of 25
    assert_eq!(game.asteroid_timer, 1);
    assert_eq!(w.pending.len(), 4);
    for e in w.pending.iter() {
        assert!(e.asteroid.is_some());
        match e.body.sensors[0].shape {
            CollisionShape::Circle(radius) => {
                assert!((40_000..100_000).contains(&radius));
            },
            _ => panic!("asteroids are circles"),
        }
        let p = e.physics.unwrap();
        assert!((5_000..10_000).contains(&p.speed));
        assert!((0..360_000).contains(&p.angle));
    }
    let mut idle = AsteroidGame::new(3, 0);
    let mut w2 = World::new();
    spawn_asteroids(&mut w2, &mut idle, &mut r);
    assert_eq!(idle.asteroid_timer, 4);
    assert_eq!(w2.pending.len(), 0);
}

#[test]
fn spinner_volley_fans_out() {
    let mut w = World::new();
    let mut spinner = record(
        0,
        0,
        CollisionBody::from_sensor(Collider::circle(20_000, LAYER_ENEMY, 0)),
    );
    spinner.spinner = Some(Spinner { angle: 0, cooldown: 0 });
    spinner.physics = Some(Physics::default());
    let s = w.create_body(spinner);
    w.sync();
    let mut r = rng();
    shoot_spinners(&mut w, &mut r);
    let sp = w.slots[s as usize].as_ref().unwrap().spinner.unwrap();
    assert_eq!(sp.cooldown, 4);
    assert_eq!(sp.angle, 16_000);
    assert_eq!(w.pending.len(), 4);
    let angles: Vec<i64> = w.pending.iter().map(|e| e.physics.unwrap().angle).collect();
    assert_eq!(angles, vec![4_000, 98_000, 192_000, 286_000]);
    for e in w.pending.iter() {
        assert_eq!(e.bullet.unwrap().team, Team::Ast);
        assert_eq!(e.physics.unwrap().speed, 3_000);
    }
    // cooling down the next step
    let mut w2 = World::new();
    let mut cooling = record(0, 0, CollisionBody::from_sensor(Collider::circle(20_000, LAYER_ENEMY, 0)));
    cooling.spinner = Some(Spinner { angle: 0, cooldown: 4 });
    let c = w2.create_body(cooling);
    w2.sync();
    shoot_spinners(&mut w2, &mut r);
    assert_eq!(w2.slots[c as usize].as_ref().unwrap().spinner.unwrap().cooldown, 3);
    assert_eq!(w2.pending.len(), 0);
}

#[test]
fn new_game_builds_player_and_walls() {
    let (w, game) = new_game();
    assert_eq!(w.slots.len(), 5);
    assert_eq!(game.asteroid_timer, 50);
    let player = w.slots[0].as_ref().unwrap();
    assert!(player.player.is_some());
    assert_eq!(player.health.unwrap().hp, 3);
    assert_eq!(player.health.unwrap().iframe_max, 20);
    for i in 1..5 {
        let wall = w.slots[i].as_ref().unwrap();
        assert_eq!(wall.body.colliders[0].collision_layer, LAYER_WALL);
    }
    assert!(!player_is_dead(&w));
}

#[test]
fn ticks_run_and_keep_the_player_alive_at_first() {
    let (mut w, mut game) = new_game();
    let mut r = rng();
    for _ in 0..10 {
        let alive = tick(&mut w, &mut game, &mut r);
        assert!(alive);
    }
    // the spawn timers have released asteroids into the world
    let asteroids = w.slots.iter().filter(|s| match s {
        Some(rec) => rec.asteroid.is_some(),
        None => false,
    }).count();
    assert!(asteroids > 0);
}

#[test]
fn free_movement_integrates_heading() {
    let mut w = World::new();
    let mut rec = record(0, 0, CollisionBody::from_sensor(Collider::circle(1_000, 1, 0)));
    // heading 90 degrees moves right at the stepped speed
    rec.physics = Some(Physics { speed: 5_000, angle: 90_000, ..Physics::default() });
    let id = w.create_body(rec);
    apply_physics(&mut w);
    let t = w.slots[id as usize].as_ref().unwrap().transform;
    assert_eq!(t, Transform { x: 5_000, y: 0 });
    // heading 0 moves up (negative y)
    let mut w2 = World::new();
    let mut rec2 = record(0, 0, CollisionBody::from_sensor(Collider::circle(1_000, 1, 0)));
    rec2.physics = Some(Physics { speed: 5_000, angle: 0, accel: 1_000, ..Physics::default() });
    let id2 = w2.create_body(rec2);
    apply_physics(&mut w2);
    let t2 = w2.slots[id2 as usize].as_ref().unwrap().transform;
    // the acceleration applies before the move: speed 6_000
    assert_eq!(t2, Transform { x: 0, y: -6_000 });
}
