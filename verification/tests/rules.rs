use platformer::components::{Archetype, Collidable, Player, Position, Velocity};
use platformer::input::{handle_input, steer, Key};
use platformer::systems::logic::{judge, judge_bodies};
use platformer::systems::{CollectibleSystem, LogicSystem};
use platformer::world::{archetype_of, entities, flush, is_live, new_world, spawn};

fn blank() -> Archetype {
    Archetype {
        position: None,
        velocity: None,
        renderable: None,
        collidable: None,
        player: None,
        health: None,
        lifetime: None,
        emitter: None,
        enemy: false,
        platform: false,
        gravity: false,
        grounded: false,
        collectible: false,
        goal: false,
    }
}

fn hero(x: i32, y: i32, vx: i32, vy: i32, score: i32) -> Archetype {
    Archetype {
        position: Some(Position { x, y }),
        velocity: Some(Velocity { x: vx, y: vy }),
        player: Some(Player { speed: 200_000, jump_force: 500_000, score }),
        ..blank()
    }
}

fn round(x: i32, y: i32, radius: i32) -> Archetype {
    Archetype {
        position: Some(Position { x, y }),
        collidable: Some(Collidable { radius }),
        ..blank()
    }
}

#[test]
fn fallen_player_is_reset() {
    let r = judge(hero(640_000, 700_001, 33, 900_000, 40));
    assert_eq!(r, hero(100_000, 100_000, 0, 0, 0));
}

#[test]
fn player_at_the_limit_is_not_reset() {
    let a = hero(640_000, 700_000, 33, 900_000, 40);
    assert_eq!(judge(a), a);
}

#[test]
fn only_players_are_reset() {
    let mut a = hero(0, 900_000, 1, 1, 5);
    a.player = None;
    assert_eq!(judge(a), a);
    let mut b = hero(0, 900_000, 1, 1, 5);
    b.velocity = None;
    assert_eq!(judge(b), b);
    assert_eq!(judge_bodies(&vec![a, hero(1, 800_000, 1, 1, 9)]), vec![a, hero(100_000, 100_000, 0, 0, 0)]);
}

#[test]
fn reset_keeps_the_player_alive() {
    let mut world = new_world();
    let mut falling = hero(300_000, 750_000, 10, 2_000_000, 30);
    falling.gravity = true;
    falling.grounded = true;
    let e = spawn(&mut world, falling);
    LogicSystem.run(&mut world);
    flush(&mut world);
    assert!(is_live(&world, e));
    let r = archetype_of(&world, e);
    assert_eq!(r.position, Some(Position { x: 100_000, y: 100_000 }));
    assert_eq!(r.velocity, Some(Velocity { x: 0, y: 0 }));
    assert_eq!(r.player, Some(Player { speed: 200_000, jump_force: 500_000, score: 0 }));
    assert!(r.gravity && r.grounded);
}

#[test]
fn pressing_a_direction_sets_the_speed() {
    let a = hero(0, 0, 5, 7, 0);
    assert_eq!(steer(a, Key::Left, true).velocity, Some(Velocity { x: -200_000, y: 7 }));
    assert_eq!(steer(a, Key::Right, true).velocity, Some(Velocity { x: 200_000, y: 7 }));
}

#[test]
fn releasing_stops_only_matching_motion() {
    let right = hero(0, 0, 150_000, 7, 0);
    assert_eq!(steer(right, Key::Right, false).velocity, Some(Velocity { x: 0, y: 7 }));
    assert_eq!(steer(right, Key::Left, false).velocity, Some(Velocity { x: 150_000, y: 7 }));
    let left = hero(0, 0, -150_000, 7, 0);
    assert_eq!(steer(left, Key::Left, false).velocity, Some(Velocity { x: 0, y: 7 }));
    assert_eq!(steer(left, Key::Right, false).velocity, Some(Velocity { x: -150_000, y: 7 }));
    let still = hero(0, 0, 0, 7, 0);
    assert_eq!(steer(still, Key::Left, false), still);
    assert_eq!(steer(still, Key::Right, false), still);
}

#[test]
fn jump_needs_the_ground() {
    let mut a = hero(0, 0, 5, 7, 0);
    assert_eq!(steer(a, Key::Jump, true), a);
    a.grounded = true;
    assert_eq!(steer(a, Key::Jump, true).velocity, Some(Velocity { x: 5, y: -500_000 }));
    assert_eq!(steer(a, Key::Jump, false), a);
}

#[test]
fn other_keys_and_other_entities_are_ignored() {
    let a = hero(0, 0, 5, 7, 0);
    assert_eq!(steer(a, Key::Other, true), a);
    assert_eq!(steer(a, Key::Other, false), a);
    let mut bystander = a;
    bystander.player = None;
    assert_eq!(steer(bystander, Key::Left, true), bystander);
    let mut frozen = a;
    frozen.velocity = None;
    assert_eq!(steer(frozen, Key::Right, true), frozen);
}

#[test]
fn extreme_tunables_saturate() {
    let mut a = hero(0, 0, 0, 0, 0);
    a.player = Some(Player { speed: i32::MIN, jump_force: i32::MIN, score: 0 });
    a.grounded = true;
    assert_eq!(steer(a, Key::Left, true).velocity, Some(Velocity { x: i32::MAX, y: 0 }));
    assert_eq!(steer(a, Key::Jump, true).velocity, Some(Velocity { x: 0, y: i32::MAX }));
}

#[test]
fn input_reaches_every_player() {
    let mut world = new_world();
    let a = spawn(&mut world, hero(0, 0, 0, 0, 0));
    let mut slow = hero(0, 0, 0, 0, 0);
    slow.player = Some(Player { speed: 90_000, jump_force: 1, score: 3 });
    let b = spawn(&mut world, slow);
    let mut rock = hero(0, 0, 0, 0, 0);
    rock.player = None;
    let c = spawn(&mut world, rock);
    handle_input(&mut world, Key::Left, true);
    assert_eq!(archetype_of(&world, a).velocity, Some(Velocity { x: -200_000, y: 0 }));
    assert_eq!(archetype_of(&world, b).velocity, Some(Velocity { x: -90_000, y: 0 }));
    assert_eq!(archetype_of(&world, c), rock);
    handle_input(&mut world, Key::Left, false);
    assert_eq!(archetype_of(&world, a).velocity, Some(Velocity { x: 0, y: 0 }));
    assert_eq!(archetype_of(&world, b).player.unwrap().score, 3);
}

#[test]
fn radius_pickup_grants_one_point() {
    let mut world = new_world();
    let mut h = round(100_000, 100_000, 20_000);
    h.player = Some(Player { speed: 1, jump_force: 1, score: 0 });
    let hero = spawn(&mut world, h);
    let mut near = round(118_000, 123_999, 10_000);
    near.collectible = true;
    let near = spawn(&mut world, near);
    let mut far = round(118_000, 124_000, 10_000);
    far.collectible = true;
    let far = spawn(&mut world, far);
    CollectibleSystem.run(&mut world);
    assert_eq!(archetype_of(&world, hero).player.unwrap().score, 1);
    flush(&mut world);
    assert!(!is_live(&world, near));
    assert!(is_live(&world, far));
    assert_eq!(entities(&world), vec![hero, far]);
}

#[test]
fn radius_pickup_counts_once_for_two_players() {
    let mut world = new_world();
    let mut h = round(100_000, 100_000, 20_000);
    h.player = Some(Player { speed: 1, jump_force: 1, score: 0 });
    let first = spawn(&mut world, h);
    let second = spawn(&mut world, h);
    let mut prize = round(100_000, 100_000, 0);
    prize.collectible = true;
    let prize = spawn(&mut world, prize);
    CollectibleSystem.run(&mut world);
    assert_eq!(archetype_of(&world, first).player.unwrap().score, 1);
    assert_eq!(archetype_of(&world, second).player.unwrap().score, 0);
    flush(&mut world);
    assert!(!is_live(&world, prize));
}
