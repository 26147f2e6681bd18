use platformer::components::{Archetype, Player, Position, Renderable, Velocity};
use platformer::systems::collision::{
    apply, bounding_box, check_aabb, check_circles, collect, collide, contact_of, credit,
    find_contacts, find_taker, land_bodies, resolve, settle, touching, Aabb, Resolution, Touch,
};
use platformer::systems::CollisionSystem;
use platformer::world::{archetype_of, entities, flush, is_live, new_world, spawn};

fn blank() -> Archetype {
    Archetype {
        position: None,
        velocity: None,
        renderable: None,
        collidable: None,
        player: None,
        health: None,
        lifetime: None,
        emitter: None,
        enemy: false,
        platform: false,
        gravity: false,
        grounded: false,
        collectible: false,
        goal: false,
    }
}

fn sized(x: i32, y: i32, w: i32, h: i32) -> Archetype {
    Archetype {
        position: Some(Position { x, y }),
        renderable: Some(Renderable { width: w, height: h, color: (1, 2, 3) }),
        ..blank()
    }
}

fn player(x: i32, y: i32, vx: i32, vy: i32) -> Archetype {
    Archetype {
        velocity: Some(Velocity { x: vx, y: vy }),
        player: Some(Player { speed: 200_000, jump_force: 500_000, score: 0 }),
        gravity: true,
        ..sized(x, y, 40_000, 40_000)
    }
}

fn platform(x: i32, y: i32, w: i32, h: i32) -> Archetype {
    Archetype { platform: true, ..sized(x, y, w, h) }
}

fn coin(x: i32, y: i32) -> Archetype {
    Archetype { collectible: true, ..sized(x, y, 20_000, 20_000) }
}

fn enemy(x: i32, y: i32) -> Archetype {
    Archetype {
        velocity: Some(Velocity { x: 100_000, y: 0 }),
        enemy: true,
        ..sized(x, y, 40_000, 40_000)
    }
}

fn rect(x: i32, y: i32, w: i32, h: i32) -> Aabb {
    Aabb { x, y, w, h }
}

#[test]
fn boxes_overlap_only_when_they_intersect() {
    assert!(check_aabb(rect(0, 0, 10, 10), rect(5, 5, 10, 10)));
    assert!(check_aabb(rect(5, 5, 10, 10), rect(0, 0, 10, 10)));
    assert!(!check_aabb(rect(0, 0, 10, 10), rect(10, 0, 10, 10)));
    assert!(!check_aabb(rect(0, 0, 10, 10), rect(0, 10, 10, 10)));
    assert!(!check_aabb(rect(0, 0, 10, 10), rect(20, 20, 5, 5)));
    assert!(check_aabb(rect(0, 0, 10, 10), rect(9, 9, 1, 1)));
    assert!(!check_aabb(rect(0, 0, 0, 0), rect(0, 0, 10, 10)));
}

#[test]
fn boxes_at_the_ends_of_the_range_do_not_overflow() {
    assert!(check_aabb(
        rect(i32::MAX, i32::MAX, i32::MAX, i32::MAX),
        rect(i32::MAX, i32::MAX, 1, 1)
    ));
    assert!(!check_aabb(rect(i32::MIN, i32::MIN, 1, 1), rect(i32::MAX, i32::MAX, 1, 1)));
}

#[test]
fn bounding_box_needs_position_and_size() {
    assert_eq!(bounding_box(&sized(1, 2, 3, 4)), Some(rect(1, 2, 3, 4)));
    let mut a = sized(1, 2, 3, 4);
    a.renderable = None;
    assert_eq!(bounding_box(&a), None);
    assert_eq!(bounding_box(&blank()), None);
}

#[test]
fn falling_body_lands_on_top() {
    let m = rect(100_000, 515_000, 40_000, 40_000);
    let p = rect(0, 550_000, 800_000, 50_000);
    let r = resolve(m, Velocity { x: 0, y: 300_000 }, p);
    assert_eq!(r, Some(Resolution::Land { y: 510_000 }));
}

#[test]
fn landing_needs_the_bottom_within_tolerance() {
    let p = rect(0, 550_000, 800_000, 50_000);
    let v = Velocity { x: 0, y: 300_000 };
    assert_eq!(resolve(rect(100_000, 525_000, 40_000, 40_000), v, p), Some(Resolution::Land { y: 510_000 }));
    assert_eq!(resolve(rect(100_000, 525_001, 40_000, 40_000), v, p), None);
}

#[test]
fn rising_body_bumps_its_head() {
    let m = rect(210_000, 410_000, 40_000, 40_000);
    let p = rect(200_000, 400_000, 100_000, 20_000);
    let r = resolve(m, Velocity { x: 0, y: -300_000 }, p);
    assert_eq!(r, Some(Resolution::Bump { y: 420_000 }));
    let deep = rect(210_000, 404_999, 40_000, 40_000);
    assert_eq!(resolve(deep, Velocity { x: 0, y: -300_000 }, p), None);
}

#[test]
fn sideways_body_stops_at_the_edge() {
    let p = rect(200_000, 400_000, 100_000, 100_000);
    let from_left = rect(170_000, 430_000, 40_000, 40_000);
    assert_eq!(
        resolve(from_left, Velocity { x: 100_000, y: 0 }, p),
        Some(Resolution::StopAtLeft { x: 160_000 })
    );
    let from_right = rect(290_000, 430_000, 40_000, 40_000);
    assert_eq!(
        resolve(from_right, Velocity { x: -100_000, y: 0 }, p),
        Some(Resolution::StopAtRight { x: 300_000 })
    );
}

#[test]
fn vertical_resolution_wins_over_horizontal() {
    let p = rect(200_000, 400_000, 100_000, 100_000);
    let corner = rect(170_000, 370_000, 40_000, 40_000);
    assert_eq!(
        resolve(corner, Velocity { x: 100_000, y: 100_000 }, p),
        Some(Resolution::Land { y: 360_000 })
    );
}

#[test]
fn resting_or_deep_bodies_are_left_alone() {
    let p = rect(200_000, 400_000, 100_000, 100_000);
    let inside = rect(230_000, 430_000, 40_000, 40_000);
    assert_eq!(resolve(inside, Velocity { x: 0, y: 0 }, p), None);
    assert_eq!(resolve(inside, Velocity { x: 50_000, y: 50_000 }, p), None);
    let apart = rect(0, 0, 40_000, 40_000);
    assert_eq!(resolve(apart, Velocity { x: 50_000, y: 50_000 }, p), None);
}

#[test]
fn only_players_collide_with_platforms() {
    let ground = platform(0, 550_000, 800_000, 50_000);
    let falling = player(100_000, 515_000, 0, 300_000);
    assert_eq!(contact_of(&falling, &ground), Some(Resolution::Land { y: 510_000 }));
    let mut crate_box = falling;
    crate_box.player = None;
    assert_eq!(contact_of(&crate_box, &ground), None);
    let mut not_ground = ground;
    not_ground.platform = false;
    assert_eq!(contact_of(&falling, &not_ground), None);
    let mut still = falling;
    still.velocity = None;
    assert_eq!(contact_of(&still, &ground), None);
}

#[test]
fn applying_a_resolution_snaps_one_axis() {
    let a = player(100_000, 515_000, 7, 300_000);
    let landed = apply(a, Some(Resolution::Land { y: 510_000 }));
    assert_eq!(landed.position, Some(Position { x: 100_000, y: 510_000 }));
    assert_eq!(landed.velocity, Some(Velocity { x: 7, y: 0 }));
    assert!(landed.grounded);
    let bumped = apply(a, Some(Resolution::Bump { y: 420_000 }));
    assert_eq!(bumped.position, Some(Position { x: 100_000, y: 420_000 }));
    assert_eq!(bumped.velocity, Some(Velocity { x: 7, y: 0 }));
    assert!(!bumped.grounded);
    let left = apply(a, Some(Resolution::StopAtLeft { x: 160_000 }));
    assert_eq!(left.position, Some(Position { x: 160_000, y: 515_000 }));
    assert_eq!(left.velocity, Some(Velocity { x: 0, y: 300_000 }));
    assert!(!left.grounded);
    let right = apply(a, Some(Resolution::StopAtRight { x: 300_000 }));
    assert_eq!(right.position, Some(Position { x: 300_000, y: 515_000 }));
    assert_eq!(right.velocity, Some(Velocity { x: 0, y: 300_000 }));
    assert_eq!(apply(a, None), a);
}

#[test]
fn landing_ends_on_the_platform_grounded() {
    let mut world = new_world();
    let hero = spawn(&mut world, player(100_000, 515_000, 0, 300_000));
    let ground = spawn(&mut world, platform(0, 550_000, 800_000, 50_000));
    let contacts = CollisionSystem.run(&mut world);
    assert!(contacts.is_empty());
    let a = archetype_of(&world, hero);
    assert_eq!(a.position, Some(Position { x: 100_000, y: 510_000 }));
    assert_eq!(a.velocity, Some(Velocity { x: 0, y: 0 }));
    assert!(a.grounded);
    assert_eq!(archetype_of(&world, ground), platform(0, 550_000, 800_000, 50_000));
}

#[test]
fn collision_is_idempotent_once_resolved() {
    let mut world = new_world();
    let hero = spawn(&mut world, player(100_000, 515_000, 0, 300_000));
    spawn(&mut world, platform(0, 550_000, 800_000, 50_000));
    CollisionSystem.run(&mut world);
    let first = archetype_of(&world, hero);
    CollisionSystem.run(&mut world);
    let second = archetype_of(&world, hero);
    assert_eq!(second.position, first.position);
    assert_eq!(second.velocity, first.velocity);
}

#[test]
fn grounded_is_recomputed_every_frame() {
    let mut world = new_world();
    let mut floating = player(100_000, 100_000, 0, 0);
    floating.grounded = true;
    let hero = spawn(&mut world, floating);
    let mut resting = platform(0, 550_000, 800_000, 50_000);
    resting.grounded = true;
    let ground = spawn(&mut world, resting);
    CollisionSystem.run(&mut world);
    assert!(!archetype_of(&world, hero).grounded);
    assert!(!archetype_of(&world, ground).grounded);
}

#[test]
fn later_platforms_override_earlier_ones() {
    let a = player(100_000, 515_000, 0, 300_000);
    let bodies = vec![
        a,
        platform(0, 550_000, 800_000, 50_000),
        platform(0, 545_000, 800_000, 50_000),
    ];
    let r = settle(a, &bodies);
    assert_eq!(r.position, Some(Position { x: 100_000, y: 505_000 }));
    assert!(r.grounded);
    let after = land_bodies(&bodies);
    assert_eq!(after[0], r);
    assert_eq!(after[1], bodies[1]);
}

#[test]
fn touching_needs_two_boxes() {
    assert!(touching(&sized(0, 0, 10, 10), &sized(5, 5, 10, 10)));
    assert!(!touching(&sized(0, 0, 10, 10), &sized(10, 5, 10, 10)));
    assert!(!touching(&blank(), &sized(5, 5, 10, 10)));
}

#[test]
fn circles_overlap_when_centres_are_close() {
    let o = Position { x: 0, y: 0 };
    assert!(check_circles(o, 10, Position { x: 3, y: 4 }, 0));
    assert!(check_circles(o, 3, Position { x: 3, y: 4 }, 3));
    assert!(!check_circles(o, 2, Position { x: 3, y: 4 }, 3));
    assert!(!check_circles(o, 0, Position { x: 3, y: 4 }, 0));
}

#[test]
fn coinciding_centres_always_overlap() {
    let o = Position { x: 7, y: -7 };
    assert!(check_circles(o, 0, o, 0));
    assert!(check_circles(o, -5, o, 2));
}

#[test]
fn circles_at_the_ends_of_the_range_do_not_overflow() {
    let a = Position { x: i32::MIN, y: i32::MIN };
    let b = Position { x: i32::MAX, y: i32::MAX };
    assert!(!check_circles(a, i32::MAX, b, i32::MAX));
    assert!(check_circles(a, i32::MAX, Position { x: i32::MIN + 5, y: i32::MIN }, i32::MAX));
}

#[test]
fn player_touching_enemy_is_reported() {
    let mut world = new_world();
    let hero = spawn(&mut world, player(100_000, 100_000, 0, 0));
    let far = spawn(&mut world, enemy(300_000, 100_000));
    let near = spawn(&mut world, enemy(120_000, 110_000));
    let contacts = CollisionSystem.run(&mut world);
    assert_eq!(contacts, vec![(hero, near)]);
    assert!(is_live(&world, far));
    assert_eq!(archetype_of(&world, hero), player(100_000, 100_000, 0, 0));
}

#[test]
fn contacts_are_listed_in_order() {
    let bodies = vec![
        enemy(0, 0),
        player(10_000, 0, 0, 0),
        enemy(20_000, 0),
        player(5_000, 5_000, 0, 0),
        coin(0, 0),
    ];
    assert_eq!(find_contacts(&bodies), vec![(1, 0), (1, 2), (3, 0), (3, 2)]);
}

#[test]
fn pickup_grants_ten_points_and_deletes() {
    let mut world = new_world();
    let hero = spawn(&mut world, player(100_000, 100_000, 0, 0));
    let near = spawn(&mut world, coin(130_000, 110_000));
    let far = spawn(&mut world, coin(300_000, 110_000));
    CollisionSystem.run(&mut world);
    assert_eq!(archetype_of(&world, hero).player.unwrap().score, 10);
    assert!(is_live(&world, near));
    flush(&mut world);
    assert!(!is_live(&world, near));
    assert!(is_live(&world, far));
    assert_eq!(entities(&world), vec![hero, far]);
}

#[test]
fn pickup_is_exactly_once_with_two_players() {
    let mut world = new_world();
    let first = spawn(&mut world, player(100_000, 100_000, 0, 0));
    let second = spawn(&mut world, player(110_000, 100_000, 0, 0));
    let prize = spawn(&mut world, coin(120_000, 110_000));
    CollisionSystem.run(&mut world);
    let a = archetype_of(&world, first).player.unwrap().score;
    let b = archetype_of(&world, second).player.unwrap().score;
    assert_eq!(a, 10);
    assert_eq!(b, 0);
    assert_eq!(a + b, 10);
    flush(&mut world);
    assert!(!is_live(&world, prize));
    assert_eq!(entities(&world), vec![first, second]);
    CollisionSystem.run(&mut world);
    assert_eq!(archetype_of(&world, first).player.unwrap().score, 10);
    assert_eq!(archetype_of(&world, second).player.unwrap().score, 0);
}

#[test]
fn each_collectible_is_recorded_once() {
    let bodies = vec![
        player(100_000, 100_000, 0, 0),
        coin(120_000, 110_000),
        player(110_000, 100_000, 0, 0),
        coin(139_000, 110_000),
        coin(500_000, 110_000),
    ];
    let (after, picked) = collect(&bodies, Touch::Boxes, 10);
    assert_eq!(picked, vec![1, 3]);
    assert_eq!(after[0].player.unwrap().score, 20);
    assert_eq!(after[2].player.unwrap().score, 0);
    assert_eq!(find_taker(&bodies, 1, Touch::Boxes), Some(0));
    assert_eq!(find_taker(&bodies, 3, Touch::Boxes), Some(0));
    assert_eq!(find_taker(&bodies, 4, Touch::Boxes), None);
    assert_eq!(find_taker(&bodies, 0, Touch::Boxes), None);
    assert_eq!(find_taker(&bodies, 5, Touch::Boxes), None);
    assert_eq!(find_taker(&bodies, usize::MAX, Touch::Circles), None);
}

#[test]
fn the_first_player_in_reach_takes_the_collectible() {
    let bodies = vec![
        player(0, 0, 0, 0),
        player(110_000, 100_000, 0, 0),
        coin(120_000, 110_000),
        player(115_000, 100_000, 0, 0),
    ];
    assert_eq!(find_taker(&bodies, 2, Touch::Boxes), Some(1));
    let (after, picked) = collect(&bodies, Touch::Boxes, 10);
    assert_eq!(picked, vec![2]);
    assert_eq!(after[0].player.unwrap().score, 0);
    assert_eq!(after[1].player.unwrap().score, 10);
    assert_eq!(after[3].player.unwrap().score, 0);
}

#[test]
fn score_saturates() {
    let mut rich = player(0, 0, 0, 0);
    rich.player = Some(Player { speed: 1, jump_force: 1, score: i32::MAX - 3 });
    assert_eq!(credit(rich, 10).player.unwrap().score, i32::MAX);
    assert_eq!(credit(rich, 2).player.unwrap().score, i32::MAX - 1);
    assert_eq!(credit(coin(0, 0), 10), coin(0, 0));
}

#[test]
fn pickup_reads_positions_after_landing() {
    let bodies = vec![
        player(100_000, 515_000, 0, 300_000),
        platform(0, 550_000, 800_000, 50_000),
        coin(120_000, 545_000),
    ];
    let out = collide(&bodies);
    assert_eq!(out.bodies[0].position, Some(Position { x: 100_000, y: 510_000 }));
    assert_eq!(out.picked, vec![2]);
    assert_eq!(out.bodies[0].player.unwrap().score, 10);
    let low = vec![
        player(100_000, 515_000, 0, 300_000),
        platform(0, 550_000, 800_000, 50_000),
        coin(120_000, 552_000),
    ];
    let out = collide(&low);
    assert!(out.picked.is_empty());
    assert_eq!(out.bodies[0].player.unwrap().score, 0);
    assert!(out.contacts.is_empty());
}

#[test]
fn a_second_pass_changes_nothing_in_any_state() {
    let ground = platform(200_000, 400_000, 100_000, 100_000);
    let starts = vec![
        player(170_000, 430_000, 100_000, 0),
        player(290_000, 430_000, -100_000, 0),
        player(230_000, 430_000, 50_000, 50_000),
        player(210_000, 490_000, 0, -300_000),
        player(210_000, 370_000, 0, 300_000),
        player(0, 0, 10, 10),
    ];
    for start in starts {
        let once = collide(&vec![start, ground]).bodies;
        let twice = collide(&once).bodies;
        for j in 0..2 {
            assert_eq!(twice[j].position, once[j].position);
            assert_eq!(twice[j].velocity, once[j].velocity);
        }
    }
}
