use platformer::components::{
    Archetype, DeltaTime, Lifetime, ParticleEmitter, Position, Renderable, Velocity,
};
use platformer::systems::particle::{
    age, age_bodies, find_expired, is_expiring, make_particle, should_emit,
};
use platformer::systems::ParticleSystem;
use platformer::level::spawn_all;
use platformer::world::{
    archetype_of, entities, flush, is_live, new_world, spawn, CAPACITY,
};

fn blank() -> Archetype {
    Archetype {
        position: None,
        velocity: None,
        renderable: None,
        collidable: None,
        player: None,
        health: None,
        lifetime: None,
        emitter: None,
        enemy: false,
        platform: false,
        gravity: false,
        grounded: false,
        collectible: false,
        goal: false,
    }
}

fn mortal(remaining: i32) -> Archetype {
    Archetype { lifetime: Some(Lifetime { remaining }), ..blank() }
}

fn emitter(rate: i32) -> Archetype {
    Archetype {
        position: Some(Position { x: 12_000, y: 34_000 }),
        emitter: Some(ParticleEmitter { rate, lifetime: 30, color: (100, 255, 100) }),
        ..blank()
    }
}

#[test]
fn lifetime_counts_down() {
    assert_eq!(age(mortal(60), 15), mortal(45));
    assert_eq!(age(mortal(10), 15), mortal(-5));
    assert_eq!(age(mortal(i32::MIN + 1), 15), mortal(i32::MIN));
    assert_eq!(age(blank(), 15), blank());
    assert_eq!(age_bodies(&vec![mortal(3), blank()], 1), vec![mortal(2), blank()]);
}

#[test]
fn expiry_is_at_or_below_zero() {
    assert!(!is_expiring(&mortal(16), 15));
    assert!(is_expiring(&mortal(15), 15));
    assert!(is_expiring(&mortal(14), 15));
    assert!(is_expiring(&mortal(0), 0));
    assert!(!is_expiring(&mortal(1), 0));
    assert!(!is_expiring(&blank(), 1_000));
}

#[test]
fn expired_bodies_are_listed_in_order() {
    let bodies = vec![mortal(3), blank(), mortal(16), mortal(15), mortal(-1)];
    assert_eq!(find_expired(&bodies, 15), vec![0, 3, 4]);
    assert_eq!(find_expired(&bodies, 0), vec![4]);
    assert_eq!(find_expired(&bodies, 16), vec![0, 2, 3, 4]);
    assert!(find_expired(&vec![], 16).is_empty());
}

#[test]
fn particle_expires_at_the_fourth_quarter_second() {
    let mut world = new_world();
    let spark = spawn(&mut world, mortal(60));
    for step in 1..=4 {
        ParticleSystem.run(&mut world, DeltaTime(15));
        flush(&mut world);
        if step < 4 {
            assert!(is_live(&world, spark));
            assert_eq!(archetype_of(&world, spark), mortal(60 - 15 * step));
        } else {
            assert!(!is_live(&world, spark));
        }
    }
    assert!(entities(&world).is_empty());
}

#[test]
fn expired_entity_is_deleted_at_the_flush() {
    let mut world = new_world();
    let spark = spawn(&mut world, mortal(1));
    let spawned = ParticleSystem.run(&mut world, DeltaTime(1));
    assert!(spawned.is_empty());
    assert!(is_live(&world, spark));
    assert_eq!(archetype_of(&world, spark), mortal(0));
    flush(&mut world);
    assert!(!is_live(&world, spark));
}

#[test]
fn emission_is_decided_by_the_draw() {
    assert!(should_emit(0, 1, 1));
    assert!(!should_emit(1, 1, 1));
    assert!(should_emit(499, 500, 1));
    assert!(!should_emit(500, 500, 1));
    assert!(should_emit(999, 500, 2));
    assert!(should_emit(999, 1_000, 1));
    assert!(!should_emit(0, 0, 100));
    assert!(!should_emit(0, -5, 100));
    assert!(!should_emit(0, 1_000, 0));
    assert!(should_emit(999, i32::MAX, u32::MAX));
}

#[test]
fn particle_takes_after_its_emitter() {
    let em = ParticleEmitter { rate: 2_000, lifetime: 30, color: (100, 255, 100) };
    let p = make_particle(Position { x: 12_000, y: 34_000 }, em, -7, 9);
    assert_eq!(
        p,
        Archetype {
            position: Some(Position { x: 12_000, y: 34_000 }),
            velocity: Some(Velocity { x: -7, y: 9 }),
            renderable: Some(Renderable { width: 4_000, height: 4_000, color: (100, 255, 100) }),
            lifetime: Some(Lifetime { remaining: 30 }),
            ..blank()
        }
    );
}

#[test]
fn sure_emitter_spawns_one_particle_per_frame() {
    let mut world = new_world();
    let source = spawn(&mut world, emitter(1_000));
    for frame in 1..=20 {
        let spawned = ParticleSystem.run(&mut world, DeltaTime(1));
        assert_eq!(spawned.len(), 1);
        assert_eq!(spawned[0].emitter, source);
        let p = archetype_of(&world, spawned[0].particle);
        let v = p.velocity.unwrap();
        assert!(-50_000 <= v.x && v.x < 50_000);
        assert!(-50_000 <= v.y && v.y < 50_000);
        let em = ParticleEmitter { rate: 1_000, lifetime: 30, color: (100, 255, 100) };
        assert_eq!(p, make_particle(Position { x: 12_000, y: 34_000 }, em, v.x, v.y));
        assert_eq!(entities(&world).len(), 1 + frame);
    }
}

#[test]
fn silent_emitter_never_spawns() {
    let mut world = new_world();
    let source = spawn(&mut world, emitter(0));
    let mut no_place = emitter(5_000);
    no_place.position = None;
    spawn(&mut world, no_place);
    for _ in 0..50 {
        assert!(ParticleSystem.run(&mut world, DeltaTime(3)).is_empty());
    }
    assert!(ParticleSystem.run(&mut world, DeltaTime(0)).is_empty());
    assert_eq!(entities(&world).len(), 2);
    assert_eq!(archetype_of(&world, source), emitter(0));
}

#[test]
fn new_particles_are_not_aged_in_their_first_frame() {
    let mut world = new_world();
    spawn(&mut world, emitter(1_000));
    let spawned = ParticleSystem.run(&mut world, DeltaTime(7));
    assert_eq!(spawned.len(), 1);
    let born = spawned[0].particle;
    assert_eq!(archetype_of(&world, born).lifetime, Some(Lifetime { remaining: 30 }));
    ParticleSystem.run(&mut world, DeltaTime(7));
    assert_eq!(archetype_of(&world, born).lifetime, Some(Lifetime { remaining: 23 }));
}

#[test]
fn particles_live_for_the_emitters_lifetime() {
    let mut world = new_world();
    let source = spawn(&mut world, emitter(1_000));
    let first = ParticleSystem.run(&mut world, DeltaTime(10))[0].particle;
    flush(&mut world);
    for _ in 0..2 {
        ParticleSystem.run(&mut world, DeltaTime(10));
        flush(&mut world);
        assert!(is_live(&world, first));
    }
    ParticleSystem.run(&mut world, DeltaTime(10));
    flush(&mut world);
    assert!(!is_live(&world, first));
    assert!(is_live(&world, source));
}

#[test]
fn chance_emitter_spawns_sometimes() {
    let mut world = new_world();
    spawn(&mut world, emitter(500));
    let mut total = 0;
    for _ in 0..400 {
        let spawned = ParticleSystem.run(&mut world, DeltaTime(1));
        assert!(spawned.len() <= 1);
        total += spawned.len();
        flush(&mut world);
    }
    assert!(total > 100 && total < 300);
}

#[test]
fn a_full_world_spawns_no_particles() {
    let mut world = new_world();
    let first = spawn(&mut world, emitter(1_000));
    let second = spawn(&mut world, emitter(1_000));
    spawn_all(&mut world, &vec![blank(); CAPACITY - 3]).unwrap();
    let spawned = ParticleSystem.run(&mut world, DeltaTime(1));
    assert_eq!(spawned.len(), 1);
    assert_eq!(spawned[0].emitter, first);
    assert_eq!(entities(&world).len(), CAPACITY);
    assert!(ParticleSystem.run(&mut world, DeltaTime(1)).is_empty());
    assert_eq!(entities(&world).len(), CAPACITY);
    assert_eq!(archetype_of(&world, second), emitter(1_000));
}

#[test]
fn retiring_alone_spawns_nothing() {
    let mut world = new_world();
    let source = spawn(&mut world, emitter(1_000));
    let spark = spawn(&mut world, mortal(2));
    ParticleSystem.retire(&mut world, DeltaTime(1));
    assert_eq!(entities(&world), vec![source, spark]);
    assert_eq!(archetype_of(&world, spark), mortal(1));
    ParticleSystem.retire(&mut world, DeltaTime(1));
    flush(&mut world);
    assert_eq!(entities(&world), vec![source]);
}
