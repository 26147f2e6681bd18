use platformer::components::{
    Archetype, Collidable, Health, Lifetime, ParticleEmitter, Player, Position, Renderable,
    Velocity,
};
use platformer::world::{archetype_of, capture, delete, entities, flush, is_live, new_world, spawn};

fn nothing() -> Archetype {
    Archetype {
        position: None,
        velocity: None,
        renderable: None,
        collidable: None,
        player: None,
        health: None,
        lifetime: None,
        emitter: None,
        enemy: false,
        platform: false,
        gravity: false,
        grounded: false,
        collectible: false,
        goal: false,
    }
}

fn everything() -> Archetype {
    Archetype {
        position: Some(Position { x: 1, y: 2 }),
        velocity: Some(Velocity { x: 3, y: 4 }),
        renderable: Some(Renderable { width: 5, height: 6, color: (7, 8, 9) }),
        collidable: Some(Collidable { radius: 10 }),
        player: Some(Player { speed: 11, jump_force: 12, score: 13 }),
        health: Some(Health { current: 14, max: 15 }),
        lifetime: Some(Lifetime { remaining: 16 }),
        emitter: Some(ParticleEmitter { rate: 17, lifetime: 18, color: (19, 20, 21) }),
        enemy: true,
        platform: true,
        gravity: true,
        grounded: true,
        collectible: true,
        goal: true,
    }
}

#[test]
fn new_world_is_empty() {
    let world = new_world();
    assert!(entities(&world).is_empty());
    let (ids, bodies) = capture(&world);
    assert!(ids.is_empty());
    assert!(bodies.is_empty());
}

#[test]
fn spawn_stores_every_component() {
    let mut world = new_world();
    let e = spawn(&mut world, everything());
    assert_eq!(archetype_of(&world, e), everything());
}

#[test]
fn spawn_stores_only_what_is_given() {
    let mut world = new_world();
    let full = spawn(&mut world, everything());
    let bare = spawn(&mut world, nothing());
    let mut some = nothing();
    some.position = Some(Position { x: -5, y: 9 });
    some.gravity = true;
    let partial = spawn(&mut world, some);
    assert_eq!(archetype_of(&world, bare), nothing());
    assert_eq!(archetype_of(&world, partial), some);
    assert_eq!(archetype_of(&world, full), everything());
}

#[test]
fn entities_are_listed_once_in_order() {
    let mut world = new_world();
    let a = spawn(&mut world, nothing());
    let b = spawn(&mut world, everything());
    let c = spawn(&mut world, nothing());
    assert_eq!(entities(&world), vec![a, b, c]);
    let (ids, bodies) = capture(&world);
    assert_eq!(ids, vec![a, b, c]);
    assert_eq!(bodies, vec![nothing(), everything(), nothing()]);
}

#[test]
fn missing_entity_reads_as_empty() {
    let mut world = new_world();
    let e = spawn(&mut world, everything());
    delete(&mut world, e);
    flush(&mut world);
    assert!(!is_live(&world, e));
    assert_eq!(archetype_of(&world, e), nothing());
}

#[test]
fn deletion_waits_for_the_flush() {
    let mut world = new_world();
    let keep = spawn(&mut world, nothing());
    let gone = spawn(&mut world, everything());
    delete(&mut world, gone);
    assert!(is_live(&world, gone));
    assert_eq!(archetype_of(&world, gone), everything());
    assert_eq!(entities(&world), vec![keep, gone]);
    flush(&mut world);
    assert!(!is_live(&world, gone));
    assert!(is_live(&world, keep));
    assert_eq!(entities(&world), vec![keep]);
}

#[test]
fn deleting_twice_is_harmless() {
    let mut world = new_world();
    let keep = spawn(&mut world, everything());
    let gone = spawn(&mut world, nothing());
    delete(&mut world, gone);
    delete(&mut world, gone);
    flush(&mut world);
    delete(&mut world, gone);
    flush(&mut world);
    assert_eq!(entities(&world), vec![keep]);
    assert_eq!(archetype_of(&world, keep), everything());
}

#[test]
fn a_recycled_slot_is_a_new_entity() {
    let mut world = new_world();
    let first = spawn(&mut world, everything());
    delete(&mut world, first);
    flush(&mut world);
    let second = spawn(&mut world, nothing());
    assert_eq!(second.id(), first.id());
    assert_ne!(second, first);
    assert!(!is_live(&world, first));
    assert!(is_live(&world, second));
    assert_eq!(archetype_of(&world, first), nothing());
    assert_eq!(archetype_of(&world, second), nothing());
}

#[test]
fn flush_without_deletions_changes_nothing() {
    let mut world = new_world();
    let a = spawn(&mut world, everything());
    flush(&mut world);
    assert_eq!(entities(&world), vec![a]);
    assert_eq!(archetype_of(&world, a), everything());
}
