use platformer::components::{DeltaTime, Position, Velocity};
use platformer::game::{dependencies, opening, stage_at, GameState, Stage};
use platformer::input::Key;
use platformer::render::BACKGROUND;
use platformer::world::{archetype_of, entities, is_live};

#[test]
fn game_starts_with_the_opening_cast() {
    let game = GameState::new();
    let cast = opening();
    assert_eq!(cast.len(), 10);
    assert_eq!(game.cast().len(), 10);
    assert_eq!(entities(game.world()), *game.cast());
    for i in 0..10 {
        assert_eq!(archetype_of(game.world(), game.cast()[i]), cast[i]);
    }
}

#[test]
fn opening_cast_is_the_level_of_the_game() {
    let cast = opening();
    let hero = cast[0];
    assert_eq!(hero.position, Some(Position { x: 100_000, y: 100_000 }));
    assert_eq!(hero.player.unwrap().speed, 200_000);
    assert_eq!(hero.player.unwrap().jump_force, 500_000);
    assert_eq!(hero.collidable.unwrap().radius, 20_000);
    assert_eq!(hero.emitter.unwrap().lifetime, 30);
    assert!(hero.gravity);
    assert_eq!(cast[1].position, Some(Position { x: 0, y: 550_000 }));
    assert_eq!(cast[1].renderable.unwrap().width, 800_000);
    assert_eq!(cast[1].renderable.unwrap().height, 50_000);
    assert_eq!(cast[1].collidable.unwrap().radius, 400_000);
    let ledges = [(200_000, 400_000), (400_000, 300_000), (600_000, 200_000)];
    for (i, (x, y)) in ledges.iter().enumerate() {
        let ledge = cast[2 + i];
        assert!(ledge.platform);
        assert_eq!(ledge.position, Some(Position { x: *x, y: *y }));
        assert_eq!(ledge.renderable.unwrap().width, 100_000);
        assert_eq!(ledge.renderable.unwrap().height, 20_000);
        assert_eq!(ledge.collidable.unwrap().radius, 50_000);
    }
    for i in 0..5 {
        let coin = cast[5 + i as usize];
        assert!(coin.collectible);
        assert_eq!(
            coin.position,
            Some(Position { x: 220_000 + i * 100_000, y: 150_000 + (i % 2) * 100_000 })
        );
        assert_eq!(coin.collidable.unwrap().radius, 10_000);
    }
}

#[test]
fn systems_are_scheduled_after_their_dependencies() {
    let game = GameState::new();
    let stages = game.stages();
    assert_eq!(
        stages,
        vec![Stage::Patrol, Stage::Movement, Stage::Collision, Stage::Particles, Stage::Logic]
    );
    assert_eq!(dependencies(), vec![vec![], vec![0], vec![1], vec![1], vec![1]]);
    assert_eq!(stage_at(0), Stage::Patrol);
    assert_eq!(stage_at(4), Stage::Logic);
}

#[test]
fn first_frame_moves_the_player_and_emits() {
    let mut game = GameState::new();
    let hero = game.cast()[0];
    game.update(DeltaTime(1));
    let now = archetype_of(game.world(), hero);
    assert_eq!(now.velocity, Some(Velocity { x: 0, y: 25_000 }));
    assert_eq!(now.position, Some(Position { x: 100_000, y: 100_416 }));
    assert!(!now.grounded);
    assert_eq!(entities(game.world()).len(), 11);
}

#[test]
fn player_falls_onto_the_ground_and_rests() {
    let mut game = GameState::new();
    let hero = game.cast()[0];
    let mut landed_at = None;
    let mut grounded_frames = 0;
    for frame in 0..120 {
        game.update(DeltaTime(1));
        let now = archetype_of(game.world(), hero);
        if now.grounded && landed_at.is_none() {
            landed_at = Some(frame);
        }
        if landed_at.is_some() {
            assert_eq!(now.position.unwrap().y, 510_000);
            assert_eq!(now.velocity.unwrap().y, 0);
            if now.grounded {
                grounded_frames += 1;
            }
        } else {
            assert!(now.position.unwrap().y < 510_000);
        }
    }
    assert!(landed_at.is_some());
    assert!(grounded_frames > 1);
    assert_eq!(archetype_of(game.world(), hero).position.unwrap().x, 100_000);
}

#[test]
fn jumping_works_from_the_ground_only() {
    let mut game = GameState::new();
    let hero = game.cast()[0];
    game.handle_input(Key::Jump, true);
    assert_eq!(archetype_of(game.world(), hero).velocity, Some(Velocity { x: 0, y: 0 }));
    let mut frames = 0;
    while !archetype_of(game.world(), hero).grounded {
        game.update(DeltaTime(1));
        frames += 1;
        assert!(frames < 200);
    }
    game.handle_input(Key::Jump, true);
    assert_eq!(archetype_of(game.world(), hero).velocity, Some(Velocity { x: 0, y: -500_000 }));
    game.update(DeltaTime(1));
    let now = archetype_of(game.world(), hero);
    assert!(!now.grounded);
    assert_eq!(now.velocity, Some(Velocity { x: 0, y: -500_000 }));
    assert_eq!(now.position.unwrap().y, 510_000 - 8_333);
    game.update(DeltaTime(1));
    let now = archetype_of(game.world(), hero);
    assert_eq!(now.velocity, Some(Velocity { x: 0, y: -475_000 }));
}

#[test]
fn particles_come_and_go() {
    let mut game = GameState::new();
    let mut seen = Vec::new();
    for _ in 0..40 {
        game.update(DeltaTime(1));
        seen.push(entities(game.world()).len());
    }
    assert_eq!(seen[0], 11);
    assert_eq!(seen[28], 39);
    assert_eq!(seen[29], 40);
    assert_eq!(seen[30], 40);
    assert_eq!(seen[39], 40);
    for e in game.cast() {
        assert!(is_live(game.world(), *e));
    }
}

#[test]
fn frames_are_counted() {
    let mut game = GameState::new();
    assert_eq!(game.frames(), 0);
    game.update(DeltaTime(1));
    game.handle_input(Key::Left, true);
    game.update(DeltaTime(0));
    assert_eq!(game.frames(), 2);
}

#[test]
fn picture_of_a_new_game() {
    let game = GameState::new();
    let frame = game.render();
    assert_eq!(frame.background, BACKGROUND);
    assert_eq!(frame.bodies.len(), 10);
    assert!(frame.markers.is_empty());
    assert_eq!(frame.bodies[0].x, 100);
    assert_eq!(frame.bodies[1].width, 800);
    assert_eq!(frame.bodies[9].x, 620);
    assert_eq!(frame.bodies[9].y, 150);
}
