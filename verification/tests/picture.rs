use platformer::components::{Archetype, Player, Position, Renderable};
use platformer::render::{
    draw, marker_of, render_bodies, render_game, Frame, Rect, BACKGROUND, BACKGROUND_WON,
    MARKER_COLOR,
};
use platformer::world::{new_world, spawn};

fn blank() -> Archetype {
    Archetype {
        position: None,
        velocity: None,
        renderable: None,
        collidable: None,
        player: None,
        health: None,
        lifetime: None,
        emitter: None,
        enemy: false,
        platform: false,
        gravity: false,
        grounded: false,
        collectible: false,
        goal: false,
    }
}

fn sized(x: i32, y: i32, w: i32, h: i32) -> Archetype {
    Archetype {
        position: Some(Position { x, y }),
        renderable: Some(Renderable { width: w, height: h, color: (9, 8, 7) }),
        ..blank()
    }
}

fn scorer(score: i32) -> Archetype {
    Archetype { player: Some(Player { speed: 1, jump_force: 1, score }), ..blank() }
}

#[test]
fn bodies_are_drawn_in_whole_pixels() {
    assert_eq!(
        draw(&sized(100_999, 50_001, 40_000, 39_999)),
        Some(Rect { x: 100, y: 50, width: 40, height: 39, color: (9, 8, 7) })
    );
    assert_eq!(
        draw(&sized(-1_999, -999, -5_000, 999)),
        Some(Rect { x: -1, y: 0, width: 0, height: 0, color: (9, 8, 7) })
    );
    assert_eq!(draw(&blank()), None);
    let mut unseen = sized(1, 1, 1, 1);
    unseen.renderable = None;
    assert_eq!(draw(&unseen), None);
}

#[test]
fn markers_stand_in_a_row() {
    assert_eq!(marker_of(0), Rect { x: 10, y: 10, width: 10, height: 10, color: MARKER_COLOR });
    assert_eq!(marker_of(3), Rect { x: 55, y: 10, width: 10, height: 10, color: (255, 215, 0) });
    assert_eq!(marker_of(u32::MAX).x, i32::MAX);
}

#[test]
fn picture_lists_bodies_and_scores() {
    let bodies = vec![sized(1_000, 2_000, 3_000, 4_000), scorer(2), blank(), sized(0, 0, 0, 0)];
    let frame = render_bodies(&bodies);
    assert_eq!(
        frame,
        Frame {
            background: BACKGROUND,
            bodies: vec![
                Rect { x: 1, y: 2, width: 3, height: 4, color: (9, 8, 7) },
                Rect { x: 0, y: 0, width: 0, height: 0, color: (9, 8, 7) },
            ],
            markers: vec![marker_of(0), marker_of(1)],
        }
    );
}

#[test]
fn background_changes_once_a_player_has_won() {
    assert_eq!(render_bodies(&vec![scorer(49)]).background, (20, 20, 40));
    assert_eq!(render_bodies(&vec![scorer(50)]).background, BACKGROUND_WON);
    assert_eq!(render_bodies(&vec![scorer(0), scorer(70), scorer(0)]).background, (50, 150, 50));
    assert_eq!(render_bodies(&vec![]).background, BACKGROUND);
}

#[test]
fn every_player_gets_its_markers() {
    let frame = render_bodies(&vec![scorer(1), scorer(-4), scorer(2)]);
    assert_eq!(frame.markers, vec![marker_of(0), marker_of(0), marker_of(1)]);
    assert!(frame.bodies.is_empty());
}

#[test]
fn world_is_drawn_in_entity_order() {
    let mut world = new_world();
    spawn(&mut world, sized(5_000, 5_000, 5_000, 5_000));
    spawn(&mut world, scorer(1));
    spawn(&mut world, sized(7_000, 7_000, 7_000, 7_000));
    let frame = render_game(&world);
    assert_eq!(frame.bodies.len(), 2);
    assert_eq!(frame.bodies[0].x, 5);
    assert_eq!(frame.bodies[1].x, 7);
    assert_eq!(frame.markers, vec![marker_of(0)]);
    assert_eq!(frame.background, BACKGROUND);
}
