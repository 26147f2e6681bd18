//! The picture of a frame: what a presentation layer has to draw, in pixels.

use vstd::prelude::*;
use crate::components::Archetype;
use crate::units::{div_trunc, divide, sat, saturate, UNIT, WIN_SCORE};
use crate::world::{capture, snapshot, world_ready};

verus! {

/// A filled rectangle in pixels.
#[derive(Clone, Copy, Debug, PartialEq, Eq)]
pub struct Rect {
    pub x: i32,
    pub y: i32,
    pub width: u32,
    pub height: u32,
    pub color: (u8, u8, u8),
}

/// Everything to draw for one frame, back to front.
#[derive(Debug, PartialEq, Eq)]
pub struct Frame {
    /// The colour the screen is cleared to.
    pub background: (u8, u8, u8),
    /// One rectangle for each entity that has a position and a size.
    pub bodies: Vec<Rect>,
    /// One marker for each point of each player's score.
    pub markers: Vec<Rect>,
}

/// Background while the level is being played.
pub const BACKGROUND: (u8, u8, u8) = (20, 20, 40);

/// Background once a player has won.
pub const BACKGROUND_WON: (u8, u8, u8) = (50, 150, 50);

/// Colour of the score markers.
pub const MARKER_COLOR: (u8, u8, u8) = (255, 215, 0);

/// Whole pixels of a raw coordinate, rounded toward zero.
pub open spec fn pixels(raw: int) -> int {
    div_trunc(raw, UNIT as int)
}

/// Whole pixels of a raw length; a negative length is none.
pub open spec fn pixel_length(raw: int) -> int {
    if raw < 0 {
        0
    } else {
        raw / (UNIT as int)
    }
}

/// The rectangle drawn for `a`, if it has a position and a size.
pub open spec fn drawn(a: Archetype) -> Option<Rect> {
    match (a.position, a.renderable) {
        (Some(p), Some(r)) => Some(
            Rect {
                x: pixels(p.x as int) as i32,
                y: pixels(p.y as int) as i32,
                width: pixel_length(r.width as int) as u32,
                height: pixel_length(r.height as int) as u32,
                color: r.color,
            },
        ),
        _ => None,
    }
}

/// The rectangles of the bodies of `s`, in order.
pub open spec fn body_rects(s: Seq<Archetype>) -> Seq<Rect>
    decreases s.len(),
{
    if s.len() == 0 {
        Seq::empty()
    } else {
        match drawn(s.last()) {
            Some(r) => body_rects(s.drop_last()).push(r),
            None => body_rects(s.drop_last()),
        }
    }
}

/// The marker of the point with the given number: markers are ten pixels
/// square and stand in a row, fifteen pixels apart.
pub open spec fn marker(number: int) -> Rect {
    Rect { x: sat(10 + number * 15) as i32, y: 10, width: 10, height: 10, color: MARKER_COLOR }
}

/// The markers of one score: one for each point.
pub open spec fn marker_row(score: int) -> Seq<Rect> {
    Seq::new(
        if score > 0 {
            score as nat
        } else {
            0
        },
        |i: int| marker(i),
    )
}

/// The markers of the scores of the players of `s`, player after player.
pub open spec fn score_markers(s: Seq<Archetype>) -> Seq<Rect>
    decreases s.len(),
{
    if s.len() == 0 {
        Seq::empty()
    } else {
        match s.last().player {
            Some(p) => score_markers(s.drop_last()) + marker_row(p.score as int),
            None => score_markers(s.drop_last()),
        }
    }
}

/// Whether some player of `s` has reached [`WIN_SCORE`].
pub open spec fn won(s: Seq<Archetype>) -> bool {
    exists|k: int| 0 <= k < s.len() && (#[trigger] s[k]).player is Some && s[k].player->0.score
        >= WIN_SCORE
}

/// The picture of the bodies `s`.
pub open spec fn picture(s: Seq<Archetype>, frame: Frame) -> bool {
    &&& frame.background == if won(s) {
        BACKGROUND_WON
    } else {
        BACKGROUND
    }
    &&& frame.bodies@ == body_rects(s)
    &&& frame.markers@ == score_markers(s)
}

/// The rectangle drawn for one entity.
pub fn draw(a: &Archetype) -> (r: Option<Rect>)
    ensures
        r == drawn(*a),
{
    match (a.position, a.renderable) {
        (Some(p), Some(r)) => {
            let w: i64 = if r.width < 0 {
                0
            } else {
                divide(r.width as i64, UNIT as i64)
            };
            let h: i64 = if r.height < 0 {
                0
            } else {
                divide(r.height as i64, UNIT as i64)
            };
            Some(
                Rect {
                    x: divide(p.x as i64, UNIT as i64) as i32,
                    y: divide(p.y as i64, UNIT as i64) as i32,
                    width: w as u32,
                    height: h as u32,
                    color: r.color,
                },
            )
        },
        _ => None,
    }
}

/// The marker of one point.
pub fn marker_of(number: u32) -> (r: Rect)
    ensures
        r == marker(number as int),
{
    Rect {
        x: saturate(10 + (number as i64) * 15),
        y: 10,
        width: 10,
        height: 10,
        color: MARKER_COLOR,
    }
}

/// The picture of a list of bodies.
pub fn render_bodies(s: &Vec<Archetype>) -> (frame: Frame)
    ensures
        picture(s@, frame),
{
    let mut bodies: Vec<Rect> = Vec::new();
    let mut markers: Vec<Rect> = Vec::new();
    let mut win = false;
    let mut i: usize = 0;
    while i < s.len()
        invariant
            i <= s.len(),
            bodies@ == body_rects(s@.take(i as int)),
            markers@ == score_markers(s@.take(i as int)),
            win == won(s@.take(i as int)),
        decreases s.len() - i,
    {
        let ghost done = s@.take(i as int);
        let ghost next = s@.take(i + 1);
        proof {
            assert(next.drop_last() =~= done);
            assert(next.last() == s@[i as int]);
        }
        match draw(&s[i]) {
            Some(r) => {
                bodies.push(r);
            },
            None => {},
        }
        let mut scored = false;
        match s[i].player {
            Some(p) => {
                let ghost before = markers@;
                let mut k: u32 = 0;
                while (k as i64) < p.score as i64
                    invariant
                        k <= if p.score > 0 {
                            p.score as int
                        } else {
                            0
                        },
                        markers@ == before + marker_row(k as int),
                    decreases p.score as int - k as int,
                {
                    markers.push(marker_of(k));
                    k = k + 1;
                    assert(markers@ =~= before + marker_row(k as int));
                }
                assert(markers@ =~= before + marker_row(p.score as int));
                scored = p.score >= WIN_SCORE;
            },
            None => {},
        }
        proof {
            if won(done) {
                let k = choose|k: int|
                    0 <= k < done.len() && (#[trigger] done[k]).player is Some
                        && done[k].player->0.score >= WIN_SCORE;
                assert(next[k] == done[k]);
            }
            if scored {
                assert(next[i as int] == s@[i as int]);
            }
            if won(next) {
                let k = choose|k: int|
                    0 <= k < next.len() && (#[trigger] next[k]).player is Some
                        && next[k].player->0.score >= WIN_SCORE;
                if k < i {
                    assert(done[k] == next[k]);
                }
            }
        }
        win = win || scored;
        i += 1;
    }
    assert(s@.take(s@.len() as int) =~= s@);
    Frame { background: if win { BACKGROUND_WON } else { BACKGROUND }, bodies, markers }
}

/// The picture of the world as it stands.
pub fn render_game(world: &specs::World) -> (frame: Frame)
    requires
        world_ready(*world),
    ensures
        picture(snapshot(*world), frame),
{
    let (_, bodies) = capture(world);
    render_bodies(&bodies)
}

} // verus!
