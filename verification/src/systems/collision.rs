//! Collision: bodies are resolved against platforms, contacts with enemies
//! are reported, and collectibles are picked up.
//!
//! Each pass reads the bodies as the previous pass left them, gathers what
//! it has to do, and applies it afterwards.

use vstd::prelude::*;
use crate::components::{Archetype, Player, Position, Velocity};
use crate::units::{sat, saturate, CONTACT_TOLERANCE, PICKUP_SCORE};
use crate::world::{
    capture, clear_grounded, commit, delete_listed, is_listed, listed_entities, name_pairs,
    named_pairs, snapshot, ungrounded, world_contents, world_doomed, world_order, world_ready,
    world_wear, writable,
};

verus! {

/// Resolves overlaps after movement.
pub struct CollisionSystem;

/// An axis-aligned bounding box: top-left corner and size.
#[derive(Clone, Copy, Debug, PartialEq, Eq)]
pub struct Aabb {
    pub x: i32,
    pub y: i32,
    pub w: i32,
    pub h: i32,
}

/// How a body is moved out of a platform.
#[derive(Clone, Copy, Debug, PartialEq, Eq)]
pub enum Resolution {
    /// Comes to rest on top of the platform, with its top edge at `y`.
    Land { y: i32 },
    /// Is stopped below the platform, with its top edge at `y`.
    Bump { y: i32 },
    /// Is stopped at the platform's left side, with its left edge at `x`.
    StopAtLeft { x: i32 },
    /// Is stopped at the platform's right side, with its left edge at `x`.
    StopAtRight { x: i32 },
}

/// Whether two boxes overlap; boxes that only touch do not.
pub open spec fn overlaps(a: Aabb, b: Aabb) -> bool {
    &&& a.x < b.x + b.w
    &&& a.x + a.w > b.x
    &&& a.y < b.y + b.h
    &&& a.y + a.h > b.y
}

/// The bounding box of an entity that has a position and a size.
pub open spec fn extent(a: Archetype) -> Option<Aabb> {
    match (a.position, a.renderable) {
        (Some(p), Some(r)) => Some(Aabb { x: p.x, y: p.y, w: r.width, h: r.height }),
        _ => None,
    }
}

/// A body that platforms stop: a player with a position, a velocity and a
/// size.
pub open spec fn is_mover(a: Archetype) -> bool {
    a.player is Some && a.velocity is Some && extent(a) is Some
}

/// A platform with a position and a size.
pub open spec fn is_ground(a: Archetype) -> bool {
    a.platform && extent(a) is Some
}

/// The resolution of a body in box `m` moving at `v` against a platform in
/// box `p`. Overlapping boxes are resolved by the first rule that matches:
/// falling with the bottom edge no deeper than the tolerance below the
/// platform's top; rising with the top edge no higher than the tolerance
/// above its underside; then the same for the right and the left edge.
pub open spec fn resolution(m: Aabb, v: Velocity, p: Aabb) -> Option<Resolution> {
    if !overlaps(m, p) {
        None
    } else if v.y > 0 && m.y + m.h <= p.y + CONTACT_TOLERANCE {
        Some(Resolution::Land { y: sat(p.y - m.h) as i32 })
    } else if v.y < 0 && m.y >= p.y + p.h - CONTACT_TOLERANCE {
        Some(Resolution::Bump { y: sat(p.y + p.h) as i32 })
    } else if v.x > 0 && m.x + m.w <= p.x + CONTACT_TOLERANCE {
        Some(Resolution::StopAtLeft { x: sat(p.x - m.w) as i32 })
    } else if v.x < 0 && m.x >= p.x + p.w - CONTACT_TOLERANCE {
        Some(Resolution::StopAtRight { x: sat(p.x + p.w) as i32 })
    } else {
        None
    }
}

/// The resolution of entity `a` against entity `g`, if `a` is a mover and
/// `g` is ground.
pub open spec fn contact(a: Archetype, g: Archetype) -> Option<Resolution> {
    if is_mover(a) && is_ground(g) {
        resolution(extent(a)->0, a.velocity->0, extent(g)->0)
    } else {
        None
    }
}

/// `a` with one resolution applied: the position is snapped on the axis of
/// the resolution and the velocity on that axis is zeroed; landing also
/// marks the body grounded.
pub open spec fn applied(a: Archetype, r: Option<Resolution>) -> Archetype {
    match (r, a.position, a.velocity) {
        (Some(Resolution::Land { y }), Some(p), Some(v)) => Archetype {
            position: Some(Position { y: y, ..p }),
            velocity: Some(Velocity { y: 0, ..v }),
            grounded: true,
            ..a
        },
        (Some(Resolution::Bump { y }), Some(p), Some(v)) => Archetype {
            position: Some(Position { y: y, ..p }),
            velocity: Some(Velocity { y: 0, ..v }),
            ..a
        },
        (Some(Resolution::StopAtLeft { x }), Some(p), Some(v)) => Archetype {
            position: Some(Position { x: x, ..p }),
            velocity: Some(Velocity { x: 0, ..v }),
            ..a
        },
        (Some(Resolution::StopAtRight { x }), Some(p), Some(v)) => Archetype {
            position: Some(Position { x: x, ..p }),
            velocity: Some(Velocity { x: 0, ..v }),
            ..a
        },
        _ => a,
    }
}

/// `a` after its resolutions against the first `upto` entities of `bodies`
/// were applied in order. Each resolution is computed from `a` as it stood
/// before the pass.
pub open spec fn settled(a: Archetype, bodies: Seq<Archetype>, upto: nat) -> Archetype
    decreases upto,
{
    if upto == 0 {
        a
    } else {
        applied(settled(a, bodies, (upto - 1) as nat), contact(a, bodies[upto - 1]))
    }
}

/// The bodies after the platform pass: the grounded tags are cleared, and
/// every body is settled against all the others.
pub open spec fn landed(bodies: Seq<Archetype>) -> Seq<Archetype> {
    let cleared = bodies.map_values(|a: Archetype| Archetype { grounded: false, ..a });
    cleared.map_values(|a: Archetype| settled(a, cleared, cleared.len()))
}

/// Whether the player at `p` touches the enemy at `e`.
pub open spec fn hazard(s: Seq<Archetype>, p: int, e: int) -> bool {
    &&& 0 <= p < s.len()
    &&& 0 <= e < s.len()
    &&& s[p].player is Some
    &&& s[e].enemy
    &&& extent(s[p]) matches Some(a)
    &&& extent(s[e]) matches Some(b)
    &&& overlaps(a, b)
}

/// How contact between a player and a collectible is decided.
#[derive(Clone, Copy, Debug, PartialEq, Eq)]
pub enum Touch {
    /// Their bounding boxes overlap.
    Boxes,
    /// The circles around their positions, of their collision radii, overlap.
    Circles,
}

/// Whether the circle of radius `ra` around `a` overlaps the one of radius
/// `rb` around `b`: the centres are closer than the radii together are
/// long. Centres that coincide always overlap.
pub open spec fn circles_overlap(a: Position, ra: int, b: Position, rb: int) -> bool {
    let dx = a.x - b.x;
    let dy = a.y - b.y;
    (dx == 0 && dy == 0) || (ra + rb > 0 && dx * dx + dy * dy < (ra + rb) * (ra + rb))
}

/// Whether `a` and `b` are in contact by the given primitive.
pub open spec fn in_touch(touch: Touch, a: Archetype, b: Archetype) -> bool {
    match touch {
        Touch::Boxes => extent(a) is Some && extent(b) is Some && overlaps(
            extent(a)->0,
            extent(b)->0,
        ),
        Touch::Circles => a.position is Some && a.collidable is Some && b.position is Some
            && b.collidable is Some && circles_overlap(
            a.position->0,
            a.collidable->0.radius as int,
            b.position->0,
            b.collidable->0.radius as int,
        ),
    }
}

/// Whether the player at `p` touches the collectible at `c`.
pub open spec fn reaches(s: Seq<Archetype>, p: int, c: int, touch: Touch) -> bool {
    &&& 0 <= p < s.len()
    &&& 0 <= c < s.len()
    &&& s[p].player is Some
    &&& s[c].collectible
    &&& in_touch(touch, s[p], s[c])
}

/// The first player at or after `from` that touches the collectible at `c`.
pub open spec fn taker_from(s: Seq<Archetype>, c: int, from: int, touch: Touch) -> Option<int>
    decreases s.len() - from,
{
    if from < 0 || from >= s.len() {
        None
    } else if reaches(s, from, c, touch) {
        Some(from)
    } else {
        taker_from(s, c, from + 1, touch)
    }
}

/// The player that picks up the collectible at `c`: the first one that
/// touches it. A collectible is picked up by one player only.
pub open spec fn taker(s: Seq<Archetype>, c: int, touch: Touch) -> Option<int> {
    taker_from(s, c, 0, touch)
}

/// `a` with `points` added to its score, if it is a player.
pub open spec fn credited(a: Archetype, points: int) -> Archetype {
    match a.player {
        Some(p) => Archetype {
            player: Some(Player { score: sat(p.score + points) as i32, ..p }),
            ..a
        },
        None => a,
    }
}

/// The bodies `s` after the collectibles before index `upto` were picked
/// up: each one credits `points` to its taker.
pub open spec fn rewarded(s: Seq<Archetype>, upto: nat, touch: Touch, points: int) -> Seq<
    Archetype,
>
    decreases upto,
{
    if upto == 0 {
        s
    } else {
        let before = rewarded(s, (upto - 1) as nat, touch, points);
        match taker(s, upto - 1, touch) {
            Some(p) => before.update(p, credited(before[p], points)),
            None => before,
        }
    }
}

/// The bodies after all three passes.
pub open spec fn collided(bodies: Seq<Archetype>) -> Seq<Archetype> {
    rewarded(landed(bodies), bodies.len(), Touch::Boxes, PICKUP_SCORE as int)
}

/// Whether two boxes overlap.
pub fn check_aabb(a: Aabb, b: Aabb) -> (r: bool)
    ensures
        r == overlaps(a, b),
{
    (a.x as i64) < b.x as i64 + b.w as i64 && a.x as i64 + a.w as i64 > b.x as i64 && (a.y as i64)
        < b.y as i64 + b.h as i64 && a.y as i64 + a.h as i64 > b.y as i64
}

/// The bounding box of an entity.
pub fn bounding_box(a: &Archetype) -> (r: Option<Aabb>)
    ensures
        r == extent(*a),
{
    match (a.position, a.renderable) {
        (Some(p), Some(r)) => Some(Aabb { x: p.x, y: p.y, w: r.width, h: r.height }),
        _ => None,
    }
}

/// The resolution of a moving box against a platform's box.
pub fn resolve(m: Aabb, v: Velocity, p: Aabb) -> (r: Option<Resolution>)
    ensures
        r == resolution(m, v, p),
{
    let tolerance = CONTACT_TOLERANCE as i64;
    if !check_aabb(m, p) {
        None
    } else if v.y > 0 && m.y as i64 + m.h as i64 <= p.y as i64 + tolerance {
        Some(Resolution::Land { y: saturate(p.y as i64 - m.h as i64) })
    } else if v.y < 0 && m.y as i64 >= p.y as i64 + p.h as i64 - tolerance {
        Some(Resolution::Bump { y: saturate(p.y as i64 + p.h as i64) })
    } else if v.x > 0 && m.x as i64 + m.w as i64 <= p.x as i64 + tolerance {
        Some(Resolution::StopAtLeft { x: saturate(p.x as i64 - m.w as i64) })
    } else if v.x < 0 && m.x as i64 >= p.x as i64 + p.w as i64 - tolerance {
        Some(Resolution::StopAtRight { x: saturate(p.x as i64 + p.w as i64) })
    } else {
        None
    }
}

/// The resolution of one entity against another.
pub fn contact_of(a: &Archetype, g: &Archetype) -> (r: Option<Resolution>)
    ensures
        r == contact(*a, *g),
{
    if a.player.is_none() || !g.platform {
        return None;
    }
    match (a.velocity, bounding_box(a), bounding_box(g)) {
        (Some(v), Some(m), Some(p)) => resolve(m, v, p),
        _ => None,
    }
}

/// Applies one resolution.
pub fn apply(a: Archetype, r: Option<Resolution>) -> (out: Archetype)
    ensures
        out == applied(a, r),
{
    match (r, a.position, a.velocity) {
        (Some(Resolution::Land { y }), Some(p), Some(v)) => Archetype {
            position: Some(Position { y: y, ..p }),
            velocity: Some(Velocity { y: 0, ..v }),
            grounded: true,
            ..a
        },
        (Some(Resolution::Bump { y }), Some(p), Some(v)) => Archetype {
            position: Some(Position { y: y, ..p }),
            velocity: Some(Velocity { y: 0, ..v }),
            ..a
        },
        (Some(Resolution::StopAtLeft { x }), Some(p), Some(v)) => Archetype {
            position: Some(Position { x: x, ..p }),
            velocity: Some(Velocity { x: 0, ..v }),
            ..a
        },
        (Some(Resolution::StopAtRight { x }), Some(p), Some(v)) => Archetype {
            position: Some(Position { x: x, ..p }),
            velocity: Some(Velocity { x: 0, ..v }),
            ..a
        },
        _ => a,
    }
}

/// Settles one entity against every entity of `bodies`.
pub fn settle(a: Archetype, bodies: &Vec<Archetype>) -> (r: Archetype)
    ensures
        r == settled(a, bodies@, bodies@.len()),
{
    let mut cur = a;
    let mut k: usize = 0;
    while k < bodies.len()
        invariant
            k <= bodies.len(),
            cur == settled(a, bodies@, k as nat),
        decreases bodies.len() - k,
    {
        let r = contact_of(&a, &bodies[k]);
        cur = apply(cur, r);
        k += 1;
    }
    cur
}

/// What the three passes found and did.
pub struct Collisions {
    /// The bodies after the passes.
    pub bodies: Vec<Archetype>,
    /// The collectibles that were picked up, by index.
    pub picked: Vec<usize>,
    /// Each player that touches an enemy, with that enemy, by index.
    pub contacts: Vec<(usize, usize)>,
}

/// Whether `list` holds each index once, in ascending order.
pub open spec fn ascending(list: Seq<usize>) -> bool {
    forall|i: int, j: int| 0 <= i < j < list.len() ==> list[i] < list[j]
}

/// Whether `list` holds each pair once, ordered by player and then enemy.
pub open spec fn ascending_pairs(list: Seq<(usize, usize)>) -> bool {
    forall|i: int, j: int|
        0 <= i < j < list.len() ==> list[i].0 < list[j].0 || (list[i].0 == list[j].0
            && list[i].1 < list[j].1)
}

proof fn lemma_settled_writable(a: Archetype, bodies: Seq<Archetype>, upto: nat)
    ensures
        writable(a, settled(a, bodies, upto)),
        settled(a, bodies, upto).renderable == a.renderable,
        settled(a, bodies, upto).player == a.player,
    decreases upto,
{
    if upto > 0 {
        lemma_settled_writable(a, bodies, (upto - 1) as nat);
    }
}

proof fn lemma_rewarded_writable(s: Seq<Archetype>, upto: nat, touch: Touch, points: int)
    ensures
        rewarded(s, upto, touch, points).len() == s.len(),
        forall|i: int|
            0 <= i < s.len() ==> writable(s[i], #[trigger] rewarded(s, upto, touch, points)[i]),
    decreases upto,
{
    if upto > 0 {
        lemma_rewarded_writable(s, (upto - 1) as nat, touch, points);
        lemma_taker_in_range(s, upto - 1, 0, touch);
    }
}

proof fn lemma_taker_in_range(s: Seq<Archetype>, c: int, from: int, touch: Touch)
    requires
        0 <= from,
    ensures
        taker_from(s, c, from, touch) matches Some(p) ==> from <= p < s.len() && reaches(
            s,
            p,
            c,
            touch,
        ),
        taker_from(s, c, from, touch) is None ==> forall|p: int|
            from <= p ==> !reaches(s, p, c, touch),
        taker_from(s, c, from, touch) matches Some(p) ==> forall|q: int|
            from <= q < p ==> !reaches(s, q, c, touch),
    decreases s.len() - from,
{
    if from < s.len() && !reaches(s, from, c, touch) {
        lemma_taker_in_range(s, c, from + 1, touch);
    }
}

/// The bodies after the platform pass.
pub fn land_bodies(bodies: &Vec<Archetype>) -> (r: Vec<Archetype>)
    ensures
        r@ == landed(bodies@),
        r@.len() == bodies@.len(),
        forall|i: int| 0 <= i < bodies@.len() ==> writable(ungrounded(bodies@[i]), #[trigger] r@[i]),
{
    let mut cleared: Vec<Archetype> = Vec::new();
    let mut i: usize = 0;
    while i < bodies.len()
        invariant
            i <= bodies.len(),
            cleared@.len() == i,
            forall|j: int| 0 <= j < i ==> cleared@[j] == ungrounded(#[trigger] bodies@[j]),
        decreases bodies.len() - i,
    {
        let a = bodies[i];
        cleared.push(Archetype { grounded: false, ..a });
        i += 1;
    }
    assert(cleared@ =~= bodies@.map_values(|a: Archetype| Archetype { grounded: false, ..a }));
    let mut out: Vec<Archetype> = Vec::new();
    let mut i: usize = 0;
    while i < cleared.len()
        invariant
            i <= cleared.len(),
            out@.len() == i,
            cleared@.len() == bodies@.len(),
            forall|j: int| 0 <= j < cleared@.len() ==> cleared@[j] == ungrounded(#[trigger] bodies@[j]),
            forall|j: int|
                0 <= j < i ==> out@[j] == settled(
                    #[trigger] cleared@[j],
                    cleared@,
                    cleared@.len(),
                ),
            forall|j: int| 0 <= j < i ==> writable(ungrounded(bodies@[j]), #[trigger] out@[j]),
        decreases cleared.len() - i,
    {
        let a = settle(cleared[i], &cleared);
        proof {
            lemma_settled_writable(cleared@[i as int], cleared@, cleared@.len());
        }
        out.push(a);
        i += 1;
    }
    assert(out@ =~= landed(bodies@));
    out
}

/// Whether the boxes of two entities overlap.
pub fn touching(a: &Archetype, b: &Archetype) -> (r: bool)
    ensures
        r == (extent(*a) is Some && extent(*b) is Some && overlaps(extent(*a)->0, extent(*b)->0)),
{
    match (bounding_box(a), bounding_box(b)) {
        (Some(x), Some(y)) => check_aabb(x, y),
        _ => false,
    }
}

/// Each player that touches an enemy, with that enemy.
pub fn find_contacts(s: &Vec<Archetype>) -> (r: Vec<(usize, usize)>)
    ensures
        ascending_pairs(r@),
        forall|p: usize, e: usize| r@.contains((p, e)) <==> hazard(s@, p as int, e as int),
        forall|j: int| 0 <= j < r@.len() ==> (#[trigger] r@[j]).0 < s@.len() && r@[j].1 < s@.len(),
{
    let mut out: Vec<(usize, usize)> = Vec::new();
    let n = s.len();
    let mut p: usize = 0;
    while p < n
        invariant
            n == s@.len(),
            p <= n,
            ascending_pairs(out@),
            forall|i: int| 0 <= i < out@.len() ==> (#[trigger] out@[i]).0 < p && out@[i].1 < n,
            forall|a: usize, b: usize|
                out@.contains((a, b)) <==> a < p && hazard(s@, a as int, b as int),
        decreases n - p,
    {
        let mut e: usize = 0;
        while e < n
            invariant
                n == s@.len(),
                p < n,
                e <= n,
                ascending_pairs(out@),
                forall|i: int|
                    0 <= i < out@.len() ==> (#[trigger] out@[i]).0 < p || (out@[i].0 == p
                        && out@[i].1 < e),
                forall|i: int| 0 <= i < out@.len() ==> (#[trigger] out@[i]).1 < n,
                forall|a: usize, b: usize|
                    out@.contains((a, b)) <==> (a < p || (a == p && b < e)) && hazard(
                        s@,
                        a as int,
                        b as int,
                    ),
            decreases n - e,
        {
            if s[p].player.is_some() && s[e].enemy && touching(&s[p], &s[e]) {
                let ghost prev = out@;
                out.push((p, e));
                assert forall|a: usize, b: usize|
                    out@.contains((a, b)) <==> (a < p || (a == p && b < e + 1)) && hazard(
                        s@,
                        a as int,
                        b as int,
                    ) by {
                    if out@.contains((a, b)) {
                        let i = choose|i: int| 0 <= i < out@.len() && out@[i] == (a, b);
                        if i < prev.len() {
                            assert(prev[i] == (a, b));
                            assert(prev.contains((a, b)));
                        }
                    }
                    if (a < p || (a == p && b < e + 1)) && hazard(s@, a as int, b as int) {
                        if a == p && b == e {
                            assert(out@[prev.len() as int] == (a, b));
                        } else {
                            assert(prev.contains((a, b)));
                            let i = choose|i: int| 0 <= i < prev.len() && prev[i] == (a, b);
                            assert(out@[i] == (a, b));
                        }
                    }
                }
            }
            e += 1;
        }
        p += 1;
    }
    out
}

/// Whether two circles overlap.
pub fn check_circles(a: Position, ra: i32, b: Position, rb: i32) -> (r: bool)
    ensures
        r == circles_overlap(a, ra as int, b, rb as int),
{
    let dx: i128 = a.x as i128 - b.x as i128;
    let dy: i128 = a.y as i128 - b.y as i128;
    let reach: i128 = ra as i128 + rb as i128;
    if dx == 0 && dy == 0 {
        return true;
    }
    if reach <= 0 {
        return false;
    }
    assert(0 <= dx * dx <= 0x1_0000_0000 * 0x1_0000_0000) by (nonlinear_arith)
        requires
            -0x1_0000_0000 <= dx <= 0x1_0000_0000,
    ;
    assert(0 <= dy * dy <= 0x1_0000_0000 * 0x1_0000_0000) by (nonlinear_arith)
        requires
            -0x1_0000_0000 <= dy <= 0x1_0000_0000,
    ;
    assert(0 <= reach * reach <= 0x1_0000_0000 * 0x1_0000_0000) by (nonlinear_arith)
        requires
            0 <= reach <= 0x1_0000_0000,
    ;
    dx * dx + dy * dy < reach * reach
}

/// Whether two entities are in contact by the given primitive.
pub fn in_contact_by(touch: Touch, a: &Archetype, b: &Archetype) -> (r: bool)
    ensures
        r == in_touch(touch, *a, *b),
{
    match touch {
        Touch::Boxes => touching(a, b),
        Touch::Circles => match (a.position, a.collidable, b.position, b.collidable) {
            (Some(pa), Some(ca), Some(pb), Some(cb)) => check_circles(
                pa,
                ca.radius,
                pb,
                cb.radius,
            ),
            _ => false,
        },
    }
}

/// The first player that touches the collectible at `c`.
pub fn find_taker(s: &Vec<Archetype>, c: usize, touch: Touch) -> (r: Option<usize>)
    ensures
        match r {
            Some(p) => taker(s@, c as int, touch) == Some(p as int) && p < s@.len(),
            None => taker(s@, c as int, touch) is None,
        },
{
    if c >= s.len() || !s[c].collectible {
        proof {
            lemma_taker_in_range(s@, c as int, 0, touch);
        }
        return None;
    }
    let mut p: usize = 0;
    while p < s.len()
        invariant
            p <= s.len(),
            c < s@.len(),
            s@[c as int].collectible,
            taker_from(s@, c as int, p as int, touch) == taker(s@, c as int, touch),
        decreases s.len() - p,
    {
        if s[p].player.is_some() && in_contact_by(touch, &s[p], &s[c]) {
            return Some(p);
        }
        p += 1;
    }
    None
}

/// Adds `points` to the score of a player.
pub fn credit(a: Archetype, points: i32) -> (r: Archetype)
    ensures
        r == credited(a, points as int),
{
    match a.player {
        Some(p) => Archetype {
            player: Some(Player { score: saturate(p.score as i64 + points as i64), ..p }),
            ..a
        },
        None => a,
    }
}

/// Picks up every collectible that a player touches: returns the bodies
/// with the scores credited, and the collectibles picked up.
pub fn collect(s: &Vec<Archetype>, touch: Touch, points: i32) -> (r: (
    Vec<Archetype>,
    Vec<usize>,
))
    ensures
        r.0@ == rewarded(s@, s@.len(), touch, points as int),
        r.0@.len() == s@.len(),
        forall|i: int| 0 <= i < s@.len() ==> writable(s@[i], #[trigger] r.0@[i]),
        ascending(r.1@),
        forall|c: usize| r.1@.contains(c) <==> c < s@.len() && taker(s@, c as int, touch) is Some,
        forall|j: int| 0 <= j < r.1@.len() ==> (#[trigger] r.1@[j]) < s@.len(),
{
    let n = s.len();
    let mut out: Vec<Archetype> = s.clone();
    let mut picked: Vec<usize> = Vec::new();
    assert(out@ =~= rewarded(s@, 0, touch, points as int)) by {
        assert(out@ =~= s@);
    }
    let mut c: usize = 0;
    while c < n
        invariant
            n == s@.len(),
            c <= n,
            out@ == rewarded(s@, c as nat, touch, points as int),
            out@.len() == n,
            ascending(picked@),
            forall|i: int| 0 <= i < picked@.len() ==> (#[trigger] picked@[i]) < c,
            forall|k: usize| picked@.contains(k) <==> k < c && taker(s@, k as int, touch) is Some,
        decreases n - c,
    {
        proof {
            lemma_rewarded_writable(s@, c as nat, touch, points as int);
        }
        match find_taker(s, c, touch) {
            Some(p) => {
                let credited_body = credit(out[p], points);
                out.set(p, credited_body);
                let ghost prev = picked@;
                picked.push(c);
                assert forall|k: usize|
                    picked@.contains(k) <==> k < c + 1 && taker(s@, k as int, touch) is Some by {
                    if picked@.contains(k) {
                        let i = choose|i: int| 0 <= i < picked@.len() && picked@[i] == k;
                        if i < prev.len() {
                            assert(prev[i] == k);
                            assert(prev.contains(k));
                        }
                    }
                    if k < c + 1 && taker(s@, k as int, touch) is Some {
                        if k == c {
                            assert(picked@[prev.len() as int] == k);
                        } else {
                            assert(prev.contains(k));
                            let i = choose|i: int| 0 <= i < prev.len() && prev[i] == k;
                            assert(picked@[i] == k);
                        }
                    }
                }
            },
            None => {},
        }
        c += 1;
    }
    proof {
        lemma_rewarded_writable(s@, n as nat, touch, points as int);
    }
    (out, picked)
}

/// Runs the three passes over `bodies`.
pub fn collide(bodies: &Vec<Archetype>) -> (r: Collisions)
    ensures
        r.bodies@ == collided(bodies@),
        r.bodies@.len() == bodies@.len(),
        forall|i: int|
            0 <= i < bodies@.len() ==> writable(ungrounded(bodies@[i]), #[trigger] r.bodies@[i]),
        ascending(r.picked@),
        forall|c: usize|
            r.picked@.contains(c) <==> c < bodies@.len() && taker(
                landed(bodies@),
                c as int,
                Touch::Boxes,
            ) is Some,
        forall|j: int| 0 <= j < r.picked@.len() ==> (#[trigger] r.picked@[j]) < bodies@.len(),
        ascending_pairs(r.contacts@),
        forall|p: usize, e: usize|
            r.contacts@.contains((p, e)) <==> hazard(landed(bodies@), p as int, e as int),
        forall|j: int|
            0 <= j < r.contacts@.len() ==> (#[trigger] r.contacts@[j]).0 < bodies@.len()
                && r.contacts@[j].1 < bodies@.len(),
{
    let on_ground = land_bodies(bodies);
    let contacts = find_contacts(&on_ground);
    let (after, picked) = collect(&on_ground, Touch::Boxes, PICKUP_SCORE);
    Collisions { bodies: after, picked, contacts }
}

/// The entities that the collision pass picks up in `w`.
pub open spec fn picked_entities(w: specs::World) -> Set<specs::Entity> {
    Set::new(
        |e: specs::Entity|
            exists|c: int|
                0 <= c < world_order(w).len() && world_order(w)[c] == e && taker(
                    landed(snapshot(w)),
                    c,
                    Touch::Boxes,
                ) is Some,
    )
}

/// Whether the collision pass finds the player `a` touching the enemy `b`
/// in `w`.
pub open spec fn in_contact(w: specs::World, a: specs::Entity, b: specs::Entity) -> bool {
    exists|p: int, e: int|
        hazard(landed(snapshot(w)), p, e) && world_order(w)[p] == a && world_order(w)[e] == b
}

/// Whether `contacts` lists the contacts that the collision pass finds in
/// `w`: each player that touches an enemy, with that enemy, ordered by the
/// place of the player and then of the enemy in the world's order.
pub open spec fn contacts_reported(
    w: specs::World,
    contacts: Seq<(specs::Entity, specs::Entity)>,
) -> bool {
    exists|pairs: Seq<(usize, usize)>|
        {
            &&& #[trigger] ascending_pairs(pairs)
            &&& forall|p: usize, e: usize|
                pairs.contains((p, e)) <==> hazard(landed(snapshot(w)), p as int, e as int)
            &&& contacts == named_pairs(world_order(w), pairs)
        }
}

proof fn lemma_clearing_twice(s: Seq<Archetype>)
    ensures
        landed(s.map_values(|a: Archetype| ungrounded(a))) == landed(s),
        s.map_values(|a: Archetype| ungrounded(a)).len() == s.len(),
{
    let once = s.map_values(|a: Archetype| Archetype { grounded: false, ..a });
    let first = s.map_values(|a: Archetype| ungrounded(a));
    let twice = first.map_values(|a: Archetype| Archetype { grounded: false, ..a });
    assert(twice =~= once);
}

/// What the collision pass does to a world: the bodies become
/// [`collided`], and every collectible that was picked up is marked for
/// deletion, once.
pub open spec fn collision_pass(before: specs::World, after: specs::World) -> bool {
    &&& world_ready(after)
    &&& world_wear(after) == world_wear(before)
    &&& world_order(after) == world_order(before)
    &&& world_contents(after).dom() == world_contents(before).dom()
    &&& snapshot(after) == collided(snapshot(before))
    &&& world_doomed(after) == world_doomed(before).union(picked_entities(before))
}

proof fn lemma_picked_are_listed(
    w: specs::World,
    ids: Seq<specs::Entity>,
    picked: Seq<usize>,
    count: usize,
)
    requires
        ids == world_order(w),
        ids.len() == count,
        snapshot(w).len() == ids.len(),
        forall|c: usize|
            picked.contains(c) <==> c < ids.len() && taker(landed(snapshot(w)), c as int, Touch::Boxes)
                is Some,
    ensures
        listed_entities(ids, picked) == picked_entities(w),
{
    assert forall|e: specs::Entity|
        listed_entities(ids, picked).contains(e) <==> picked_entities(w).contains(e) by {
        if picked_entities(w).contains(e) {
            let c = choose|c: int|
                0 <= c < world_order(w).len() && world_order(w)[c] == e && taker(
                    landed(snapshot(w)),
                    c,
                    Touch::Boxes,
                ) is Some;
            let cu = c as usize;
            assert(picked.contains(cu));
            let j = choose|j: int| 0 <= j < picked.len() && picked[j] == cu;
            assert(ids[picked[j] as int] == e);
        }
        if is_listed(ids, picked, e) {
            let j = choose|j: int| 0 <= j < picked.len() && #[trigger] ids[picked[j] as int] == e;
            assert(picked.contains(picked[j]));
        }
    }
    assert(listed_entities(ids, picked) =~= picked_entities(w));
}

proof fn lemma_contacts_named(
    w: specs::World,
    pairs: Seq<(usize, usize)>,
    contacts: Seq<(specs::Entity, specs::Entity)>,
    count: usize,
)
    requires
        world_order(w).len() == count,
        snapshot(w).len() == count,
        ascending_pairs(pairs),
        forall|p: usize, e: usize|
            pairs.contains((p, e)) <==> hazard(landed(snapshot(w)), p as int, e as int),
        contacts == named_pairs(world_order(w), pairs),
    ensures
        contacts_reported(w, contacts),
        forall|a: specs::Entity, b: specs::Entity|
            contacts.contains((a, b)) <==> in_contact(w, a, b),
{
    assert forall|a: specs::Entity, b: specs::Entity|
        contacts.contains((a, b)) <==> in_contact(w, a, b) by {
        if contacts.contains((a, b)) {
            let j = choose|j: int| 0 <= j < contacts.len() && contacts[j] == (a, b);
            let pair = pairs[j];
            assert(pairs.contains((pair.0, pair.1)));
            assert(hazard(landed(snapshot(w)), pair.0 as int, pair.1 as int));
        }
        if in_contact(w, a, b) {
            let (p, e) = choose|p: int, e: int|
                hazard(landed(snapshot(w)), p, e) && world_order(w)[p] == a && world_order(w)[e]
                    == b;
            let pu = p as usize;
            let eu = e as usize;
            assert(hazard(landed(snapshot(w)), pu as int, eu as int));
            assert(pairs.contains((pu, eu)));
            let j = choose|j: int| 0 <= j < pairs.len() && pairs[j] == (pu, eu);
            assert(contacts[j] == (a, b));
        }
    }
}

impl CollisionSystem {
    /// Runs the collision pass over the world and returns each player that
    /// touches an enemy, with that enemy.
    pub fn run(&mut self, world: &mut specs::World) -> (contacts: Vec<
        (specs::Entity, specs::Entity),
    >)
        requires
            world_ready(*old(world)),
        ensures
            collision_pass(*old(world), *final(world)),
            contacts_reported(*old(world), contacts@),
            forall|a: specs::Entity, b: specs::Entity|
                contacts@.contains((a, b)) <==> in_contact(*old(world), a, b),
    {
        clear_grounded(world);
        let (ids, before) = capture(world);
        proof {
            assert(before@ =~= snapshot(*old(world)).map_values(|a: Archetype| ungrounded(a)));
            lemma_clearing_twice(snapshot(*old(world)));
            assert forall|i: int| 0 <= i < before@.len() implies ungrounded(before@[i])
                == before@[i] by {}
        }
        let found = collide(&before);
        assert(found.bodies@ == collided(snapshot(*old(world))));
        commit(world, &ids, &before, &found.bodies);
        delete_listed(world, &ids, &found.picked);
        let contacts = name_pairs(&ids, &found.contacts);
        let count = ids.len();
        proof {
            lemma_picked_are_listed(*old(world), ids@, found.picked@, count);
            lemma_contacts_named(*old(world), found.contacts@, contacts@, count);
            assert(snapshot(*world) == collided(snapshot(*old(world))));
            assert(world_wear(*world) == world_wear(*old(world)));
            assert(world_order(*world) == world_order(*old(world)));
            assert(world_contents(*world).dom() == world_contents(*old(world)).dom());
            assert(world_doomed(*world) == world_doomed(*old(world)).union(
                picked_entities(*old(world)),
            ));
        }
        contacts
    }
}

proof fn lemma_settled_alone(a: Archetype, bodies: Seq<Archetype>, k: int, upto: nat)
    requires
        0 <= k < bodies.len(),
        upto <= bodies.len(),
        forall|j: int| 0 <= j < bodies.len() && j != k ==> contact(a, #[trigger] bodies[j]) is None,
    ensures
        settled(a, bodies, upto) == if k < upto {
            applied(a, contact(a, bodies[k]))
        } else {
            a
        },
    decreases upto,
{
    if upto > 0 {
        lemma_settled_alone(a, bodies, k, (upto - 1) as nat);
    }
}

proof fn lemma_rewarded_keeps_bodies(s: Seq<Archetype>, upto: nat, touch: Touch, points: int)
    ensures
        rewarded(s, upto, touch, points).len() == s.len(),
        forall|i: int|
            0 <= i < s.len() ==> (#[trigger] rewarded(s, upto, touch, points)[i]) == (Archetype {
                player: rewarded(s, upto, touch, points)[i].player,
                ..s[i]
            }),
        forall|i: int|
            0 <= i < s.len() ==> ((#[trigger] rewarded(s, upto, touch, points)[i]).player is Some
                <==> s[i].player is Some),
    decreases upto,
{
    if upto > 0 {
        lemma_rewarded_keeps_bodies(s, (upto - 1) as nat, touch, points);
        lemma_taker_in_range(s, upto - 1, 0, touch);
    }
}

/// Landing comes to rest: a falling body that overlaps one platform, with
/// its bottom edge within the tolerance of the platform's top, and touches
/// no other, leaves the collision pass standing on that platform, with no
/// vertical velocity, and grounded.
pub proof fn landing_comes_to_rest(bodies: Seq<Archetype>, i: int, k: int)
    requires
        0 <= i < bodies.len(),
        0 <= k < bodies.len(),
        is_mover(bodies[i]),
        is_ground(bodies[k]),
        overlaps(extent(bodies[i])->0, extent(bodies[k])->0),
        bodies[i].velocity->0.y > 0,
        extent(bodies[i])->0.y + extent(bodies[i])->0.h <= extent(bodies[k])->0.y
            + CONTACT_TOLERANCE,
        extent(bodies[k])->0.y - extent(bodies[i])->0.h >= i32::MIN,
        forall|j: int|
            0 <= j < bodies.len() && j != k ==> !(is_ground(#[trigger] bodies[j]) && overlaps(
                extent(bodies[i])->0,
                extent(bodies[j])->0,
            )),
    ensures
        collided(bodies).len() == bodies.len(),
        collided(bodies)[i].position->0.y == extent(bodies[k])->0.y - extent(bodies[i])->0.h,
        collided(bodies)[i].position->0.x == bodies[i].position->0.x,
        collided(bodies)[i].velocity->0.y == 0,
        collided(bodies)[i].grounded,
{
    let cleared = bodies.map_values(|a: Archetype| Archetype { grounded: false, ..a });
    let a = cleared[i];
    assert(extent(a) == extent(bodies[i]));
    assert(extent(cleared[k]) == extent(bodies[k]));
    assert forall|j: int| 0 <= j < cleared.len() && j != k implies contact(
        a,
        #[trigger] cleared[j],
    ) is None by {
        assert(extent(cleared[j]) == extent(bodies[j]));
        assert(is_ground(cleared[j]) == is_ground(bodies[j]));
    }
    lemma_settled_alone(a, cleared, k, cleared.len());
    lemma_rewarded_keeps_bodies(landed(bodies), bodies.len(), Touch::Boxes, PICKUP_SCORE as int);
    assert(landed(bodies)[i] == settled(a, cleared, cleared.len()));
}

proof fn lemma_settled_at_rest(a: Archetype, bodies: Seq<Archetype>, upto: nat)
    requires
        !a.grounded,
    ensures
        settled(a, bodies, upto).grounded ==> settled(a, bodies, upto).velocity is Some && settled(
            a,
            bodies,
            upto,
        ).velocity->0.y == 0,
    decreases upto,
{
    if upto > 0 {
        lemma_settled_at_rest(a, bodies, (upto - 1) as nat);
    }
}

/// Whoever is grounded is at rest: a body that leaves the collision pass
/// grounded has no vertical velocity, so it enters the next movement pass
/// without one.
pub proof fn grounded_is_at_rest(bodies: Seq<Archetype>, i: int)
    requires
        0 <= i < bodies.len(),
        collided(bodies)[i].grounded,
    ensures
        collided(bodies)[i].velocity is Some,
        collided(bodies)[i].velocity->0.y == 0,
{
    let cleared = bodies.map_values(|a: Archetype| Archetype { grounded: false, ..a });
    lemma_settled_at_rest(cleared[i], cleared, cleared.len());
    lemma_rewarded_keeps_bodies(landed(bodies), bodies.len(), Touch::Boxes, PICKUP_SCORE as int);
    assert(landed(bodies)[i] == settled(cleared[i], cleared, cleared.len()));
}

proof fn lemma_settled_landed(a: Archetype, bodies: Seq<Archetype>, upto: nat)
    requires
        !a.grounded,
        upto <= bodies.len(),
    ensures
        settled(a, bodies, upto).grounded ==> exists|k: int|
            0 <= k < upto && #[trigger] contact(a, bodies[k]) is Some && contact(a, bodies[k])->0
                is Land,
    decreases upto,
{
    if upto > 0 {
        lemma_settled_landed(a, bodies, (upto - 1) as nat);
        let before = settled(a, bodies, (upto - 1) as nat);
        if settled(a, bodies, upto).grounded {
            if before.grounded {
                let k = choose|k: int|
                    0 <= k < upto - 1 && #[trigger] contact(a, bodies[k]) is Some && contact(
                        a,
                        bodies[k],
                    )->0 is Land;
                assert(0 <= k < upto && contact(a, bodies[k]) is Some && contact(a, bodies[k])->0
                    is Land);
            } else {
                assert(contact(a, bodies[upto - 1]) is Some && contact(a, bodies[upto - 1])->0
                    is Land);
            }
        }
    }
}

/// Only landing grounds a body: a body leaves the collision pass grounded
/// only if, in that pass, it was set down on top of a platform; what it was
/// before the pass does not count.
pub proof fn grounded_means_landed(bodies: Seq<Archetype>, i: int)
    requires
        0 <= i < bodies.len(),
        collided(bodies)[i].grounded,
    ensures
        exists|k: int|
            0 <= k < bodies.len() && #[trigger] contact(ungrounded(bodies[i]), ungrounded(bodies[k]))
                is Some && contact(ungrounded(bodies[i]), ungrounded(bodies[k]))->0 is Land,
{
    let cleared = bodies.map_values(|a: Archetype| Archetype { grounded: false, ..a });
    lemma_settled_landed(cleared[i], cleared, cleared.len());
    lemma_rewarded_keeps_bodies(landed(bodies), bodies.len(), Touch::Boxes, PICKUP_SCORE as int);
    assert(landed(bodies)[i] == settled(cleared[i], cleared, cleared.len()));
    let k = choose|k: int|
        0 <= k < cleared.len() && #[trigger] contact(cleared[i], cleared[k]) is Some && contact(
            cleared[i],
            cleared[k],
        )->0 is Land;
    assert(cleared[i] == ungrounded(bodies[i]) && cleared[k] == ungrounded(bodies[k]));
}

/// The collision pass never lowers a score.
pub proof fn score_never_drops(bodies: Seq<Archetype>, p: int)
    requires
        0 <= p < bodies.len(),
        bodies[p].player is Some,
    ensures
        collided(bodies)[p].player is Some,
        collided(bodies)[p].player->0.score >= bodies[p].player->0.score,
{
    let on_ground = landed(bodies);
    let cleared = bodies.map_values(|a: Archetype| Archetype { grounded: false, ..a });
    lemma_settled_writable(cleared[p], cleared, cleared.len());
    assert(on_ground[p] == settled(cleared[p], cleared, cleared.len()));
    assert(on_ground[p].player == bodies[p].player);
    pickup_counts_once(on_ground, bodies.len(), Touch::Boxes, PICKUP_SCORE as int, p);
    assert(takes(on_ground, p, bodies.len(), Touch::Boxes) * PICKUP_SCORE >= 0) by (nonlinear_arith)
        requires
            takes(on_ground, p, bodies.len(), Touch::Boxes) >= 0,
            PICKUP_SCORE == 10,
    ;
}

/// What is resolved stays resolved: a body that does not overlap any
/// platform keeps its position and velocity through the collision pass.
pub proof fn apart_stays_put(bodies: Seq<Archetype>, i: int)
    requires
        0 <= i < bodies.len(),
        forall|j: int|
            0 <= j < bodies.len() ==> !(is_mover(bodies[i]) && is_ground(#[trigger] bodies[j])
                && overlaps(extent(bodies[i])->0, extent(bodies[j])->0)),
    ensures
        collided(bodies).len() == bodies.len(),
        collided(bodies)[i].position == bodies[i].position,
        collided(bodies)[i].velocity == bodies[i].velocity,
        !collided(bodies)[i].grounded,
{
    let cleared = bodies.map_values(|a: Archetype| Archetype { grounded: false, ..a });
    let a = cleared[i];
    assert(extent(a) == extent(bodies[i]));
    assert forall|j: int| 0 <= j < cleared.len() implies contact(a, #[trigger] cleared[j])
        is None by {
        assert(extent(cleared[j]) == extent(bodies[j]));
        assert(is_ground(cleared[j]) == is_ground(bodies[j]));
    }
    if cleared.len() > 0 {
        lemma_settled_alone(a, cleared, 0, cleared.len());
    }
    lemma_rewarded_keeps_bodies(landed(bodies), bodies.len(), Touch::Boxes, PICKUP_SCORE as int);
    assert(landed(bodies)[i] == settled(a, cleared, cleared.len()));
}

/// A resolution separates: once a body of positive size has been moved out
/// of a platform, the two no longer overlap, so resolving them again
/// changes nothing.
pub proof fn resolution_separates(m: Aabb, v: Velocity, p: Aabb)
    requires
        resolution(m, v, p) is Some,
        i32::MIN <= p.y - m.h,
        p.y + p.h <= i32::MAX,
        i32::MIN <= p.x - m.w,
        p.x + p.w <= i32::MAX,
    ensures
        match resolution(m, v, p)->0 {
            Resolution::Land { y } => !overlaps(Aabb { y: y, ..m }, p),
            Resolution::Bump { y } => !overlaps(Aabb { y: y, ..m }, p),
            Resolution::StopAtLeft { x } => !overlaps(Aabb { x: x, ..m }, p),
            Resolution::StopAtRight { x } => !overlaps(Aabb { x: x, ..m }, p),
        },
{
}

/// The number of collectibles before index `upto` that the player at `p`
/// picks up.
pub open spec fn takes(s: Seq<Archetype>, p: int, upto: nat, touch: Touch) -> nat
    decreases upto,
{
    if upto == 0 {
        0
    } else {
        takes(s, p, (upto - 1) as nat, touch) + if taker(s, upto - 1, touch) == Some(p) {
            1nat
        } else {
            0nat
        }
    }
}

/// A pickup counts once: every collectible that is picked up credits its
/// points to one player only, so a player's score grows by the points of
/// the collectibles it took and by nothing else. Other entities are left
/// as they were.
pub proof fn pickup_counts_once(s: Seq<Archetype>, upto: nat, touch: Touch, points: int, p: int)
    requires
        0 <= p < s.len(),
        upto <= s.len(),
        points >= 0,
    ensures
        rewarded(s, upto, touch, points).len() == s.len(),
        rewarded(s, upto, touch, points)[p] == credited(
            s[p],
            takes(s, p, upto, touch) * points,
        ),
    decreases upto,
{
    if upto > 0 {
        let before = rewarded(s, (upto - 1) as nat, touch, points);
        let n = takes(s, p, (upto - 1) as nat, touch);
        pickup_counts_once(s, (upto - 1) as nat, touch, points, p);
        lemma_rewarded_keeps_bodies(s, (upto - 1) as nat, touch, points);
        lemma_taker_in_range(s, upto - 1, 0, touch);
        assert((n + 1) * points == n * points + points) by (nonlinear_arith);
        assert(n * points >= 0) by (nonlinear_arith)
            requires
                n >= 0,
                points >= 0,
        ;
        if taker(s, upto - 1, touch) == Some(p) {
            assert(s[p].player is Some);
        }
    } else {
        assert(0 * points == 0);
    }
}

proof fn lemma_takes_of_the_only_collectible(
    s: Seq<Archetype>,
    c: int,
    p: int,
    upto: nat,
    touch: Touch,
)
    requires
        upto <= s.len(),
        forall|k: int| 0 <= k < s.len() && k != c ==> !(#[trigger] s[k]).collectible,
    ensures
        takes(s, p, upto, touch) == if c < upto && taker(s, c, touch) == Some(p) {
            1nat
        } else {
            0nat
        },
    decreases upto,
{
    lemma_taker_in_range(s, c, 0, touch);
    if upto > 0 {
        let last = upto - 1;
        lemma_takes_of_the_only_collectible(s, c, p, last as nat, touch);
        lemma_taker_in_range(s, last, 0, touch);
        if last != c {
            if taker(s, last, touch) is Some {
                let q = taker(s, last, touch)->0;
                assert(reaches(s, q, last, touch));
                assert(s[last].collectible);
            }
            assert(taker(s, last, touch) is None);
        }
    }
}

/// A collectible shared is counted once: where two players, and no others,
/// touch the only collectible, the first of them gains its points and the
/// other gains nothing, so that the two scores together grow by the points
/// of one pickup.
pub proof fn shared_pickup_counts_once(
    s: Seq<Archetype>,
    c: int,
    a: int,
    b: int,
    touch: Touch,
    points: int,
)
    requires
        a < b,
        reaches(s, a, c, touch),
        reaches(s, b, c, touch),
        forall|p: int| reaches(s, p, c, touch) ==> p == a || p == b,
        forall|k: int| 0 <= k < s.len() && k != c ==> !(#[trigger] s[k]).collectible,
        points >= 0,
        s[a].player->0.score + points <= i32::MAX,
    ensures
        taker(s, c, touch) == Some(a),
        rewarded(s, s.len(), touch, points).len() == s.len(),
        rewarded(s, s.len(), touch, points)[a].player->0.score == s[a].player->0.score + points,
        rewarded(s, s.len(), touch, points)[b].player->0.score == s[b].player->0.score,
{
    lemma_taker_in_range(s, c, 0, touch);
    lemma_takes_of_the_only_collectible(s, c, a, s.len(), touch);
    lemma_takes_of_the_only_collectible(s, c, b, s.len(), touch);
    pickup_counts_once(s, s.len(), touch, points, a);
    pickup_counts_once(s, s.len(), touch, points, b);
}

/// Whether `bodies` holds no mover but the one at `i` and no platform but
/// the one at `k`, and the snap of the one against the other stays inside
/// the number range.
pub open spec fn lone_pair(bodies: Seq<Archetype>, i: int, k: int) -> bool {
    &&& 0 <= i < bodies.len()
    &&& 0 <= k < bodies.len()
    &&& i != k
    &&& forall|j: int| 0 <= j < bodies.len() && j != i ==> !is_mover(#[trigger] bodies[j])
    &&& forall|j: int| 0 <= j < bodies.len() && j != k ==> !is_ground(#[trigger] bodies[j])
    &&& is_mover(bodies[i]) && is_ground(bodies[k]) ==> {
        let m = extent(bodies[i])->0;
        let p = extent(bodies[k])->0;
        &&& i32::MIN <= p.y - m.h
        &&& p.y + p.h <= i32::MAX
        &&& i32::MIN <= p.x - m.w
        &&& p.x + p.w <= i32::MAX
    }
}

proof fn lemma_pass_of_a_pair(bodies: Seq<Archetype>, i: int, k: int)
    requires
        lone_pair(bodies, i, k),
    ensures
        collided(bodies).len() == bodies.len(),
        forall|j: int|
            0 <= j < bodies.len() ==> {
                &&& (#[trigger] collided(bodies)[j]).renderable == bodies[j].renderable
                &&& collided(bodies)[j].platform == bodies[j].platform
                &&& collided(bodies)[j].player is Some <==> bodies[j].player is Some
                &&& collided(bodies)[j].velocity is Some <==> bodies[j].velocity is Some
                &&& collided(bodies)[j].position is Some <==> bodies[j].position is Some
            },
        forall|j: int|
            0 <= j < bodies.len() && j != i ==> (#[trigger] collided(bodies)[j]).position
                == bodies[j].position && collided(bodies)[j].velocity == bodies[j].velocity,
        collided(bodies)[i].position == applied(
            ungrounded(bodies[i]),
            contact(ungrounded(bodies[i]), ungrounded(bodies[k])),
        ).position,
        collided(bodies)[i].velocity == applied(
            ungrounded(bodies[i]),
            contact(ungrounded(bodies[i]), ungrounded(bodies[k])),
        ).velocity,
{
    let cleared = bodies.map_values(|a: Archetype| Archetype { grounded: false, ..a });
    lemma_rewarded_keeps_bodies(landed(bodies), bodies.len(), Touch::Boxes, PICKUP_SCORE as int);
    assert forall|j: int| 0 <= j < bodies.len() implies (#[trigger] landed(bodies)[j]) == applied(
        cleared[j],
        contact(cleared[j], cleared[k]),
    ) by {
        assert forall|x: int| 0 <= x < cleared.len() && x != k implies contact(
            cleared[j],
            #[trigger] cleared[x],
        ) is None by {
            assert(is_ground(cleared[x]) == is_ground(bodies[x]));
        }
        lemma_settled_alone(cleared[j], cleared, k, cleared.len());
        assert(landed(bodies)[j] == settled(cleared[j], cleared, cleared.len()));
    }
    assert forall|j: int| 0 <= j < bodies.len() && j != i implies contact(cleared[j], cleared[k])
        is None by {
        assert(is_mover(cleared[j]) == is_mover(bodies[j]));
    }
    assert(cleared[i] == ungrounded(bodies[i]) && cleared[k] == ungrounded(bodies[k]));
}

/// A second pass changes nothing: where one body moves and one platform
/// stands, whatever the collision pass has made of them, running it again
/// moves neither and changes no velocity.
pub proof fn second_pass_changes_nothing(bodies: Seq<Archetype>, i: int, k: int)
    requires
        lone_pair(bodies, i, k),
    ensures
        collided(collided(bodies)).len() == bodies.len(),
        forall|j: int|
            0 <= j < bodies.len() ==> (#[trigger] collided(collided(bodies))[j]).position
                == collided(bodies)[j].position && collided(collided(bodies))[j].velocity
                == collided(bodies)[j].velocity,
{
    let once = collided(bodies);
    lemma_pass_of_a_pair(bodies, i, k);
    let first = contact(ungrounded(bodies[i]), ungrounded(bodies[k]));
    let again = contact(ungrounded(once[i]), ungrounded(once[k]));
    assert(extent(once[k]) == extent(bodies[k]));
    assert(is_ground(ungrounded(once[k])) == is_ground(ungrounded(bodies[k])));
    assert(is_mover(ungrounded(once[i])) == is_mover(ungrounded(bodies[i])));
    if first is Some {
        let m = extent(bodies[i])->0;
        let v = bodies[i].velocity->0;
        let p = extent(bodies[k])->0;
        resolution_separates(m, v, p);
        assert(!overlaps(extent(once[i])->0, p));
    } else {
        assert(once[i].position == bodies[i].position);
        assert(once[i].velocity == bodies[i].velocity);
        assert(extent(once[i]) == extent(bodies[i]));
    }
    assert(again is None);
    assert(lone_pair(once, i, k)) by {
        assert forall|j: int| 0 <= j < once.len() && j != i implies !is_mover(
            #[trigger] once[j],
        ) by {
            assert(is_mover(once[j]) == is_mover(bodies[j]));
        }
        assert forall|j: int| 0 <= j < once.len() && j != k implies !is_ground(
            #[trigger] once[j],
        ) by {
            assert(is_ground(once[j]) == is_ground(bodies[j]));
        }
    }
    lemma_pass_of_a_pair(once, i, k);
}

} // verus!
