//! Levels as text: one character per tile, one line per row.

use vstd::prelude::*;
use vstd::pervasive::unreached;
use vstd::std_specs::iter::IteratorSpec;
use vstd::string::StrSliceExecFns;
use crate::components::{Archetype, Health, Player, Position, Renderable, Velocity};
use crate::units::{sat, TILE, UNIT};
use crate::world::{
    entities, exists_in, lookup, spawn, world_contents, world_doomed, world_order, world_ready,
    world_wear, CAPACITY, WEAR_LIMIT,
};

verus! {

/// Where the tile in the given column or row begins.
pub open spec fn tile_origin(index: nat) -> int {
    sat(index * TILE)
}

/// The column and the row at which the character after `chars` stands: a
/// line feed ends a row, any other character fills a column.
pub open spec fn cursor(chars: Seq<char>) -> (nat, nat)
    decreases chars.len(),
{
    if chars.len() == 0 {
        (0, 0)
    } else {
        let (col, row) = cursor(chars.drop_last());
        if chars.last() == '\n' {
            (0, row + 1)
        } else {
            (col + 1, row)
        }
    }
}

/// A bounding box of `w` by `h` whole units in the given colour.
pub open spec fn sprite(w: int, h: int, color: (u8, u8, u8)) -> Option<Renderable> {
    Some(Renderable { width: (w * UNIT) as i32, height: (h * UNIT) as i32, color: color })
}

/// The entity that the character `ch` stands for at the given column and
/// row, if it stands for one.
pub open spec fn tile(ch: char, col: nat, row: nat) -> Option<Archetype> {
    let at = Some(Position { x: tile_origin(col) as i32, y: tile_origin(row) as i32 });
    if ch == '#' {
        Some(
            Archetype {
                position: at,
                renderable: sprite(40, 40, (100, 100, 100)),
                platform: true,
                ..Archetype::vacant()
            },
        )
    } else if ch == 'P' {
        Some(
            Archetype {
                position: at,
                velocity: Some(Velocity { x: 0, y: 0 }),
                renderable: sprite(40, 40, (0, 255, 0)),
                player: Some(Player { speed: 200_000, jump_force: 600_000, score: 0 }),
                health: Some(Health { current: 100, max: 100 }),
                gravity: true,
                ..Archetype::vacant()
            },
        )
    } else if ch == 'E' {
        Some(
            Archetype {
                position: at,
                velocity: Some(Velocity { x: 100_000, y: 0 }),
                renderable: sprite(40, 40, (255, 0, 0)),
                enemy: true,
                gravity: true,
                ..Archetype::vacant()
            },
        )
    } else if ch == 'C' {
        Some(
            Archetype {
                position: at,
                renderable: sprite(20, 20, (255, 215, 0)),
                collectible: true,
                ..Archetype::vacant()
            },
        )
    } else if ch == 'G' {
        Some(
            Archetype {
                position: at,
                renderable: sprite(40, 60, (0, 255, 255)),
                goal: true,
                ..Archetype::vacant()
            },
        )
    } else if ch == '?' {
        Some(
            Archetype {
                position: at,
                renderable: sprite(40, 40, (200, 200, 255)),
                ..Archetype::vacant()
            },
        )
    } else {
        None
    }
}

/// The entities of a level, in reading order.
pub open spec fn layout(chars: Seq<char>) -> Seq<Archetype>
    decreases chars.len(),
{
    if chars.len() == 0 {
        Seq::empty()
    } else {
        let before = layout(chars.drop_last());
        let (col, row) = cursor(chars.drop_last());
        match tile(chars.last(), col, row) {
            Some(a) => before.push(a),
            None => before,
        }
    }
}

/// Where the tile in the given column or row begins.
pub fn origin_of(index: usize) -> (r: i32)
    ensures
        r as int == tile_origin(index as nat),
{
    if index > 53_687 {
        i32::MAX
    } else {
        (index as i32) * TILE
    }
}

/// The entity that a character stands for.
pub fn tile_of(ch: char, col: usize, row: usize) -> (r: Option<Archetype>)
    ensures
        r == tile(ch, col as nat, row as nat),
{
    let at = Some(Position { x: origin_of(col), y: origin_of(row) });
    let blank = Archetype::empty();
    if ch == '#' {
        Some(
            Archetype {
                position: at,
                renderable: Some(
                    Renderable { width: 40 * UNIT, height: 40 * UNIT, color: (100, 100, 100) },
                ),
                platform: true,
                ..blank
            },
        )
    } else if ch == 'P' {
        Some(
            Archetype {
                position: at,
                velocity: Some(Velocity { x: 0, y: 0 }),
                renderable: Some(
                    Renderable { width: 40 * UNIT, height: 40 * UNIT, color: (0, 255, 0) },
                ),
                player: Some(Player { speed: 200_000, jump_force: 600_000, score: 0 }),
                health: Some(Health { current: 100, max: 100 }),
                gravity: true,
                ..blank
            },
        )
    } else if ch == 'E' {
        Some(
            Archetype {
                position: at,
                velocity: Some(Velocity { x: 100_000, y: 0 }),
                renderable: Some(
                    Renderable { width: 40 * UNIT, height: 40 * UNIT, color: (255, 0, 0) },
                ),
                enemy: true,
                gravity: true,
                ..blank
            },
        )
    } else if ch == 'C' {
        Some(
            Archetype {
                position: at,
                renderable: Some(
                    Renderable { width: 20 * UNIT, height: 20 * UNIT, color: (255, 215, 0) },
                ),
                collectible: true,
                ..blank
            },
        )
    } else if ch == 'G' {
        Some(
            Archetype {
                position: at,
                renderable: Some(
                    Renderable { width: 40 * UNIT, height: 60 * UNIT, color: (0, 255, 255) },
                ),
                goal: true,
                ..blank
            },
        )
    } else if ch == '?' {
        Some(
            Archetype {
                position: at,
                renderable: Some(
                    Renderable { width: 40 * UNIT, height: 40 * UNIT, color: (200, 200, 255) },
                ),
                ..blank
            },
        )
    } else {
        None
    }
}

/// Reads a level: the entities it describes, in reading order.
pub fn parse_level(level_data: &str) -> (r: Vec<Archetype>)
    ensures
        r@ == layout(level_data@),
{
    broadcast use {vstd::string::axiom_spec_iter, vstd::string::next_postcondition};

    let n = level_data.unicode_len();
    let mut chars = level_data.chars();
    let mut out: Vec<Archetype> = Vec::new();
    let mut col: usize = 0;
    let mut row: usize = 0;
    let mut i: usize = 0;
    while i < n
        invariant
            n == level_data@.len(),
            i <= n,
            col <= i,
            row <= i,
            chars.remaining() == level_data@.skip(i as int),
            (col as nat, row as nat) == cursor(level_data@.take(i as int)),
            out@ == layout(level_data@.take(i as int)),
        decreases n - i,
    {
        let ghost rest = chars.remaining();
        let ch = match chars.next() {
            Some(ch) => ch,
            None => unreached(),
        };
        proof {
            let next = level_data@.take(i + 1);
            assert(rest[0] == level_data@[i as int]);
            assert(rest.drop_first() =~= level_data@.skip(i + 1));
            assert(next.drop_last() =~= level_data@.take(i as int));
            assert(next.last() == ch);
        }
        match tile_of(ch, col, row) {
            Some(a) => {
                out.push(a);
            },
            None => {},
        }
        if ch == '\n' {
            col = 0;
            row = row + 1;
        } else {
            col = col + 1;
        }
        i += 1;
    }
    assert(level_data@.take(n as int) =~= level_data@);
    out
}

/// Whether `after` is `before` with one new entity for each bundle of
/// `cast`: `ids` are those entities, in the order of `cast`, and nothing
/// that existed has changed.
pub open spec fn populated(
    before: specs::World,
    after: specs::World,
    ids: Seq<specs::Entity>,
    cast: Seq<Archetype>,
) -> bool {
    &&& world_ready(after)
    &&& world_doomed(after) == world_doomed(before)
    &&& world_wear(after) == world_wear(before)
    &&& world_order(after).len() == world_order(before).len() + cast.len()
    &&& ids.len() == cast.len()
    &&& ids.no_duplicates()
    &&& forall|j: int| 0 <= j < ids.len() ==> !exists_in(before, #[trigger] ids[j])
    &&& forall|j: int| 0 <= j < ids.len() ==> lookup(after, #[trigger] ids[j]) == cast[j]
    &&& world_contents(after).dom() == world_contents(before).dom().union(ids.to_set())
    &&& forall|e: specs::Entity| exists_in(before, e) ==> lookup(after, e) == lookup(before, e)
}

/// Creates one entity for each bundle of `cast`, in order, and returns
/// them. Where the world has no room for all of them, it creates none and
/// returns `None`.
pub fn spawn_all(world: &mut specs::World, cast: &Vec<Archetype>) -> (r: Option<
    Vec<specs::Entity>,
>)
    requires
        world_ready(*old(world)),
        world_wear(*old(world)) < WEAR_LIMIT,
    ensures
        r is Some <==> world_order(*old(world)).len() + cast@.len() <= CAPACITY,
        r is None ==> *final(world) == *old(world),
        r matches Some(ids) ==> populated(*old(world), *final(world), ids@, cast@),
{
    let count = entities(world).len();
    if count > CAPACITY || cast.len() > CAPACITY - count {
        return None;
    }
    let mut ids: Vec<specs::Entity> = Vec::new();
    let mut i: usize = 0;
    while i < cast.len()
        invariant
            i <= cast.len(),
            count + cast@.len() <= CAPACITY,
            count == world_order(*old(world)).len(),
            world_ready(*world),
            world_doomed(*world) == world_doomed(*old(world)),
            world_wear(*world) == world_wear(*old(world)),
            world_wear(*world) < WEAR_LIMIT,
            world_order(*world).len() == count + i,
            ids@.len() == i,
            ids@.no_duplicates(),
            forall|j: int| 0 <= j < i ==> !exists_in(*old(world), #[trigger] ids@[j]),
            forall|j: int| 0 <= j < i ==> lookup(*world, #[trigger] ids@[j]) == cast@[j],
            world_contents(*world).dom() == world_contents(*old(world)).dom().union(ids@.to_set()),
            forall|e: specs::Entity|
                exists_in(*old(world), e) ==> lookup(*world, e) == lookup(*old(world), e),
        decreases cast.len() - i,
    {
        let ghost here = *world;
        let ghost prev = ids@;
        let e = spawn(world, cast[i]);
        ids.push(e);
        proof {
            assert forall|j: int| 0 <= j < i implies prev[j] != e by {
                assert(prev.to_set().contains(prev[j]));
            }
            assert forall|j: int| 0 <= j < i + 1 implies lookup(*world, #[trigger] ids@[j])
                == cast@[j] by {
                if j < i {
                    assert(ids@[j] == prev[j]);
                    assert(prev.to_set().contains(prev[j]));
                    assert(lookup(here, prev[j]) == cast@[j]);
                }
            }
            assert(world_contents(*world).dom() =~= world_contents(*old(world)).dom().union(
                ids@.to_set(),
            )) by {
                assert forall|x: specs::Entity|
                    ids@.to_set().contains(x) <==> prev.to_set().contains(x) || x == e by {
                    if prev.to_set().contains(x) {
                        let j = choose|j: int| 0 <= j < prev.len() && prev[j] == x;
                        assert(ids@[j] == x);
                    }
                    if ids@.to_set().contains(x) {
                        let j = choose|j: int| 0 <= j < ids@.len() && ids@[j] == x;
                        if j < i {
                            assert(prev[j] == x);
                        }
                    }
                    if x == e {
                        assert(ids@[i as int] == x);
                    }
                }
            }
        }
        i += 1;
    }
    Some(ids)
}

/// Builds the entities of a level in the world and returns them in reading
/// order. Where the world has no room for the level, it builds nothing and
/// returns `None`.
pub fn load_level(world: &mut specs::World, level_data: &str) -> (r: Option<Vec<specs::Entity>>)
    requires
        world_ready(*old(world)),
        world_wear(*old(world)) < WEAR_LIMIT,
    ensures
        r is Some <==> world_order(*old(world)).len() + layout(level_data@).len() <= CAPACITY,
        r is None ==> *final(world) == *old(world),
        r matches Some(ids) ==> populated(*old(world), *final(world), ids@, layout(level_data@)),
{
    let cast = parse_level(level_data);
    spawn_all(world, &cast)
}

} // verus!
