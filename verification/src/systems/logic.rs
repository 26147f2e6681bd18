//! Game rules that follow movement: a player that falls out of the level is
//! put back at the start with its score reset.

use vstd::prelude::*;
use crate::components::{Archetype, Player, Position, Velocity};
use crate::units::{FALL_LIMIT, RESPAWN_X, RESPAWN_Y};
use crate::world::{
    capture, commit, same_population, snapshot, world_ready,
};

verus! {

/// Resets players that fell below the level.
pub struct LogicSystem;

/// Whether `a` is a player that has fallen below [`FALL_LIMIT`].
pub open spec fn fallen(a: Archetype) -> bool {
    &&& a.position matches Some(p)
    &&& a.velocity is Some
    &&& a.player is Some
    &&& p.y > FALL_LIMIT
}

/// One entity after the rules were applied: a fallen player is back at the
/// respawn point, at rest, with no score; the player itself is not deleted.
pub open spec fn judged(a: Archetype) -> Archetype {
    if fallen(a) {
        Archetype {
            position: Some(Position { x: RESPAWN_X, y: RESPAWN_Y }),
            velocity: Some(Velocity { x: 0, y: 0 }),
            player: Some(Player { score: 0, ..a.player->0 }),
            ..a
        }
    } else {
        a
    }
}

/// Applies the rules to one entity.
pub fn judge(a: Archetype) -> (r: Archetype)
    ensures
        r == judged(a),
{
    match (a.position, a.velocity, a.player) {
        (Some(p), Some(_), Some(player)) => {
            if p.y > FALL_LIMIT {
                Archetype {
                    position: Some(Position { x: RESPAWN_X, y: RESPAWN_Y }),
                    velocity: Some(Velocity { x: 0, y: 0 }),
                    player: Some(Player { score: 0, ..player }),
                    ..a
                }
            } else {
                a
            }
        },
        _ => a,
    }
}

/// Applies the rules to every entity.
pub fn judge_bodies(bodies: &Vec<Archetype>) -> (r: Vec<Archetype>)
    ensures
        r@ == bodies@.map_values(|a: Archetype| judged(a)),
{
    let mut out: Vec<Archetype> = Vec::new();
    let mut i: usize = 0;
    while i < bodies.len()
        invariant
            i <= bodies.len(),
            out@.len() == i,
            forall|j: int| 0 <= j < i ==> out@[j] == judged(#[trigger] bodies@[j]),
        decreases bodies.len() - i,
    {
        out.push(judge(bodies[i]));
        i += 1;
    }
    assert(out@ =~= bodies@.map_values(|a: Archetype| judged(a)));
    out
}

/// What the rules do to a world: every entity becomes [`judged`], and
/// nothing is created or deleted.
pub open spec fn logic_pass(before: specs::World, after: specs::World) -> bool {
    &&& same_population(before, after)
    &&& snapshot(after) == snapshot(before).map_values(|a: Archetype| judged(a))
}

impl LogicSystem {
    /// Runs the rules over the world.
    pub fn run(&mut self, world: &mut specs::World)
        requires
            world_ready(*old(world)),
        ensures
            logic_pass(*old(world), *final(world)),
    {
        let (ids, before) = capture(world);
        let after = judge_bodies(&before);
        commit(world, &ids, &before, &after);
    }
}

} // verus!
