//! Pickup by collision radius: a collectible within reach of a player is
//! deleted and counts one point.

use vstd::prelude::*;
use crate::systems::collision::{collect, rewarded, taker, Touch};
use crate::world::{
    capture, commit, delete_listed, is_listed, listed_entities, snapshot, world_contents,
    world_doomed, world_order, world_ready, world_wear,
};

verus! {

/// Picks up collectibles by collision radius.
pub struct CollectibleSystem;

/// Points granted by a collectible that is picked up by radius.
pub const RADIUS_PICKUP_SCORE: i32 = 1;

/// The entities that the radius pickup takes out of `w`.
pub open spec fn gathered_entities(w: specs::World) -> Set<specs::Entity> {
    Set::new(
        |e: specs::Entity|
            exists|c: int|
                0 <= c < world_order(w).len() && world_order(w)[c] == e && taker(
                    snapshot(w),
                    c,
                    Touch::Circles,
                ) is Some,
    )
}

/// What the radius pickup does to a world: each collectible within reach
/// of a player is marked for deletion, once, and credits one point to the
/// first such player.
pub open spec fn pickup_pass(before: specs::World, after: specs::World) -> bool {
    &&& world_ready(after)
    &&& world_wear(after) == world_wear(before)
    &&& world_order(after) == world_order(before)
    &&& world_contents(after).dom() == world_contents(before).dom()
    &&& snapshot(after) == rewarded(
        snapshot(before),
        snapshot(before).len(),
        Touch::Circles,
        RADIUS_PICKUP_SCORE as int,
    )
    &&& world_doomed(after) == world_doomed(before).union(gathered_entities(before))
}

proof fn lemma_gathered_are_listed(
    w: specs::World,
    ids: Seq<specs::Entity>,
    picked: Seq<usize>,
    count: usize,
)
    requires
        ids == world_order(w),
        ids.len() == count,
        snapshot(w).len() == ids.len(),
        forall|c: usize|
            picked.contains(c) <==> c < ids.len() && taker(snapshot(w), c as int, Touch::Circles)
                is Some,
    ensures
        listed_entities(ids, picked) == gathered_entities(w),
{
    assert forall|e: specs::Entity|
        listed_entities(ids, picked).contains(e) <==> gathered_entities(w).contains(e) by {
        if gathered_entities(w).contains(e) {
            let c = choose|c: int|
                0 <= c < world_order(w).len() && world_order(w)[c] == e && taker(
                    snapshot(w),
                    c,
                    Touch::Circles,
                ) is Some;
            let cu = c as usize;
            assert(picked.contains(cu));
            let j = choose|j: int| 0 <= j < picked.len() && picked[j] == cu;
            assert(ids[picked[j] as int] == e);
        }
        if is_listed(ids, picked, e) {
            let j = choose|j: int| 0 <= j < picked.len() && #[trigger] ids[picked[j] as int] == e;
            assert(picked.contains(picked[j]));
        }
    }
    assert(listed_entities(ids, picked) =~= gathered_entities(w));
}

impl CollectibleSystem {
    /// Runs the pickup over the world.
    pub fn run(&mut self, world: &mut specs::World)
        requires
            world_ready(*old(world)),
        ensures
            pickup_pass(*old(world), *final(world)),
    {
        let (ids, before) = capture(world);
        let (after, picked) = collect(&before, Touch::Circles, RADIUS_PICKUP_SCORE);
        commit(world, &ids, &before, &after);
        delete_listed(world, &ids, &picked);
        let count = ids.len();
        proof {
            lemma_gathered_are_listed(*old(world), ids@, picked@, count);
            assert(snapshot(*world) == after@);
        }
    }
}

} // verus!
