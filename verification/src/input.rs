//! Player control: what a key press or release does to the velocity of
//! every player.

use vstd::prelude::*;
use crate::components::{Archetype, Velocity};
use crate::units::{sat, saturate};
use crate::world::{
    capture, commit, same_population, snapshot, world_ready,
};

verus! {

/// The keys the game reacts to.
#[derive(Clone, Copy, Debug, PartialEq, Eq)]
pub enum Key {
    Left,
    Right,
    Jump,
    Other,
}

/// The velocity `v` of the player `a` after the key event. Pressing left or
/// right sets the horizontal velocity to the player's speed in that
/// direction; releasing stops the player only if it still moves in the
/// direction released. Jump sets the vertical velocity to the jump force
/// upward, and only from the ground.
pub open spec fn steered_velocity(a: Archetype, v: Velocity, key: Key, pressed: bool) -> Velocity {
    let player = a.player->0;
    match key {
        Key::Left => if pressed {
            Velocity { x: sat(-player.speed) as i32, ..v }
        } else if v.x < 0 {
            Velocity { x: 0, ..v }
        } else {
            v
        },
        Key::Right => if pressed {
            Velocity { x: player.speed, ..v }
        } else if v.x > 0 {
            Velocity { x: 0, ..v }
        } else {
            v
        },
        Key::Jump => if pressed && a.grounded {
            Velocity { y: sat(-player.jump_force) as i32, ..v }
        } else {
            v
        },
        Key::Other => v,
    }
}

/// One entity after the key event: only players that have a velocity react.
pub open spec fn steered(a: Archetype, key: Key, pressed: bool) -> Archetype {
    match (a.velocity, a.player) {
        (Some(v), Some(_)) => Archetype {
            velocity: Some(steered_velocity(a, v, key, pressed)),
            ..a
        },
        _ => a,
    }
}

/// One entity after the key event.
pub fn steer(a: Archetype, key: Key, pressed: bool) -> (r: Archetype)
    ensures
        r == steered(a, key, pressed),
{
    match (a.velocity, a.player) {
        (Some(v), Some(player)) => {
            let velocity = match key {
                Key::Left => if pressed {
                    Velocity { x: saturate(-(player.speed as i64)), ..v }
                } else if v.x < 0 {
                    Velocity { x: 0, ..v }
                } else {
                    v
                },
                Key::Right => if pressed {
                    Velocity { x: player.speed, ..v }
                } else if v.x > 0 {
                    Velocity { x: 0, ..v }
                } else {
                    v
                },
                Key::Jump => if pressed && a.grounded {
                    Velocity { y: saturate(-(player.jump_force as i64)), ..v }
                } else {
                    v
                },
                Key::Other => v,
            };
            Archetype { velocity: Some(velocity), ..a }
        },
        _ => a,
    }
}

/// What a key event does to a world: every entity becomes [`steered`].
pub open spec fn input_handled(
    before: specs::World,
    after: specs::World,
    key: Key,
    pressed: bool,
) -> bool {
    &&& same_population(before, after)
    &&& snapshot(after) == snapshot(before).map_values(|a: Archetype| steered(a, key, pressed))
}

/// Applies a key event to the world.
pub fn handle_input(world: &mut specs::World, key: Key, pressed: bool)
    requires
        world_ready(*old(world)),
    ensures
        input_handled(*old(world), *final(world), key, pressed),
{
    let (ids, before) = capture(world);
    let mut after: Vec<Archetype> = Vec::new();
    let mut i: usize = 0;
    while i < before.len()
        invariant
            i <= before.len(),
            after@.len() == i,
            forall|j: int| 0 <= j < i ==> after@[j] == steered(#[trigger] before@[j], key, pressed),
        decreases before.len() - i,
    {
        after.push(steer(before[i], key, pressed));
        i += 1;
    }
    assert(after@ =~= before@.map_values(|a: Archetype| steered(a, key, pressed)));
    commit(world, &ids, &before, &after);
}

} // verus!
