//! Patrol: an enemy walks until it reaches the edge of the screen or of the
//! ground under it, and then turns around.

use vstd::prelude::*;
use crate::components::{Archetype, DeltaTime, Velocity};
use crate::units::{
    div_trunc, divide, sat, saturate, scale, GROUND_TOLERANCE, PATROL_BOUND, PATROL_LOOKAHEAD,
    TICKS_PER_SECOND,
};
use crate::world::{
    capture, commit, same_population, snapshot, world_ready,
};

verus! {

/// Turns patrolling enemies around at walls and ledges.
pub struct EnemyAISystem;

/// Whether `a` takes part in the patrol.
pub open spec fn patrols(a: Archetype) -> bool {
    a.enemy && a.velocity is Some && a.position is Some && a.renderable is Some
}

/// The point probed for ground: where the enemy would be after
/// [`PATROL_LOOKAHEAD`] frames at its current velocity.
pub open spec fn probe_x(a: Archetype, ticks: nat) -> int {
    a.position->0.x + div_trunc(a.velocity->0.x * ticks, TICKS_PER_SECOND as int)
        * PATROL_LOOKAHEAD
}

/// Whether `ground` is a platform that spans the probe of `a` horizontally
/// and has its top within [`GROUND_TOLERANCE`] of the feet of `a`. Nothing
/// carries a body that lacks a position, a velocity or a size.
pub open spec fn carries(ground: Archetype, a: Archetype, ticks: nat) -> bool {
    &&& a.position is Some
    &&& a.velocity is Some
    &&& a.renderable is Some
    &&& ground.platform
    &&& ground.position matches Some(gp)
    &&& ground.renderable matches Some(gr)
    &&& probe_x(a, ticks) + a.renderable->0.width > gp.x
    &&& probe_x(a, ticks) < gp.x + gr.width
    &&& -(GROUND_TOLERANCE as int) < gp.y - (a.position->0.y + a.renderable->0.height)
        < GROUND_TOLERANCE as int
}

/// Whether some platform of `bodies` carries `a` at its probe.
pub open spec fn ground_ahead(bodies: Seq<Archetype>, a: Archetype, ticks: nat) -> bool {
    exists|k: int| 0 <= k < bodies.len() && carries(#[trigger] bodies[k], a, ticks)
}

/// Whether the enemy `a` turns around this frame: at the screen bounds
/// always, elsewhere when no ground lies ahead.
pub open spec fn turns(bodies: Seq<Archetype>, a: Archetype, ticks: nat) -> bool {
    a.position->0.x <= 0 || a.position->0.x >= PATROL_BOUND || !ground_ahead(bodies, a, ticks)
}

/// One entity after the patrol pass.
pub open spec fn patrolled(bodies: Seq<Archetype>, a: Archetype, ticks: nat) -> Archetype {
    if patrols(a) && turns(bodies, a, ticks) {
        Archetype {
            velocity: Some(Velocity { x: sat(-a.velocity->0.x) as i32, ..a.velocity->0 }),
            ..a
        }
    } else {
        a
    }
}

/// Whether some platform carries `a` at its probe.
pub fn has_ground_ahead(bodies: &Vec<Archetype>, a: Archetype, ticks: u32) -> (r: bool)
    ensures
        r == ground_ahead(bodies@, a, ticks as nat),
{
    let (pos, vel, size) = match (a.position, a.velocity, a.renderable) {
        (Some(pos), Some(vel), Some(size)) => (pos, vel, size),
        _ => {
            return false;
        },
    };
    let travel = divide(scale(vel.x, ticks), TICKS_PER_SECOND);
    assert(travel as int * 5 == div_trunc(vel.x as int * ticks as int, 60) * 5);
    let probe: i64 = pos.x as i64 + travel * PATROL_LOOKAHEAD;
    let feet: i64 = pos.y as i64 + size.height as i64;
    let mut k: usize = 0;
    while k < bodies.len()
        invariant
            k <= bodies.len(),
            a.position is Some && a.velocity is Some && a.renderable is Some,
            pos == a.position->0,
            size == a.renderable->0,
            probe as int == probe_x(a, ticks as nat),
            feet as int == pos.y + size.height,
            -0x1000_0000_0000_0000 <= probe <= 0x1000_0000_0000_0000,
            forall|j: int| 0 <= j < k ==> !carries(#[trigger] bodies@[j], a, ticks as nat),
        decreases bodies.len() - k,
    {
        let g = bodies[k];
        if g.platform {
            match (g.position, g.renderable) {
                (Some(gp), Some(gr)) => {
                    let gap: i64 = gp.y as i64 - feet;
                    if probe + size.width as i64 > gp.x as i64 && probe < gp.x as i64
                        + gr.width as i64 && -(GROUND_TOLERANCE as i64) < gap && gap
                        < GROUND_TOLERANCE as i64 {
                        assert(carries(bodies@[k as int], a, ticks as nat));
                        return true;
                    }
                },
                _ => {},
            }
        }
        k += 1;
    }
    false
}

/// One entity after the patrol pass.
pub fn patrol(bodies: &Vec<Archetype>, a: Archetype, ticks: u32) -> (r: Archetype)
    ensures
        r == patrolled(bodies@, a, ticks as nat),
{
    if !a.enemy {
        return a;
    }
    match (a.velocity, a.position, a.renderable) {
        (Some(v), Some(p), Some(_)) => {
            let turn = if p.x <= 0 || p.x >= PATROL_BOUND {
                true
            } else {
                !has_ground_ahead(bodies, a, ticks)
            };
            if turn {
                Archetype { velocity: Some(Velocity { x: saturate(-(v.x as i64)), ..v }), ..a }
            } else {
                a
            }
        },
        _ => a,
    }
}

/// Every entity after the patrol pass.
pub fn patrol_bodies(bodies: &Vec<Archetype>, ticks: u32) -> (r: Vec<Archetype>)
    ensures
        r@ == bodies@.map_values(|a: Archetype| patrolled(bodies@, a, ticks as nat)),
{
    let mut out: Vec<Archetype> = Vec::new();
    let mut i: usize = 0;
    while i < bodies.len()
        invariant
            i <= bodies.len(),
            out@.len() == i,
            forall|j: int|
                0 <= j < i ==> out@[j] == patrolled(bodies@, #[trigger] bodies@[j], ticks as nat),
        decreases bodies.len() - i,
    {
        out.push(patrol(bodies, bodies[i], ticks));
        i += 1;
    }
    assert(out@ =~= bodies@.map_values(|a: Archetype| patrolled(bodies@, a, ticks as nat)));
    out
}

/// What the patrol pass does to a world: every entity becomes
/// [`patrolled`] against the platforms as they stood before the pass.
pub open spec fn patrol_pass(before: specs::World, after: specs::World, ticks: nat) -> bool {
    &&& same_population(before, after)
    &&& snapshot(after) == snapshot(before).map_values(
        |a: Archetype| patrolled(snapshot(before), a, ticks),
    )
}

impl EnemyAISystem {
    /// Runs the patrol pass over the world.
    pub fn run(&mut self, world: &mut specs::World, dt: DeltaTime)
        requires
            world_ready(*old(world)),
        ensures
            patrol_pass(*old(world), *final(world), dt.0 as nat),
    {
        let (ids, before) = capture(world);
        let after = patrol_bodies(&before, dt.0);
        commit(world, &ids, &before, &after);
    }
}

} // verus!
