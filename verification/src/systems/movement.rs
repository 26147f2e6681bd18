//! Gravity, friction, integration of velocity into position, and the
//! horizontal clamp to the play-field.

use vstd::prelude::*;
use crate::components::{Archetype, DeltaTime, Position, Velocity};
use crate::units::{
    clamp_between, div_trunc, divide, sat, saturate, scale, FRICTION_AIR, FRICTION_GROUND,
    GRAVITY_PER_TICK, SCREEN_WIDTH, STOP_SPEED, TICKS_PER_SECOND,
};
use crate::world::{
    capture, commit, same_population, snapshot, world_ready,
};

verus! {

/// Integrates gravity and friction into velocities and velocities into
/// positions.
pub struct MovementSystem;

/// The damping applied per tick: stronger on the ground than in the air.
pub open spec fn friction(grounded: bool) -> int {
    if grounded {
        FRICTION_GROUND as int
    } else {
        FRICTION_AIR as int
    }
}

/// `v` after `ticks` ticks of damping by `factor` thousandths per tick, each
/// tick rounding toward zero.
pub open spec fn damped(v: int, factor: int, ticks: nat) -> int
    decreases ticks,
{
    if ticks == 0 {
        v
    } else {
        damped(div_trunc(v * factor, 1000), factor, (ticks - 1) as nat)
    }
}

/// Speeds slower than [`STOP_SPEED`] come to rest.
pub open spec fn rested(v: int) -> int {
    if -(STOP_SPEED as int) < v < STOP_SPEED as int {
        0
    } else {
        v
    }
}

/// The velocity of a body under gravity after `ticks` ticks: in the air it
/// gains [`GRAVITY_PER_TICK`] downward per tick, on the ground a downward
/// velocity is zeroed; horizontally it is damped and then snapped to rest.
pub open spec fn accelerated(v: Velocity, grounded: bool, ticks: nat) -> Velocity {
    Velocity {
        x: rested(damped(v.x as int, friction(grounded), ticks)) as i32,
        y: if !grounded {
            sat(v.y + GRAVITY_PER_TICK * ticks) as i32
        } else if v.y > 0 {
            0
        } else {
            v.y
        },
    }
}

/// The position reached from `p` at velocity `v` in `ticks` ticks by a body
/// `width` wide: horizontally held inside the play-field, vertically free.
pub open spec fn advanced(p: Position, v: Velocity, width: int, ticks: nat) -> Position {
    Position {
        x: clamp_between(
            sat(p.x + div_trunc(v.x * ticks, TICKS_PER_SECOND as int)),
            0,
            SCREEN_WIDTH - width,
        ) as i32,
        y: sat(p.y + div_trunc(v.y * ticks, TICKS_PER_SECOND as int)) as i32,
    }
}

/// The width of a body: that of its bounding box, or nothing.
pub open spec fn width_of(a: Archetype) -> int {
    match a.renderable {
        Some(r) => r.width as int,
        None => 0,
    }
}

/// The velocity of `a` after the frame: changed only where `a` is under
/// gravity.
pub open spec fn moved_velocity(a: Archetype, ticks: nat) -> Option<Velocity> {
    match a.velocity {
        Some(v) => if a.gravity {
            Some(accelerated(v, a.grounded, ticks))
        } else {
            Some(v)
        },
        None => None,
    }
}

/// One entity after the movement pass: its velocity is updated first, and
/// its position then advances by the updated velocity.
pub open spec fn moved(a: Archetype, ticks: nat) -> Archetype {
    let velocity = moved_velocity(a, ticks);
    Archetype {
        velocity: velocity,
        position: match (a.position, velocity) {
            (Some(p), Some(v)) => Some(advanced(p, v, width_of(a), ticks)),
            _ => a.position,
        },
        ..a
    }
}

proof fn lemma_damped_zero(factor: int, ticks: nat)
    ensures
        damped(0, factor, ticks) == 0,
    decreases ticks,
{
    if ticks > 0 {
        assert(div_trunc(0 * factor, 1000) == 0);
        lemma_damped_zero(factor, (ticks - 1) as nat);
    }
}

proof fn lemma_damp_step(v: int, factor: int)
    requires
        0 <= factor <= 1000,
    ensures
        v >= 0 ==> 0 <= div_trunc(v * factor, 1000) <= v,
        v <= 0 ==> v <= div_trunc(v * factor, 1000) <= 0,
{
    if v >= 0 {
        assert(0 <= v * factor <= v * 1000) by (nonlinear_arith)
            requires
                v >= 0,
                0 <= factor <= 1000,
        ;
    } else {
        assert(0 <= (-v) * factor <= (-v) * 1000) by (nonlinear_arith)
            requires
                v < 0,
                0 <= factor <= 1000,
        ;
        assert(-(v * factor) == (-v) * factor) by (nonlinear_arith);
    }
}

/// Damps `v` for `ticks` ticks.
pub fn damp(v: i32, grounded: bool, ticks: u32) -> (r: i32)
    ensures
        r as int == damped(v as int, friction(grounded), ticks as nat),
{
    let factor: i64 = if grounded { FRICTION_GROUND as i64 } else { FRICTION_AIR as i64 };
    let mut cur: i32 = v;
    let mut left: u32 = ticks;
    while left > 0 && cur != 0
        invariant
            factor as int == friction(grounded),
            damped(cur as int, factor as int, left as nat) == damped(
                v as int,
                friction(grounded),
                ticks as nat,
            ),
        decreases left,
    {
        proof {
            lemma_damp_step(cur as int, factor as int);
        }
        assert(-0x8000_0000 * 1000 <= cur as int * factor as int <= 0x8000_0000 * 1000)
            by (nonlinear_arith)
            requires
                -0x8000_0000 <= cur as int <= 0x7fff_ffff,
                850 <= factor as int <= 950,
        ;
        let next = divide(cur as i64 * factor, 1000);
        cur = next as i32;
        left = left - 1;
    }
    proof {
        if cur == 0 {
            lemma_damped_zero(factor as int, left as nat);
        }
    }
    cur
}

/// Velocity of a body under gravity after the frame.
pub fn accelerate(v: Velocity, grounded: bool, ticks: u32) -> (r: Velocity)
    ensures
        r == accelerated(v, grounded, ticks as nat),
{
    let slowed = damp(v.x, grounded, ticks);
    let x = if -STOP_SPEED < slowed && slowed < STOP_SPEED { 0 } else { slowed };
    let y = if !grounded {
        saturate(v.y as i64 + GRAVITY_PER_TICK * (ticks as i64))
    } else if v.y > 0 {
        0
    } else {
        v.y
    };
    Velocity { x, y }
}

/// Position of a body after the frame.
pub fn advance(p: Position, v: Velocity, width: i32, ticks: u32) -> (r: Position)
    ensures
        r == advanced(p, v, width as int, ticks as nat),
{
    let dx = divide(scale(v.x, ticks), TICKS_PER_SECOND);
    let dy = divide(scale(v.y, ticks), TICKS_PER_SECOND);
    let free_x = saturate(p.x as i64 + dx);
    let free_y = saturate(p.y as i64 + dy);
    let limit: i64 = SCREEN_WIDTH as i64 - width as i64;
    let x: i32 = if free_x < 0 || limit < 0 {
        0
    } else if free_x as i64 > limit {
        limit as i32
    } else {
        free_x
    };
    Position { x, y: free_y }
}

/// One entity after the movement pass.
pub fn move_body(a: Archetype, ticks: u32) -> (r: Archetype)
    ensures
        r == moved(a, ticks as nat),
{
    let velocity = match a.velocity {
        Some(v) => if a.gravity {
            Some(accelerate(v, a.grounded, ticks))
        } else {
            Some(v)
        },
        None => None,
    };
    let width = match a.renderable {
        Some(r) => r.width,
        None => 0,
    };
    let position = match (a.position, velocity) {
        (Some(p), Some(v)) => Some(advance(p, v, width, ticks)),
        _ => a.position,
    };
    Archetype { velocity, position, ..a }
}

/// Every entity after the movement pass.
pub fn move_bodies(bodies: &Vec<Archetype>, ticks: u32) -> (r: Vec<Archetype>)
    ensures
        r@ == bodies@.map_values(|a: Archetype| moved(a, ticks as nat)),
{
    let mut out: Vec<Archetype> = Vec::new();
    let mut i: usize = 0;
    while i < bodies.len()
        invariant
            i <= bodies.len(),
            out@.len() == i,
            forall|j: int| 0 <= j < i ==> out@[j] == moved(#[trigger] bodies@[j], ticks as nat),
        decreases bodies.len() - i,
    {
        out.push(move_body(bodies[i], ticks));
        i += 1;
    }
    assert(out@ =~= bodies@.map_values(|a: Archetype| moved(a, ticks as nat)));
    out
}

/// What the movement pass does to a world: every entity becomes [`moved`],
/// and nothing is created or deleted.
pub open spec fn movement_pass(before: specs::World, after: specs::World, ticks: nat) -> bool {
    &&& same_population(before, after)
    &&& snapshot(after) == snapshot(before).map_values(|a: Archetype| moved(a, ticks))
}

impl MovementSystem {
    /// Runs the movement pass over the world.
    pub fn run(&mut self, world: &mut specs::World, dt: DeltaTime)
        requires
            world_ready(*old(world)),
        ensures
            movement_pass(*old(world), *final(world), dt.0 as nat),
    {
        let (ids, before) = capture(world);
        let after = move_bodies(&before, dt.0);
        commit(world, &ids, &before, &after);
    }
}

/// Gravity accumulates: a body in the air that is under gravity falls
/// faster after every movement pass of at least one tick, until its speed
/// reaches the end of the number range.
pub proof fn gravity_accumulates(a: Archetype, ticks: nat)
    requires
        a.gravity,
        !a.grounded,
        a.velocity is Some,
        ticks > 0,
        a.velocity->0.y + GRAVITY_PER_TICK * ticks <= i32::MAX,
    ensures
        moved(a, ticks).velocity is Some,
        moved(a, ticks).velocity->0.y == a.velocity->0.y + GRAVITY_PER_TICK * ticks,
        moved(a, ticks).velocity->0.y > a.velocity->0.y,
{
}

/// A body on the ground does not sink: a grounded body under gravity that
/// moves downward has its vertical velocity zeroed by the movement pass,
/// and none leaves the pass moving downward.
pub proof fn grounded_stops_falling(a: Archetype, ticks: nat)
    requires
        a.gravity,
        a.grounded,
        a.velocity is Some,
    ensures
        moved(a, ticks).velocity is Some,
        moved(a, ticks).velocity->0.y <= 0,
        a.velocity->0.y > 0 ==> moved(a, ticks).velocity->0.y == 0,
        a.velocity->0.y <= 0 ==> moved(a, ticks).velocity->0.y == a.velocity->0.y,
{
}

/// A body stays on the screen: whatever its velocity, after the movement
/// pass a body that fits the play-field lies between its left edge and the
/// place where the body's right side meets the right edge.
pub proof fn stays_on_screen(a: Archetype, ticks: nat)
    requires
        a.position is Some,
        a.velocity is Some,
        0 <= width_of(a) <= SCREEN_WIDTH,
    ensures
        moved(a, ticks).position is Some,
        0 <= moved(a, ticks).position->0.x <= SCREEN_WIDTH - width_of(a),
{
}

/// Damping never speeds a body up and never turns it around.
pub proof fn damping_slows(v: int, grounded: bool, ticks: nat)
    ensures
        v >= 0 ==> 0 <= damped(v, friction(grounded), ticks) <= v,
        v <= 0 ==> v <= damped(v, friction(grounded), ticks) <= 0,
    decreases ticks,
{
    if ticks > 0 {
        lemma_damp_step(v, friction(grounded));
        damping_slows(div_trunc(v * friction(grounded), 1000), grounded, (ticks - 1) as nat);
    }
}

/// One entity after `passes` movement passes of `ticks` each.
pub open spec fn moved_over(a: Archetype, ticks: nat, passes: nat) -> Archetype
    decreases passes,
{
    if passes == 0 {
        a
    } else {
        moved(moved_over(a, ticks, (passes - 1) as nat), ticks)
    }
}

/// Gravity accumulates pass after pass: a body under gravity that stays in
/// the air has, after any number of movement passes, gained the same
/// downward velocity in each of them, and falls faster after every pass
/// that lasts a tick or more, until its speed reaches the end of the number
/// range.
pub proof fn gravity_accumulates_over_passes(a: Archetype, ticks: nat, passes: nat)
    requires
        a.gravity,
        !a.grounded,
        a.velocity is Some,
        a.velocity->0.y + passes * (GRAVITY_PER_TICK * ticks) <= i32::MAX,
    ensures
        moved_over(a, ticks, passes).gravity,
        !moved_over(a, ticks, passes).grounded,
        moved_over(a, ticks, passes).velocity is Some,
        moved_over(a, ticks, passes).velocity->0.y == a.velocity->0.y + passes * (GRAVITY_PER_TICK
            * ticks),
        passes > 0 && ticks > 0 ==> moved_over(a, ticks, passes).velocity->0.y > moved_over(
            a,
            ticks,
            (passes - 1) as nat,
        ).velocity->0.y,
    decreases passes,
{
    let step = GRAVITY_PER_TICK * ticks;
    if passes > 0 {
        assert((passes - 1) * step == passes * step - step) by (nonlinear_arith);
        assert(step >= 0);
        gravity_accumulates_over_passes(a, ticks, (passes - 1) as nat);
        let before = moved_over(a, ticks, (passes - 1) as nat);
        assert(before.velocity->0.y + step <= i32::MAX);
    } else {
        assert(0 * step == 0);
    }
}

} // verus!
