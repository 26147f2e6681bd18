//! Fixed-point quantities and the tunable constants of the simulation.
//!
//! Lengths are `i32` thousandths of a world unit, velocities thousandths of a
//! unit per second, and time is counted in ticks of one sixtieth of a second.
//! Every operation saturates at the ends of the `i32` range.

use vstd::prelude::*;

verus! {

/// Raw value of one world unit.
pub const UNIT: i32 = 1000;

/// Ticks in one second.
pub const TICKS_PER_SECOND: i64 = 60;

/// Downward acceleration, in raw velocity gained per tick (1500 units/s^2).
pub const GRAVITY_PER_TICK: i64 = 25_000;

/// Per-tick horizontal damping on the ground, in thousandths.
pub const FRICTION_GROUND: i32 = 850;

/// Per-tick horizontal damping in the air, in thousandths.
pub const FRICTION_AIR: i32 = 950;

/// Horizontal speeds below this are snapped to rest.
pub const STOP_SPEED: i32 = 5_000;

/// Width of the play-field.
pub const SCREEN_WIDTH: i32 = 800_000;

/// Vertical slack within which a falling or rising body is resolved
/// against a platform's top or underside; also used for the side edges.
pub const CONTACT_TOLERANCE: i32 = 15_000;

/// Horizontal position at or beyond which a patrolling enemy turns around.
pub const PATROL_BOUND: i32 = 760_000;

/// How many frames ahead a patrolling enemy probes for ground.
pub const PATROL_LOOKAHEAD: i64 = 5;

/// Vertical slack between an enemy's feet and the top of the ground ahead.
pub const GROUND_TOLERANCE: i32 = 10_000;

/// Vertical position below which a player has fallen out of the level.
pub const FALL_LIMIT: i32 = 700_000;

/// Where a player is put back after a fall.
pub const RESPAWN_X: i32 = 100_000;

/// Where a player is put back after a fall.
pub const RESPAWN_Y: i32 = 100_000;

/// Score granted by one collectible.
pub const PICKUP_SCORE: i32 = 10;

/// Score at which the level counts as won.
pub const WIN_SCORE: i32 = 50;

/// Edge length of one level tile.
pub const TILE: i32 = 40_000;

/// Edge length of a spawned particle.
pub const PARTICLE_SIZE: i32 = 4_000;

/// Particles leave their emitter with each velocity component in
/// `[-PARTICLE_SPEED, PARTICLE_SPEED)`.
pub const PARTICLE_SPEED: i32 = 50_000;

/// `v` brought into the `i32` range.
pub open spec fn sat(v: int) -> int {
    if v < i32::MIN as int {
        i32::MIN as int
    } else if v > i32::MAX as int {
        i32::MAX as int
    } else {
        v
    }
}

/// Quotient of `a` by a positive `b`, rounded toward zero.
pub open spec fn div_trunc(a: int, b: int) -> int {
    if a >= 0 {
        a / b
    } else {
        -((-a) / b)
    }
}

/// `v` held between `lo` and `hi`; `lo` wins where the bounds cross.
pub open spec fn clamp_between(v: int, lo: int, hi: int) -> int {
    if v < lo || hi < lo {
        lo
    } else if v > hi {
        hi
    } else {
        v
    }
}

/// Saturating conversion into the `i32` range.
pub fn saturate(v: i64) -> (r: i32)
    ensures
        r as int == sat(v as int),
{
    if v < i32::MIN as i64 {
        i32::MIN
    } else if v > i32::MAX as i64 {
        i32::MAX
    } else {
        v as i32
    }
}

/// Division by a positive divisor that rounds toward zero.
pub fn divide(a: i64, b: i64) -> (r: i64)
    requires
        b > 0,
    ensures
        r as int == div_trunc(a as int, b as int),
        a >= 0 ==> 0 <= r <= a,
        a <= 0 ==> a <= r <= 0,
{
    if a >= 0 {
        let q: u64 = (a as u64) / (b as u64);
        q as i64
    } else {
        let size: u64 = (-(a + 1)) as u64 + 1;
        let q: u64 = size / (b as u64);
        if q > i64::MAX as u64 {
            i64::MIN
        } else {
            -(q as i64)
        }
    }
}

/// A raw quantity times a number of ticks.
pub fn scale(v: i32, ticks: u32) -> (r: i64)
    ensures
        r as int == v as int * ticks as int,
        -0x8000_0000 * 0xffff_ffff <= r <= 0x7fff_ffff * 0xffff_ffff,
{
    assert(-0x8000_0000 * 0xffff_ffff <= v as int * ticks as int <= 0x7fff_ffff * 0xffff_ffff)
        by (nonlinear_arith)
        requires
            -0x8000_0000 <= v as int <= 0x7fff_ffff,
            0 <= ticks as int <= 0xffff_ffff,
    ;
    (v as i64) * (ticks as i64)
}

} // verus!
