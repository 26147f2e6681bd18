//! Simulation core of a 2D platformer.
//!
//! The entities of a level and their components live in a `specs` world.
//! Once per frame the game runs its systems over that world: enemies
//! patrol, bodies move under gravity and friction, collisions are resolved
//! and collectibles picked up, particles are spawned and retired, and
//! players that fell out of the level are put back. The deletions that the
//! systems asked for are carried out at the end of the frame.
//!
//! Every system reads the world into a list of bundles, computes the list
//! that the frame leads to, and writes it back. What a system computes is
//! a function from list to list, and its contract states that function; the
//! calls into `specs` and `rand` are the only code that is trusted rather
//! than proved, and each of them says so.
//!
//! A world holds about a million entities at most, and a game spawns
//! particles for about two thousand million frames; what does not fit is
//! not created, and the functions that create entities say so.
//!
//! Numbers are fixed-point: lengths are thousandths of a world unit,
//! velocities thousandths of a unit per second, and time is counted in
//! ticks of a sixtieth of a second. Arithmetic saturates at the ends of the
//! `i32` range.

pub mod components;
pub mod game;
pub mod input;
pub mod level;
pub mod render;
pub mod schedule;
pub mod systems;
pub mod units;
pub mod world;
