//! The component types, and the bundle of components one entity may carry.

use vstd::prelude::*;

verus! {

/// Top-left corner in world space.
#[derive(Clone, Copy, Debug, PartialEq, Eq)]
pub struct Position {
    pub x: i32,
    pub y: i32,
}

/// Velocity in raw units per second.
#[derive(Clone, Copy, Debug, PartialEq, Eq)]
pub struct Velocity {
    pub x: i32,
    pub y: i32,
}

/// Size of the bounding box and the colour it is drawn in.
#[derive(Clone, Copy, Debug, PartialEq, Eq)]
pub struct Renderable {
    pub width: i32,
    pub height: i32,
    pub color: (u8, u8, u8),
}

/// Circular collision extent used by the radius-based pickup check.
#[derive(Clone, Copy, Debug, PartialEq, Eq)]
pub struct Collidable {
    pub radius: i32,
}

/// Tunables and score of a player.
#[derive(Clone, Copy, Debug, PartialEq, Eq)]
pub struct Player {
    pub speed: i32,
    pub jump_force: i32,
    pub score: i32,
}

/// Hit points of a player.
#[derive(Clone, Copy, Debug, PartialEq, Eq)]
pub struct Health {
    pub current: i32,
    pub max: i32,
}

/// Ticks left before the entity is deleted.
#[derive(Clone, Copy, Debug, PartialEq, Eq)]
pub struct Lifetime {
    pub remaining: i32,
}

/// Emits particles: `rate` is the expected number of spawns per tick in
/// thousandths, `lifetime` the ticks a particle lives.
#[derive(Clone, Copy, Debug, PartialEq, Eq)]
pub struct ParticleEmitter {
    pub rate: i32,
    pub lifetime: i32,
    pub color: (u8, u8, u8),
}

/// Marks a patrolling enemy.
#[derive(Clone, Copy, Debug, PartialEq, Eq)]
pub struct Enemy;

/// Marks static ground.
#[derive(Clone, Copy, Debug, PartialEq, Eq)]
pub struct Platform;

/// Marks an entity that gravity acts on.
#[derive(Clone, Copy, Debug, PartialEq, Eq)]
pub struct Gravity;

/// Marks an entity that came to rest on a platform in this frame.
#[derive(Clone, Copy, Debug, PartialEq, Eq)]
pub struct Grounded;

/// Marks an entity that is picked up on contact.
#[derive(Clone, Copy, Debug, PartialEq, Eq)]
pub struct Collectible;

/// Marks the goal of a level.
#[derive(Clone, Copy, Debug, PartialEq, Eq)]
pub struct Goal;

/// Elapsed time of the current frame, in ticks.
#[derive(Clone, Copy, Debug, PartialEq, Eq)]
pub struct DeltaTime(pub u32);

impl specs::Component for Position {
    type Storage = specs::VecStorage<Self>;
}

impl specs::Component for Velocity {
    type Storage = specs::VecStorage<Self>;
}

impl specs::Component for Renderable {
    type Storage = specs::VecStorage<Self>;
}

impl specs::Component for Collidable {
    type Storage = specs::VecStorage<Self>;
}

impl specs::Component for Player {
    type Storage = specs::VecStorage<Self>;
}

impl specs::Component for Health {
    type Storage = specs::VecStorage<Self>;
}

impl specs::Component for Lifetime {
    type Storage = specs::VecStorage<Self>;
}

impl specs::Component for ParticleEmitter {
    type Storage = specs::VecStorage<Self>;
}

impl specs::Component for Enemy {
    type Storage = specs::VecStorage<Self>;
}

impl specs::Component for Platform {
    type Storage = specs::VecStorage<Self>;
}

impl specs::Component for Gravity {
    type Storage = specs::VecStorage<Self>;
}

impl specs::Component for Grounded {
    type Storage = specs::VecStorage<Self>;
}

impl specs::Component for Collectible {
    type Storage = specs::VecStorage<Self>;
}

impl specs::Component for Goal {
    type Storage = specs::VecStorage<Self>;
}

/// Everything one entity carries: each data component it has, and each tag.
#[derive(Clone, Copy, Debug, PartialEq, Eq)]
pub struct Archetype {
    pub position: Option<Position>,
    pub velocity: Option<Velocity>,
    pub renderable: Option<Renderable>,
    pub collidable: Option<Collidable>,
    pub player: Option<Player>,
    pub health: Option<Health>,
    pub lifetime: Option<Lifetime>,
    pub emitter: Option<ParticleEmitter>,
    pub enemy: bool,
    pub platform: bool,
    pub gravity: bool,
    pub grounded: bool,
    pub collectible: bool,
    pub goal: bool,
}

impl Archetype {
    /// The bundle of an entity that carries nothing.
    pub open spec fn vacant() -> Archetype {
        Archetype {
            position: None,
            velocity: None,
            renderable: None,
            collidable: None,
            player: None,
            health: None,
            lifetime: None,
            emitter: None,
            enemy: false,
            platform: false,
            gravity: false,
            grounded: false,
            collectible: false,
            goal: false,
        }
    }

    /// An entity without components.
    pub fn empty() -> (a: Archetype)
        ensures
            a == Archetype::vacant(),
    {
        Archetype {
            position: None,
            velocity: None,
            renderable: None,
            collidable: None,
            player: None,
            health: None,
            lifetime: None,
            emitter: None,
            enemy: false,
            platform: false,
            gravity: false,
            grounded: false,
            collectible: false,
            goal: false,
        }
    }
}

} // verus!
