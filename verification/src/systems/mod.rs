//! The systems that run once per frame.

pub mod collectible;
pub mod collision;
pub mod enemy_ai;
pub mod logic;
pub mod movement;
pub mod particle;

pub use self::collectible::CollectibleSystem;
pub use self::collision::CollisionSystem;
pub use self::enemy_ai::EnemyAISystem;
pub use self::logic::LogicSystem;
pub use self::movement::MovementSystem;
pub use self::particle::ParticleSystem;
