//! Per-tick gameplay rules of a tower-defense scene: towers that fire at the
//! nearest target, projectiles that fly in a straight line, proximity hits
//! and one-shot lifetimes.
//!
//! Units: lengths are integers in pico-units (1e-12 of a world unit), time
//! is in microseconds, speeds are in milli-units per second and directions
//! are fixed-point vectors whose length is `DIR_SCALE`.  With these units one
//! tick of motion is an exact integer product, with no rounding.
pub mod math;
pub mod timer;
pub mod sim;
pub mod bullet;
pub mod tower;

pub use math::{distance_squared, isqrt, normalize, Vector3, DIR_SCALE};
pub use timer::{Timer, TimerMode};
pub use sim::{
    spawn_basic_scene, Health, Projectile, Schedule, Simulation, System, Target, TargetEntity, TowerEntity, COORD_LIMIT,
    FLIGHT_LIMIT,
};
pub use bullet::{
    bullet_collision, can_collide, can_move_bullets, lifetime_despawn, move_bullets, Bullet, BulletPlugin, Lifetime,
    HIT_RADIUS,
};
pub use tower::{tower_shooting, Tower, TowerPlugin, BULLET_LIFETIME, BULLET_SPEED};
