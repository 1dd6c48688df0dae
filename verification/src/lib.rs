//! Turn-scheduled roguelike core: a grid map with cave generation, a
//! field-of-view engine, a player and enemies that act on a shared logical
//! clock, and the enemy wander/chase behaviour that drives them.

pub mod enemy;
pub mod field;
pub mod fixmath;
pub mod fov;
pub mod player;
pub mod pos;
pub mod rng;
pub mod state;
