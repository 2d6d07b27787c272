//! Simulation core of a snake game played on a bounded grid whose edges wrap around.
//!
//! The crate holds the game's rules and nothing of its presentation: the grid geometry,
//! the entity store, the input resolver and the systems that advance the world by one tick.
//! Every executable function carries a contract over a mathematical model of the world,
//! and the contract is proved.

pub mod config;
pub mod geometry;
pub mod input;
pub mod laws;
pub mod model;
mod random;
pub mod store;
pub mod world;
