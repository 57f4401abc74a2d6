//! Simulation core of a breakout-style arcade game.
//!
//! The library owns the playfield model, the fixed-timestep update and the
//! menu/play state machine. All quantities are integers: positions and
//! extents are counted in sub-units of a world unit, time in milliseconds.

pub mod config;
pub mod geometry;
pub mod entity;
pub mod collision;
pub mod motion;
pub mod rng;
pub mod direction;
pub mod field;
pub mod world;
pub mod palette;
pub mod game;
pub mod laws;
