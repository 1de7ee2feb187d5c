//! Particle swarm optimization over fixed-point coordinates.
//!
//! The swarm searches for a minimum of a pluggable objective function.
//! Coordinates, velocities and fitness values are fixed-point numbers:
//! an `i64` counts millionths, so `1_000_000` stands for one.

pub mod fixed;
pub mod model;
pub mod objective;
pub mod particle;
pub mod pso;
pub mod rand_source;
pub mod rng;
