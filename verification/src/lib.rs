//! An evolutionary cell simulation: agents ("cells") on a toroidal plane,
//! each driven by a small feed-forward neural network, exchanging energy
//! through collisions and reproducing with mutation.
//!
//! All world quantities (positions, velocities, energies, angles, traits)
//! are fixed-point integers in thousandths of a unit, so that every step of
//! the simulation can be specified and verified exactly.

pub mod cell;
pub mod config;
pub mod fixed;
pub mod neural_network;
pub mod rng;
pub mod spatial_grid;
pub mod stats;
pub mod world;
