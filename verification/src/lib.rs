//! A verified 2D particle-physics core: circles with mass, radius and
//! velocity inside a rectangular boundary, under gravity, with
//! impulse-based collision resolution, positional correction and a
//! uniform-grid broad phase.  All quantities are fixed-point integers;
//! see `fixed`.

pub mod collision_sim;
pub mod fixed;
pub mod geometry;
pub mod laws;
pub mod rng;
pub mod simulation;
pub mod simulation_factory;
pub mod simulation_information;
pub mod uniform_grid;
pub mod vector2;
