//! A small N-dimensional physics kernel for particle simulations: Verlet
//! integration of point masses and symmetric separation of overlapping
//! spheres.
//!
//! Coordinates are fixed-point integers: a position component counts a
//! fixed length unit, a time step counts ticks, and an acceleration counts
//! length units per tick squared. All arithmetic is exact.

pub mod soft_body;
pub mod vector;
pub mod verlet_object;
