//! Two blocks on a line, a wall on the left, and a counter of elastic
//! collisions whose value spells out the digits of pi.
//!
//! All quantities are fixed-point integers: positions count
//! `1 / UNITS_PER_PIXEL` of a pixel, velocities count such units per
//! microsecond, and masses are whole kilograms.
pub mod cube;
pub mod simulation;
