//! A deterministic, discrete-time simulation of slime-mold-like collective
//! behaviour: point agents move over a toroidal square field, sense a scalar
//! trail intensity at three forward-facing probes, steer toward the strongest
//! signal and deposit intensity at their own position.
//!
//! All quantities — coordinates, velocities, times and intensities — are
//! fixed-point numbers: an `i64` counting multiples of `1 / fixed::SCALE`, so
//! that every step of the simulation is exact integer arithmetic with a proved
//! contract.

pub mod colony;
pub mod fixed;
mod rng;
pub mod slime;
pub mod trail;
pub mod vec2;
