//! A Monte Carlo path tracer over fixed-point arithmetic.
//!
//! Radiance estimation by recursive sampling of light-transport paths:
//! analytic ray/shape intersection, a closed set of materials, a recursive
//! integrator bounded by an explicit depth, camera ray generation and a
//! progressive per-pixel sample accumulator.  All scalar quantities are
//! fixed-point numbers: signed 64-bit integers scaled by 2^16, so that every
//! arithmetic step has an exact integer meaning that the contracts state.

pub mod accum;
pub mod bits;
pub mod camera;
pub mod fixed;
pub mod laws;
pub mod material;
pub mod object;
pub mod points;
pub mod rng;
pub mod sample;
pub mod shape;
pub mod trace;
pub mod vector;

use vstd::prelude::*;

verus! {

} // verus!
