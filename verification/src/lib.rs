//! Core of a side-scrolling glider game: a deterministic terrain generator
//! with windowed streaming of tiles and obstacles, a fixed-point flight
//! integrator, a camera follow controller, and a collision monitor.
//!
//! All world quantities are held in signed 64-bit fixed point with a scale of
//! one million (one unit of a meter, second, degree or pixel is `FX_ONE`).

use vstd::prelude::*;

pub mod camera;
pub mod fixmath;
pub mod stork;
pub mod world;

verus! {

/// Fixed-point scale: 1.0 is represented as 1_000_000.
pub const FX_ONE: i64 = 1_000_000;

/// Conversion from world meters to screen pixels.
pub const PIXELS_PER_METER: i64 = 100;

/// A fatal breakdown of the physical or generation model: a negative
/// radicand in the energy-conservation speed update, or a terrain
/// fluctuation sum outside its proven bounds.
#[derive(Clone, Copy, PartialEq, Eq, Structural, Debug)]
pub enum CoreError {
    InvalidState,
}

} // verus!
