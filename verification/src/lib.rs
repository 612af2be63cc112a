//! Monte Carlo retirement-planning engine over fixed-point arithmetic.
//!
//! Money is carried in integer cents; rates, probabilities, ages and growth
//! factors are carried in parts-per-million (ppm, scale 1 000 000). The host
//! converts IEEE doubles to and from these grids at the boundary.

pub mod calculations;
pub mod cashflow;
pub mod engine;
pub mod fixed;
pub mod moments;
pub mod pools;
pub mod regimes;
pub mod rng;
pub mod simulation;
pub mod stats;
pub mod structs;
pub mod targeting;

use vstd::prelude::*;

verus! {

/// The engine's fixed-point grid: one unit is one millionth.
pub const SCALE: i64 = 1_000_000;

} // verus!
