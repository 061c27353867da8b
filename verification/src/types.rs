//! The simulation's data: circular bodies, their velocities, placement
//! candidates, and the error kinds the engine reports.

use vstd::prelude::*;

verus! {

/// A circular body: center position and radius, in viewport units.
#[derive(Clone, Copy, PartialEq, Eq, Structural, Debug)]
pub struct Circle {
    pub x: i64,
    pub y: i64,
    pub r: i64,
}

/// Per-tick velocity of one body, in viewport units per tick.
#[derive(Clone, Copy, PartialEq, Eq, Structural, Debug)]
pub struct CircleVelocity {
    pub vx: i64,
    pub vy: i64,
}

/// One placement attempt handed to `init`: a sampled center, radius and
/// starting velocity. The host draws these from its random source.
#[derive(Clone, Copy, PartialEq, Eq, Structural, Debug)]
pub struct Candidate {
    pub x: i64,
    pub y: i64,
    pub r: i64,
    pub vx: i64,
    pub vy: i64,
}

/// The faults the engine reports instead of corrupting its state.
#[derive(Clone, Copy, PartialEq, Eq, Structural, Debug)]
pub enum SimError {
    /// A viewport dimension is not positive, or beyond the supported range.
    InvalidDimensions,
    /// The candidate supply ran out before every body slot was filled.
    InitializationExhausted,
    /// `init` was called on a state that already holds bodies.
    AlreadyInitialized,
}

} // verus!
