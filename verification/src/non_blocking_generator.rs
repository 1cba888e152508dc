//! Trajectory generators that answer position queries without blocking.
//!
//! Each generator is anchored at the moment it was created; what position it
//! reports for a given elapsed time is continuous floating-point geometry and
//! is computed by the surrounding application.  The library owns the
//! generator identities and their anchor times.

use std::time::Instant;
use vstd::prelude::*;

verus! {

#[verifier::external_type_specification]
#[verifier::external_body]
pub struct ExInstant(Instant);

/// Relies on `std::time::Instant::now`: an opaque monotonic time point.
#[verifier::external_body]
fn now_instant() -> (r: Instant) {
    Instant::now()
}

/// The available trajectory shapes.
#[derive(Clone, Copy, Debug, PartialEq, Eq, Structural)]
pub enum PositionGeneratorType {
    Perlin,
    Circle,
    AngledHelical,
}

/// A helical trajectory, anchored at creation time.
#[derive(Clone, Copy)]
pub struct HelixGenerator {
    /// When the helix started.
    pub start_time: Instant,
}

impl HelixGenerator {
    /// Anchor a helix at the present moment.
    pub fn new() -> (r: HelixGenerator) {
        HelixGenerator { start_time: now_instant() }
    }
}

/// A circular trajectory, anchored at creation time.
#[derive(Clone, Copy)]
pub struct CircleGenerator {
    /// When the circle started.
    pub start: Instant,
}

impl CircleGenerator {
    /// Anchor a circle at the present moment.
    pub fn new() -> (r: CircleGenerator) {
        CircleGenerator { start: now_instant() }
    }
}

} // verus!
