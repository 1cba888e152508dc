//! Error vocabulary of the estimation engine.

use vstd::prelude::*;

verus! {

/// Why an estimator step could not be completed.
#[derive(Clone, Copy, Debug, PartialEq, Eq, Structural)]
pub enum EstimatorError {
    /// An exact rational intermediate no longer fits the representation.
    Overflow,
    /// The innovation covariance was not invertible during a correction.
    SingularCovariance,
    /// A timestamp did not strictly increase where the estimator must divide
    /// by the elapsed time.
    TimeNotIncreasing,
}

/// A sensor was started without anyone to deliver samples to.
#[derive(Clone, Copy, Debug, PartialEq, Eq, Structural)]
pub struct NoSubscribers;

impl NoSubscribers {
    /// Human-readable description of the failure.
    pub fn message(&self) -> (r: &'static str) {
        "no subscribers registered for sensor output"
    }
}

} // verus!
