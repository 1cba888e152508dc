//! The sample and telemetry model.
//!
//! A `Data` sample carries one 3-axis measurement — an acceleration or a
//! position — with the time it was taken, in nanoseconds.  `Telemetry` tags a
//! sample with its kind so that the estimators can never confuse the two.

use crate::errors::EstimatorError;
use crate::frac::{Frac, Rational};
use vstd::prelude::*;

verus! {

/// One 3-axis measurement with its timestamp (nanoseconds).
#[derive(Clone, Copy, Debug, PartialEq, Eq, Structural)]
pub struct Data {
    pub x: Rational,
    pub y: Rational,
    pub z: Rational,
    pub timestamp: u64,
}

impl Data {
    /// All components representable.
    pub open spec fn wf(self) -> bool {
        self.x.wf() && self.y.wf() && self.z.wf()
    }

    /// The zero sample at the given time.
    pub fn new(timestamp: u64) -> (r: Data)
        ensures
            r.wf(),
            r.x@ == crate::frac::frac_int(0),
            r.y@ == crate::frac::frac_int(0),
            r.z@ == crate::frac::frac_int(0),
            r.timestamp == timestamp,
    {
        Data { x: Rational::zero(), y: Rational::zero(), z: Rational::zero(), timestamp }
    }
}

/// A tagged sample: either an acceleration or a position measurement.
#[derive(Clone, Copy, Debug, PartialEq, Eq, Structural)]
pub enum Telemetry {
    Acceleration(Data),
    Position(Data),
}

impl Telemetry {
    /// The sample is well formed whichever kind it is.
    pub open spec fn wf(self) -> bool {
        match self {
            Telemetry::Acceleration(d) => d.wf(),
            Telemetry::Position(d) => d.wf(),
        }
    }

    /// The carried sample, whichever kind it is.
    pub fn data(&self) -> (r: &Data)
        ensures
            *r == (match *self {
                Telemetry::Acceleration(d) => d,
                Telemetry::Position(d) => d,
            }),
    {
        match self {
            Telemetry::Acceleration(d) => d,
            Telemetry::Position(d) => d,
        }
    }
}

/// A position estimate as a mathematical value: exact coordinates and the
/// emission time.
pub struct EstimateV {
    pub x: Frac,
    pub y: Frac,
    pub z: Frac,
    pub timestamp: u64,
}

/// The mathematical value of an emitted sample.
pub open spec fn est_of(d: Data) -> EstimateV {
    EstimateV { x: d.x@, y: d.y@, z: d.z@, timestamp: d.timestamp }
}

/// The mathematical value of an optional emitted sample.
pub open spec fn opt_est(o: Option<Data>) -> Option<EstimateV> {
    match o {
        Some(d) => Some(est_of(d)),
        None => None,
    }
}

/// The mathematical value of a run's outcome.
pub open spec fn run_view(r: Result<Vec<Option<Data>>, EstimatorError>) -> Result<
    Seq<Option<EstimateV>>,
    EstimatorError,
> {
    match r {
        Ok(v) => Ok(v@.map_values(|o: Option<Data>| opt_est(o))),
        Err(e) => Err(e),
    }
}

} // verus!
