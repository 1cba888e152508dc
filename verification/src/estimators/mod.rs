//! The estimation engine: shared bootstrap, Kalman filter and inertial
//! navigator.
//!
//! Every estimator starts blind: velocity cannot be observed from a single
//! position fix, so the first two position samples are used to derive an
//! initial six-dimensional state (position and velocity) by finite
//! difference.  Until that happens the estimators consume samples without
//! emitting anything.

use crate::data::{Data, Telemetry};
use crate::errors::EstimatorError;
use crate::frac::{
    frac_canon, frac_checked, frac_div, frac_int, frac_sub, Frac, Rational,
};
use crate::matrix::{ent, Matrix};
use vstd::prelude::*;

pub mod inertial_navigator;
pub mod kalman;

verus! {

/// Nanoseconds in one second, as used to turn timestamp differences into
/// seconds.
pub const NANOS_PER_SEC_I64: i64 = 1_000_000_000;

/// The elapsed time between two samples, in seconds: the canonical form of
/// `delta` nanoseconds over one second.
pub open spec fn elapsed_seconds(delta: int) -> Frac {
    frac_canon(delta, 1_000_000_000)
}

/// Checked finite difference: `(c - p) / dt`.
pub open spec fn finite_difference(c: Frac, p: Frac, dt: Frac) -> Option<Frac> {
    match frac_checked(frac_sub(c, p)) {
        None => None,
        Some(d) => frac_checked(frac_div(d, dt)),
    }
}

/// A 6-entry state column is well formed.
pub open spec fn state_wf(m: crate::matrix::MatV) -> bool {
    crate::matrix::mat_wf(m) && m.rows == 6 && m.cols == 1
}

/// The elapsed seconds between two nanosecond timestamps, as an executable
/// rational.  The difference must be positive and representable.
pub fn elapsed_seconds_exec(prev_ns: u64, now_ns: u64) -> (r: Result<Rational, EstimatorError>)
    ensures
        r matches Ok(q) ==> prev_ns < now_ns && now_ns - prev_ns <= i64::MAX && q.wf() && q@
            == elapsed_seconds(now_ns - prev_ns) && q@.n > 0,
        r matches Err(e) ==> e == (if prev_ns < now_ns {
            EstimatorError::Overflow
        } else {
            EstimatorError::TimeNotIncreasing
        }),
        r.is_ok() == (prev_ns < now_ns && now_ns - prev_ns <= i64::MAX),
{
    if now_ns <= prev_ns {
        return Err(EstimatorError::TimeNotIncreasing);
    }
    let delta = now_ns - prev_ns;
    if delta > i64::MAX as u64 {
        return Err(EstimatorError::Overflow);
    }
    let q = Rational::new(delta as i64, NANOS_PER_SEC_I64);
    proof {
        crate::frac::lemma_canon(delta as int, 1_000_000_000);
        assert(q@.n * 1_000_000_000 == delta * q@.d);
        assert(q@.n > 0) by (nonlinear_arith)
            requires
                q@.n * 1_000_000_000 == delta * q@.d,
                delta > 0,
                q@.d >= 1,
        ;
    }
    Ok(q)
}

/// Feed one telemetry sample into the two-fix bootstrap.
///
/// Acceleration samples are ignored.  The first position sample is recorded;
/// the second derives the initial state: positions are taken from the sample
/// itself and velocities are the finite difference with the recorded fix over
/// the measured elapsed time.  A second fix that is not strictly later than
/// the first is rejected rather than divided by.
pub fn initialize_state_using_gps_data(
    telemetry: &Telemetry,
    gps_samples_received: &mut u32,
    state: &mut Matrix,
    prev_gps_data: &mut Data,
) -> (r: Result<(), EstimatorError>)
    requires
        telemetry.wf(),
        old(prev_gps_data).wf(),
        state_wf(old(state)@),
        *old(gps_samples_received) < u32::MAX,
    ensures
        final(state).wf(),
        state_wf(final(state)@),
        final(prev_gps_data).wf(),
        telemetry matches Telemetry::Acceleration(_) ==> r.is_ok()
            && *final(gps_samples_received) == *old(gps_samples_received)
            && final(state)@ == old(state)@
            && *final(prev_gps_data) == *old(prev_gps_data),
        telemetry matches Telemetry::Position(d) ==> (*old(gps_samples_received) == 0 ==> r.is_ok()
            && *final(gps_samples_received) == 1 && final(state)@ == old(state)@
            && *final(prev_gps_data) == d),
        telemetry matches Telemetry::Position(d) ==> *old(gps_samples_received) >= 1 ==> {
            let p = *old(prev_gps_data);
            let dtr = elapsed_seconds_result(p.timestamp, d.timestamp);
            let vx = boot_component(d.x@, p.x@, p.timestamp, d.timestamp);
            let vy = boot_component(d.y@, p.y@, p.timestamp, d.timestamp);
            let vz = boot_component(d.z@, p.z@, p.timestamp, d.timestamp);
            &&& *final(prev_gps_data) == p
            &&& r.is_ok() == (dtr.is_ok() && vx.is_some() && vy.is_some() && vz.is_some())
            &&& r matches Ok(_) ==> *final(gps_samples_received) == *old(gps_samples_received) + 1
                && ent(final(state)@, 0, 0) == d.x@ && ent(final(state)@, 1, 0) == d.y@
                && ent(final(state)@, 2, 0) == d.z@ && ent(final(state)@, 3, 0) == vx.unwrap()
                && ent(final(state)@, 4, 0) == vy.unwrap() && ent(final(state)@, 5, 0) == vz.unwrap()
            &&& r matches Err(_) ==> *final(gps_samples_received) == *old(gps_samples_received)
                && final(state)@ == old(state)@
            &&& (r matches Err(e) ==> e == (match dtr {
                Err(de) => de,
                Ok(_) => EstimatorError::Overflow,
            }))
        },
{
    match telemetry {
        Telemetry::Acceleration(_) => Ok(()),
        Telemetry::Position(d) => {
            if *gps_samples_received == 0 {
                *gps_samples_received = 1;
                *prev_gps_data = *d;
                Ok(())
            } else {
                let dt = match elapsed_seconds_exec(prev_gps_data.timestamp, d.timestamp) {
                    Err(e) => {
                        return Err(e);
                    },
                    Ok(q) => q,
                };
                let vx = boot_component_exec(&d.x, &prev_gps_data.x, &dt);
                let vy = boot_component_exec(&d.y, &prev_gps_data.y, &dt);
                let vz = boot_component_exec(&d.z, &prev_gps_data.z, &dt);
                proof {
                    assert(dt@ == elapsed_seconds_result(
                        prev_gps_data.timestamp,
                        d.timestamp,
                    ).unwrap());
                }
                match (vx, vy, vz) {
                    (Some(vx), Some(vy), Some(vz)) => {
                        *gps_samples_received = *gps_samples_received + 1;
                        state.set(0, 0, d.x);
                        state.set(1, 0, d.y);
                        state.set(2, 0, d.z);
                        state.set(3, 0, vx);
                        state.set(4, 0, vy);
                        state.set(5, 0, vz);
                        Ok(())
                    },
                    _ => Err(EstimatorError::Overflow),
                }
            }
        },
    }
}

/// What `elapsed_seconds_exec` returns, as a spec-level value.
pub open spec fn elapsed_seconds_result(prev_ns: u64, now_ns: u64) -> Result<Frac, EstimatorError> {
    if prev_ns >= now_ns {
        Err(EstimatorError::TimeNotIncreasing)
    } else if now_ns - prev_ns > i64::MAX {
        Err(EstimatorError::Overflow)
    } else {
        Ok(elapsed_seconds(now_ns - prev_ns))
    }
}

/// One bootstrap velocity component: the finite difference of the two fixes
/// over the measured elapsed seconds, when that time is usable.
pub open spec fn boot_component(c: Frac, p: Frac, prev_ns: u64, now_ns: u64) -> Option<Frac> {
    match elapsed_seconds_result(prev_ns, now_ns) {
        Err(_) => None,
        Ok(dt) => finite_difference(c, p, dt),
    }
}

/// Checked finite difference of two components over a positive elapsed time.
fn boot_component_exec(c: &Rational, p: &Rational, dt: &Rational) -> (r: Option<Rational>)
    requires
        c.wf(),
        p.wf(),
        dt.wf(),
        dt@.n > 0,
    ensures
        crate::frac::opt_frac(r) == finite_difference(c@, p@, dt@),
        r matches Some(q) ==> q.wf(),
{
    match c.try_sub(p) {
        None => None,
        Some(d) => d.try_div(dt),
    }
}

/// The bootstrap velocity is the exact finite difference: whenever the
/// checked finite difference exists, it equals, as a rational value, the
/// exact difference of the fixes divided by the elapsed time.
pub proof fn lemma_finite_difference_exact(c: Frac, p: Frac, dt: Frac)
    requires
        c.d >= 1,
        p.d >= 1,
        dt.d >= 1,
        dt.n != 0,
        finite_difference(c, p, dt).is_some(),
    ensures
        crate::frac::frac_eq(
            finite_difference(c, p, dt).unwrap(),
            frac_div(frac_sub(c, p), dt),
        ),
{
    let raw = frac_sub(c, p);
    assert(raw.d >= 1) by (nonlinear_arith)
        requires
            c.d >= 1,
            p.d >= 1,
            raw.d == c.d * p.d,
    ;
    crate::frac::lemma_checked_sound(raw);
    let d = frac_checked(raw).unwrap();
    let q = frac_div(d, dt);
    assert(q.d >= 1) by (nonlinear_arith)
        requires
            d.d >= 1,
            dt.d >= 1,
            dt.n != 0,
            q == (if d.d * dt.n < 0 {
                Frac { n: -(d.n * dt.d), d: -(d.d * dt.n) }
            } else {
                Frac { n: d.n * dt.d, d: d.d * dt.n }
            }),
    ;
    crate::frac::lemma_checked_sound(q);
    crate::frac::lemma_div_congruence(d, raw, dt, dt);
    crate::frac::lemma_eq_trans(finite_difference(c, p, dt).unwrap(), q, frac_div(raw, dt));
}

} // verus!
