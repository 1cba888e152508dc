//! The Kalman estimator: motion model, cadence guard, prediction and
//! correction.

use crate::channel::fan_out;
use crate::data::{Data, Telemetry};
use crate::errors::EstimatorError;
use crate::estimators::{elapsed_seconds, initialize_state_using_gps_data, state_wf};
use crate::frac::{
    frac_add, frac_canon, frac_checked, frac_eq, frac_int, frac_le, frac_lt, frac_mul, frac_sub,
    frac_wf, lemma_canon, Frac, Rational,
};
use crate::matrix::{ent, mat_wf, MatV, Matrix};
use std::sync::mpsc::Sender;
use vstd::prelude::*;

verus! {

/// Tuning and timing parameters of the Kalman estimator, fixed at
/// construction.
#[derive(Clone, Copy, Debug)]
pub struct KalmanConfig {
    /// Nominal IMU sample rate, in samples per second.
    pub imu_freq: u32,
    /// Process-noise scale derived from the accelerometer noise.
    pub acc_sigma: Rational,
    /// Measurement-noise scale derived from the GPS noise.
    pub gps_sigma: Rational,
    /// Fraction of the nominal period tolerated by the cadence guard.
    pub timing_tolerance: Rational,
}

impl KalmanConfig {
    /// Usable configuration: a positive rate and representable parameters.
    pub open spec fn wf(self) -> bool {
        &&& self.imu_freq >= 1
        &&& self.acc_sigma.wf()
        &&& self.gps_sigma.wf()
        &&& self.timing_tolerance.wf()
    }
}

/// The canonical fraction one over `d` is already reduced.
pub proof fn lemma_unit_fraction(d: int)
    requires
        d >= 1,
    ensures
        frac_canon(1, d) == (Frac { n: 1, d }),
{
    lemma_canon(1, d);
    let g = crate::frac::gcd_nat(vstd::math::abs(1), vstd::math::abs(d)) as int;
    let c = frac_canon(1, d);
    assert(g == 1 && c.n == 1 && c.d == d) by (nonlinear_arith)
        requires
            1 == g * c.n,
            g >= 0,
            c.d >= 1,
            d == g * c.d,
            d >= 1,
    ;
}

/// The nominal IMU cycle duration, in seconds: one over the sample rate.
pub fn nominal_period(imu_freq: u32) -> (r: Rational)
    requires
        imu_freq >= 1,
    ensures
        r.wf(),
        r@ == (Frac { n: 1, d: imu_freq as int }),
{
    let r = Rational::new(1, imu_freq as i64);
    proof {
        lemma_unit_fraction(imu_freq as int);
    }
    r
}

/// How one acceleration sample's timing relates to the expected cadence.
#[derive(Clone, Copy, Debug, PartialEq, Eq, Structural)]
pub enum CadenceVerdict {
    /// Within tolerance of the nominal period: accepted silently.
    OnTime,
    /// Slower than tolerated: accepted, but worth a warning.
    Late,
    /// Faster than tolerated: rejected.
    TooSoon,
    /// No time elapsed, or the clock went backwards: rejected.
    TimeInversion,
}

impl CadenceVerdict {
    /// Whether a sample with this verdict drives a prediction.
    pub fn accepted(&self) -> (r: bool)
        ensures
            r == cadence_accepts(*self),
    {
        match self {
            CadenceVerdict::OnTime => true,
            CadenceVerdict::Late => true,
            CadenceVerdict::TooSoon => false,
            CadenceVerdict::TimeInversion => false,
        }
    }
}

/// Accepted verdicts: on-time and late.
pub open spec fn cadence_accepts(v: CadenceVerdict) -> bool {
    v == CadenceVerdict::OnTime || v == CadenceVerdict::Late
}

/// The verdict for an acceleration sample seen at `now_ns` when the previous
/// one was seen at `last_ns`, against the accepted interval bounds.
pub open spec fn cadence_spec(last_ns: u64, now_ns: u64, min: Frac, max: Frac) -> CadenceVerdict {
    if now_ns <= last_ns {
        CadenceVerdict::TimeInversion
    } else {
        let e = elapsed_seconds(now_ns - last_ns);
        if frac_lt(max, e) {
            CadenceVerdict::Late
        } else if frac_le(min, e) {
            CadenceVerdict::OnTime
        } else {
            CadenceVerdict::TooSoon
        }
    }
}

/// Checked longest accepted interval: the nominal period times one plus the
/// tolerance.
pub open spec fn max_interval_at(period: Frac, tol: Frac) -> Option<Frac> {
    match frac_checked(frac_add(frac_int(1), tol)) {
        None => None,
        Some(f) => frac_checked(frac_mul(period, f)),
    }
}

/// Checked shortest accepted interval: the nominal period times one minus the
/// tolerance.
pub open spec fn min_interval_at(period: Frac, tol: Frac) -> Option<Frac> {
    match frac_checked(frac_sub(frac_int(1), tol)) {
        None => None,
        Some(f) => frac_checked(frac_mul(period, f)),
    }
}

/// Longest interval between acceleration samples the guard accepts without a
/// warning.
pub fn max_expected_imu_interval(period: &Rational, tol: &Rational) -> (r: Option<Rational>)
    requires
        period.wf(),
        tol.wf(),
    ensures
        crate::frac::opt_frac(r) == max_interval_at(period@, tol@),
        r matches Some(q) ==> q.wf(),
{
    let one = Rational::one();
    match one.try_add(tol) {
        None => None,
        Some(f) => period.try_mul(&f),
    }
}

/// Shortest interval between acceleration samples the guard accepts.
pub fn min_expected_imu_interval(period: &Rational, tol: &Rational) -> (r: Option<Rational>)
    requires
        period.wf(),
        tol.wf(),
    ensures
        crate::frac::opt_frac(r) == min_interval_at(period@, tol@),
        r matches Some(q) ==> q.wf(),
{
    let one = Rational::one();
    match one.try_sub(tol) {
        None => None,
        Some(f) => period.try_mul(&f),
    }
}

/// Classify the elapsed time since the previous acceleration sample.
pub fn cadence_verdict(last_ns: u64, now_ns: u64, min: &Rational, max: &Rational) -> (v:
    CadenceVerdict)
    requires
        min.wf(),
        max.wf(),
        now_ns <= last_ns || now_ns - last_ns <= i64::MAX,
    ensures
        v == cadence_spec(last_ns, now_ns, min@, max@),
{
    if now_ns <= last_ns {
        return CadenceVerdict::TimeInversion;
    }
    let delta = now_ns - last_ns;
    let e = Rational::new(delta as i64, crate::estimators::NANOS_PER_SEC_I64);
    if max.lt(&e) {
        CadenceVerdict::Late
    } else if min.le(&e) {
        CadenceVerdict::OnTime
    } else {
        CadenceVerdict::TooSoon
    }
}

/// Gate one telemetry sample on the cadence guard.
///
/// Position samples always pass and leave the cadence state alone.  An
/// acceleration sample is classified against the time since the previous
/// acceleration sample, and the cadence state is set to `now_ns` whether or
/// not the sample is accepted.
pub fn telemetry_check(
    telemetry: &Telemetry,
    last_imu_data_timestamp: &mut u64,
    now_ns: u64,
    min: &Rational,
    max: &Rational,
) -> (accept: bool)
    requires
        min.wf(),
        max.wf(),
        now_ns <= *old(last_imu_data_timestamp) || now_ns - *old(last_imu_data_timestamp)
            <= i64::MAX,
    ensures
        telemetry matches Telemetry::Position(_) ==> accept && *final(last_imu_data_timestamp)
            == *old(last_imu_data_timestamp),
        telemetry matches Telemetry::Acceleration(_) ==> *final(last_imu_data_timestamp) == now_ns
            && accept == cadence_accepts(
            cadence_spec(*old(last_imu_data_timestamp), now_ns, min@, max@),
        ),
{
    match telemetry {
        Telemetry::Acceleration(_) => {
            let v = cadence_verdict(*last_imu_data_timestamp, now_ns, min, max);
            *last_imu_data_timestamp = now_ns;
            v.accepted()
        },
        Telemetry::Position(_) => true,
    }
}

/// State transition matrix over one nominal period: positions advance by the
/// matching velocity times the period.
pub fn create_matrix_A(dt: &Rational) -> (r: Matrix)
    requires
        dt.wf(),
    ensures
        r.wf(),
        r@.rows == 6,
        r@.cols == 6,
        forall|i: int, j: int|
            0 <= i < 6 && 0 <= j < 6 ==> #[trigger] ent(r@, i, j) == (if i == j {
                frac_int(1)
            } else if j == i + 3 {
                dt@
            } else {
                frac_int(0)
            }),
{
    let mut m = Matrix::identity(6);
    m.set(0, 3, *dt);
    m.set(1, 4, *dt);
    m.set(2, 5, *dt);
    m
}

/// Checked top block of the control matrix: half the squared period.
pub open spec fn b_top_at(dt: Frac) -> Option<Frac> {
    match frac_checked(frac_mul(dt, dt)) {
        None => None,
        Some(d2) => frac_checked(frac_mul(d2, Frac { n: 1, d: 2 })),
    }
}

/// Control matrix over one nominal period: acceleration contributes half the
/// squared period to positions and the period to velocities.
pub fn create_matrix_B(dt: &Rational) -> (r: Option<Matrix>)
    requires
        dt.wf(),
    ensures
        r.is_some() == b_top_at(dt@).is_some(),
        r matches Some(m) ==> m.wf() && m@.rows == 6 && m@.cols == 3 && forall|i: int, j: int|
            0 <= i < 6 && 0 <= j < 3 ==> #[trigger] ent(m@, i, j) == (if i == j {
                b_top_at(dt@).unwrap()
            } else if i == j + 3 {
                dt@
            } else {
                frac_int(0)
            }),
{
    let half = Rational::new(1, 2);
    proof {
        lemma_unit_fraction(2);
    }
    let d2 = match dt.try_mul(dt) {
        None => {
            return None;
        },
        Some(v) => v,
    };
    let top = match d2.try_mul(&half) {
        None => {
            return None;
        },
        Some(v) => v,
    };
    let mut m = Matrix::zeros(6, 3);
    m.set(0, 0, top);
    m.set(1, 1, top);
    m.set(2, 2, top);
    m.set(3, 0, *dt);
    m.set(4, 1, *dt);
    m.set(5, 2, *dt);
    Some(m)
}

/// Observation matrix: selects the three position components of the state.
pub fn create_matrix_H() -> (r: Matrix)
    ensures
        r.wf(),
        r@.rows == 3,
        r@.cols == 6,
        forall|i: int, j: int|
            0 <= i < 3 && 0 <= j < 6 ==> #[trigger] ent(r@, i, j) == (if i == j {
                frac_int(1)
            } else {
                frac_int(0)
            }),
{
    let one = Rational::one();
    let mut m = Matrix::zeros(3, 6);
    m.set(0, 0, one);
    m.set(1, 1, one);
    m.set(2, 2, one);
    m
}

/// Checked position-position block of the process noise: a quarter of the
/// fourth power of the period, scaled by the noise parameter.
pub open spec fn q_pos_at(dt: Frac, sigma: Frac) -> Option<Frac> {
    match frac_checked(frac_mul(dt, dt)) {
        None => None,
        Some(d2) => match frac_checked(frac_mul(d2, d2)) {
            None => None,
            Some(d4) => match frac_checked(frac_mul(d4, Frac { n: 1, d: 4 })) {
                None => None,
                Some(p) => frac_checked(frac_mul(p, sigma)),
            },
        },
    }
}

/// Checked position-velocity block of the process noise: half the cube of the
/// period, scaled by the noise parameter.
pub open spec fn q_cross_at(dt: Frac, sigma: Frac) -> Option<Frac> {
    match frac_checked(frac_mul(dt, dt)) {
        None => None,
        Some(d2) => match frac_checked(frac_mul(d2, dt)) {
            None => None,
            Some(d3) => match frac_checked(frac_mul(d3, Frac { n: 1, d: 2 })) {
                None => None,
                Some(v) => frac_checked(frac_mul(v, sigma)),
            },
        },
    }
}

/// Checked velocity-velocity block of the process noise: the squared period
/// scaled by the noise parameter.
pub open spec fn q_vel_at(dt: Frac, sigma: Frac) -> Option<Frac> {
    match frac_checked(frac_mul(dt, dt)) {
        None => None,
        Some(d2) => frac_checked(frac_mul(d2, sigma)),
    }
}

/// Process noise over one nominal period, scaled by the acceleration noise.
pub fn create_matrix_Q(dt: &Rational, sigma_acc: &Rational) -> (r: Option<Matrix>)
    requires
        dt.wf(),
        sigma_acc.wf(),
    ensures
        r.is_some() == (q_pos_at(dt@, sigma_acc@).is_some() && q_cross_at(dt@, sigma_acc@).is_some()
            && q_vel_at(dt@, sigma_acc@).is_some()),
        r matches Some(m) ==> m.wf() && m@.rows == 6 && m@.cols == 6 && forall|i: int, j: int|
            0 <= i < 6 && 0 <= j < 6 ==> #[trigger] ent(m@, i, j) == (if i == j && i < 3 {
                q_pos_at(dt@, sigma_acc@).unwrap()
            } else if i == j && i >= 3 {
                q_vel_at(dt@, sigma_acc@).unwrap()
            } else if j == i + 3 || i == j + 3 {
                q_cross_at(dt@, sigma_acc@).unwrap()
            } else {
                frac_int(0)
            }),
{
    let half = Rational::new(1, 2);
    let quarter = Rational::new(1, 4);
    proof {
        lemma_unit_fraction(2);
        lemma_unit_fraction(4);
    }
    let d2 = match dt.try_mul(dt) {
        None => {
            return None;
        },
        Some(v) => v,
    };
    let d4 = match d2.try_mul(&d2) {
        None => {
            return None;
        },
        Some(v) => v,
    };
    let d3 = match d2.try_mul(dt) {
        None => {
            return None;
        },
        Some(v) => v,
    };
    let p0 = match d4.try_mul(&quarter) {
        None => {
            return None;
        },
        Some(v) => v,
    };
    let qp = match p0.try_mul(sigma_acc) {
        None => {
            return None;
        },
        Some(v) => v,
    };
    let c0 = match d3.try_mul(&half) {
        None => {
            return None;
        },
        Some(v) => v,
    };
    let qc = match c0.try_mul(sigma_acc) {
        None => {
            return None;
        },
        Some(v) => v,
    };
    let qv = match d2.try_mul(sigma_acc) {
        None => {
            return None;
        },
        Some(v) => v,
    };
    let mut m = Matrix::zeros(6, 6);
    m.set(0, 0, qp);
    m.set(1, 1, qp);
    m.set(2, 2, qp);
    m.set(0, 3, qc);
    m.set(1, 4, qc);
    m.set(2, 5, qc);
    m.set(3, 0, qc);
    m.set(4, 1, qc);
    m.set(5, 2, qc);
    m.set(3, 3, qv);
    m.set(4, 4, qv);
    m.set(5, 5, qv);
    Some(m)
}

/// Measurement noise: the GPS noise parameter on the diagonal.
pub fn create_matrix_R(sigma_gps: &Rational) -> (r: Matrix)
    requires
        sigma_gps.wf(),
    ensures
        r.wf(),
        r@.rows == 3,
        r@.cols == 3,
        forall|i: int, j: int|
            0 <= i < 3 && 0 <= j < 3 ==> #[trigger] ent(r@, i, j) == (if i == j {
                sigma_gps@
            } else {
                frac_int(0)
            }),
{
    let mut m = Matrix::zeros(3, 3);
    m.set(0, 0, *sigma_gps);
    m.set(1, 1, *sigma_gps);
    m.set(2, 2, *sigma_gps);
    m
}

/// Checked top-left process-noise entry scaled for the initial covariance.
pub open spec fn p0_pos_at(dt: Frac, sigma: Frac) -> Option<Frac> {
    match q_pos_at(dt, sigma) {
        None => None,
        Some(v) => frac_checked(frac_mul(v, frac_int(10000))),
    }
}

/// Checked cross process-noise entry scaled for the initial covariance.
pub open spec fn p0_cross_at(dt: Frac, sigma: Frac) -> Option<Frac> {
    match q_cross_at(dt, sigma) {
        None => None,
        Some(v) => frac_checked(frac_mul(v, frac_int(10000))),
    }
}

/// Checked velocity process-noise entry scaled for the initial covariance.
pub open spec fn p0_vel_at(dt: Frac, sigma: Frac) -> Option<Frac> {
    match q_vel_at(dt, sigma) {
        None => None,
        Some(v) => frac_checked(frac_mul(v, frac_int(10000))),
    }
}

/// Mean and covariance of the Kalman state.
#[derive(Debug)]
pub struct KalmanData {
    /// State mean: positions and velocities, as a 6-entry column.
    pub x: Matrix,
    /// State covariance, 6 by 6.
    pub p: Matrix,
}

impl KalmanData {
    /// Well-formed state: a 6-entry mean column and a 6-by-6 covariance.
    pub open spec fn wf(self) -> bool {
        &&& state_wf(self.x@)
        &&& mat_wf(self.p@)
        &&& self.p@.rows == 6
        &&& self.p@.cols == 6
    }

    /// The blind initial state: zero mean, and a covariance equal to the
    /// process noise blown up by ten thousand, so that the first corrections
    /// dominate the model.
    pub fn new(dt: &Rational, sigma_acc: &Rational) -> (r: Option<KalmanData>)
        requires
            dt.wf(),
            sigma_acc.wf(),
        ensures
            r.is_some() == (p0_pos_at(dt@, sigma_acc@).is_some() && p0_cross_at(
                dt@,
                sigma_acc@,
            ).is_some() && p0_vel_at(dt@, sigma_acc@).is_some()),
            r matches Some(kd) ==> kd.wf() && (forall|i: int|
                0 <= i < 6 ==> ent(kd.x@, i, 0) == frac_int(0)) && (forall|i: int, j: int|
                0 <= i < 6 && 0 <= j < 6 ==> #[trigger] ent(kd.p@, i, j) == (if i == j && i < 3 {
                    p0_pos_at(dt@, sigma_acc@).unwrap()
                } else if i == j && i >= 3 {
                    p0_vel_at(dt@, sigma_acc@).unwrap()
                } else if j == i + 3 || i == j + 3 {
                    p0_cross_at(dt@, sigma_acc@).unwrap()
                } else {
                    frac_int(0)
                })),
    {
        let half = Rational::new(1, 2);
        let quarter = Rational::new(1, 4);
        let scale = Rational::from_int(10000);
        proof {
            lemma_unit_fraction(2);
            lemma_unit_fraction(4);
        }
        let d2 = match dt.try_mul(dt) {
            None => {
                return None;
            },
            Some(v) => v,
        };
        let d4 = match d2.try_mul(&d2) {
            None => {
                return None;
            },
            Some(v) => v,
        };
        let d3 = match d2.try_mul(dt) {
            None => {
                return None;
            },
            Some(v) => v,
        };
        let qp = match d4.try_mul(&quarter) {
            None => {
                return None;
            },
            Some(v) => match v.try_mul(sigma_acc) {
                None => {
                    return None;
                },
                Some(w) => w,
            },
        };
        let qc = match d3.try_mul(&half) {
            None => {
                return None;
            },
            Some(v) => match v.try_mul(sigma_acc) {
                None => {
                    return None;
                },
                Some(w) => w,
            },
        };
        let qv = match d2.try_mul(sigma_acc) {
            None => {
                return None;
            },
            Some(v) => v,
        };
        let pp = match qp.try_mul(&scale) {
            None => {
                return None;
            },
            Some(v) => v,
        };
        let pc = match qc.try_mul(&scale) {
            None => {
                return None;
            },
            Some(v) => v,
        };
        let pv = match qv.try_mul(&scale) {
            None => {
                return None;
            },
            Some(v) => v,
        };
        let x = Matrix::zeros(6, 1);
        proof {
            assert forall|i: int| 0 <= i < 6 implies ent(x@, i, 0) == frac_int(0) by {
                assert(x@.e[i * 1 + 0] == frac_int(0));
            }
        }
        let mut p = Matrix::zeros(6, 6);
        p.set(0, 0, pp);
        p.set(1, 1, pp);
        p.set(2, 2, pp);
        p.set(0, 3, pc);
        p.set(1, 4, pc);
        p.set(2, 5, pc);
        p.set(3, 0, pc);
        p.set(4, 1, pc);
        p.set(5, 2, pc);
        p.set(3, 3, pv);
        p.set(4, 4, pv);
        p.set(5, 5, pv);
        proof {
            assert forall|i: int, j: int| 0 <= i < 6 && 0 <= j < 6 implies #[trigger] ent(
                p@,
                i,
                j,
            ) == (if i == j && i < 3 {
                p0_pos_at(dt@, sigma_acc@).unwrap()
            } else if i == j && i >= 3 {
                p0_vel_at(dt@, sigma_acc@).unwrap()
            } else if j == i + 3 || i == j + 3 {
                p0_cross_at(dt@, sigma_acc@).unwrap()
            } else {
                frac_int(0)
            }) by {
            }
        }
        Some(KalmanData { x, p })
    }
}

/// The model identity matrix.
pub open spec fn identity_v(n: int) -> MatV {
    MatV {
        rows: n,
        cols: n,
        e: Seq::new(
            (n * n) as nat,
            |t: int|
                if t / n == t % n {
                    frac_int(1)
                } else {
                    frac_int(0)
                },
        ),
    }
}

/// An entrywise description pins the identity matrix.
pub proof fn lemma_is_identity(m: MatV, n: int)
    requires
        1 <= n,
        m.rows == n,
        m.cols == n,
        m.e.len() == n * n,
        forall|i: int, j: int|
            0 <= i < n && 0 <= j < n ==> #[trigger] ent(m, i, j) == (if i == j {
                frac_int(1)
            } else {
                frac_int(0)
            }),
    ensures
        m == identity_v(n),
{
    assert forall|t: int| 0 <= t < m.e.len() implies #[trigger] m.e[t] == identity_v(n).e[t] by {
        let i = t / n;
        let j = t % n;
        vstd::arithmetic::div_mod::lemma_fundamental_div_mod(t, n);
        assert(t == i * n + j) by (nonlinear_arith)
            requires
                t == n * i + j,
        ;
        assert(0 <= i < n) by (nonlinear_arith)
            requires
                t == i * n + j,
                0 <= t < n * n,
                0 <= j < n,
                1 <= n,
        ;
        assert(ent(m, i, j) == m.e[t]);
    }
    assert(m.e =~= identity_v(n).e);
    assert(m =~= identity_v(n));
}

/// The model 3-entry column of a sample.
pub open spec fn col3_v(d: Data) -> MatV {
    MatV { rows: 3, cols: 1, e: seq![d.x@, d.y@, d.z@] }
}

/// The three components of a sample as a column matrix.
pub fn col3(d: &Data) -> (r: Matrix)
    requires
        d.wf(),
    ensures
        r.wf(),
        r@ == col3_v(*d),
{
    let mut m = Matrix::zeros(3, 1);
    m.set(0, 0, d.x);
    m.set(1, 0, d.y);
    m.set(2, 0, d.z);
    proof {
        assert(m@.e =~= col3_v(*d).e);
        assert(m@ =~= col3_v(*d));
    }
    m
}

/// All checked steps of the mean prediction `A x + B u` exist.
pub open spec fn predict_mean_ok(a: MatV, b: MatV, x: MatV, u: MatV) -> bool {
    &&& crate::matrix::mul_ok(a, x)
    &&& crate::matrix::mul_ok(b, u)
    &&& crate::matrix::add_ok(
        crate::matrix::mat_mul_v(a, x),
        crate::matrix::mat_mul_v(b, u),
    )
}

/// All checked steps of a prediction exist.
pub open spec fn predict_ok(a: MatV, b: MatV, q: MatV, x: MatV, p: MatV, u: MatV) -> bool {
    &&& predict_mean_ok(a, b, x, u)
    &&& crate::matrix::mul_ok(a, p)
    &&& crate::matrix::mul_ok(
        crate::matrix::mat_mul_v(a, p),
        crate::matrix::mat_transpose_v(a),
    )
    &&& crate::matrix::add_ok(
        crate::matrix::mat_mul_v(crate::matrix::mat_mul_v(a, p), crate::matrix::mat_transpose_v(a)),
        q,
    )
}

/// The predicted mean: `A x + B u`.
pub open spec fn predict_x_v(a: MatV, b: MatV, x: MatV, u: MatV) -> MatV {
    crate::matrix::mat_add_v(crate::matrix::mat_mul_v(a, x), crate::matrix::mat_mul_v(b, u))
}

/// The predicted covariance: `A P At + Q`.
pub open spec fn predict_p_v(a: MatV, q: MatV, p: MatV) -> MatV {
    crate::matrix::mat_add_v(
        crate::matrix::mat_mul_v(crate::matrix::mat_mul_v(a, p), crate::matrix::mat_transpose_v(a)),
        q,
    )
}

/// The innovation covariance: `H P Ht + R`.
pub open spec fn s_v(h: MatV, r: MatV, p: MatV) -> MatV {
    crate::matrix::mat_add_v(
        crate::matrix::mat_mul_v(crate::matrix::mat_mul_v(h, p), crate::matrix::mat_transpose_v(h)),
        r,
    )
}

/// All checked steps of the innovation covariance exist.
pub open spec fn s_ok(h: MatV, r: MatV, p: MatV) -> bool {
    &&& crate::matrix::mul_ok(h, p)
    &&& crate::matrix::mul_ok(
        crate::matrix::mat_mul_v(h, p),
        crate::matrix::mat_transpose_v(h),
    )
    &&& crate::matrix::add_ok(
        crate::matrix::mat_mul_v(crate::matrix::mat_mul_v(h, p), crate::matrix::mat_transpose_v(h)),
        r,
    )
}

/// The Kalman gain: `P Ht Sinv`.
pub open spec fn gain_v(h: MatV, r: MatV, p: MatV) -> MatV {
    crate::matrix::mat_mul_v(
        crate::matrix::mat_mul_v(p, crate::matrix::mat_transpose_v(h)),
        crate::matrix::mat_inv3_v(s_v(h, r, p)),
    )
}

/// The innovation: `z - H x`.
pub open spec fn innovation_v(h: MatV, x: MatV, z: MatV) -> MatV {
    crate::matrix::mat_sub_v(z, crate::matrix::mat_mul_v(h, x))
}

/// All checked steps of a correction exist and the innovation covariance is
/// invertible.
pub open spec fn correct_ok(h: MatV, r: MatV, x: MatV, p: MatV, z: MatV) -> bool {
    &&& s_ok(h, r, p)
    &&& !crate::matrix::singular3(s_v(h, r, p))
    &&& !crate::matrix::inv3_overflow(s_v(h, r, p))
    &&& crate::matrix::mul_ok(p, crate::matrix::mat_transpose_v(h))
    &&& crate::matrix::mul_ok(
        crate::matrix::mat_mul_v(p, crate::matrix::mat_transpose_v(h)),
        crate::matrix::mat_inv3_v(s_v(h, r, p)),
    )
    &&& crate::matrix::mul_ok(h, x)
    &&& crate::matrix::sub_ok(z, crate::matrix::mat_mul_v(h, x))
    &&& crate::matrix::mul_ok(gain_v(h, r, p), innovation_v(h, x, z))
    &&& crate::matrix::add_ok(
        x,
        crate::matrix::mat_mul_v(gain_v(h, r, p), innovation_v(h, x, z)),
    )
    &&& crate::matrix::mul_ok(gain_v(h, r, p), h)
    &&& crate::matrix::sub_ok(identity_v(6), crate::matrix::mat_mul_v(gain_v(h, r, p), h))
    &&& crate::matrix::mul_ok(
        crate::matrix::mat_sub_v(identity_v(6), crate::matrix::mat_mul_v(gain_v(h, r, p), h)),
        p,
    )
}

/// The corrected mean: `x + K (z - H x)`.
pub open spec fn correct_x_v(h: MatV, r: MatV, x: MatV, p: MatV, z: MatV) -> MatV {
    crate::matrix::mat_add_v(
        x,
        crate::matrix::mat_mul_v(gain_v(h, r, p), innovation_v(h, x, z)),
    )
}

/// The corrected covariance: `(I - K H) P`.
pub open spec fn correct_p_v(h: MatV, r: MatV, p: MatV) -> MatV {
    crate::matrix::mat_mul_v(
        crate::matrix::mat_sub_v(identity_v(6), crate::matrix::mat_mul_v(gain_v(h, r, p), h)),
        p,
    )
}

/// The Kalman estimator: model matrices, filter state, bootstrap progress,
/// cadence state and output subscribers.
pub struct KalmanFilter {
    /// Output subscribers, pruned as their receivers disappear.
    pub tx: Vec<Sender<Telemetry>>,
    /// State transition matrix.
    pub a: Matrix,
    /// Control matrix.
    pub b: Matrix,
    /// Observation matrix.
    pub h: Matrix,
    /// Process noise.
    pub q: Matrix,
    /// Measurement noise.
    pub r: Matrix,
    /// Filter mean and covariance.
    pub state: KalmanData,
    /// Position fixes consumed by the bootstrap so far.
    pub gps_samples_received: u32,
    /// The first position fix, while bootstrapping.
    pub prev_gps_data: Data,
    /// When the previous acceleration sample was evaluated.
    pub last_imu_data_timestamp: u64,
    /// Shortest accepted interval between acceleration samples.
    pub min_interval: Rational,
    /// Longest interval accepted without a warning.
    pub max_interval: Rational,
}

impl KalmanFilter {
    /// Structurally sound filter: every matrix well formed with the model
    /// dimensions.
    pub open spec fn wf(self) -> bool {
        &&& mat_wf(self.a@) && self.a@.rows == 6 && self.a@.cols == 6
        &&& mat_wf(self.b@) && self.b@.rows == 6 && self.b@.cols == 3
        &&& mat_wf(self.h@) && self.h@.rows == 3 && self.h@.cols == 6
        &&& mat_wf(self.q@) && self.q@.rows == 6 && self.q@.cols == 6
        &&& mat_wf(self.r@) && self.r@.rows == 3 && self.r@.cols == 3
        &&& self.state.wf()
        &&& self.prev_gps_data.wf()
        &&& self.min_interval.wf()
        &&& self.max_interval.wf()
    }

    /// Whether any output subscriber is still live.
    pub fn has_subscribers(&self) -> (r: bool)
        ensures
            r == (self.tx@.len() > 0),
    {
        self.tx.len() > 0
    }

    /// Perform one prediction: `x` advances by the motion model driven by the
    /// measured acceleration `u`, and the covariance grows by the process
    /// noise.  On overflow the state is left untouched.
    pub fn predict(&mut self, u: &Data) -> (r: Result<(), EstimatorError>)
        requires
            old(self).wf(),
            u.wf(),
        ensures
            final(self).wf(),
            r.is_ok() == predict_ok(
                old(self).a@,
                old(self).b@,
                old(self).q@,
                old(self).state.x@,
                old(self).state.p@,
                col3_v(*u),
            ),
            r matches Ok(_) ==> final(self).state.x@ == predict_x_v(
                old(self).a@,
                old(self).b@,
                old(self).state.x@,
                col3_v(*u),
            ) && final(self).state.p@ == predict_p_v(
                old(self).a@,
                old(self).q@,
                old(self).state.p@,
            ),
            r matches Err(e) ==> e == EstimatorError::Overflow && final(self).state.x@ == old(self).state.x@ && final(self).state.p@ == old(self).state.p@,
            final(self).a@ == old(self).a@ && final(self).b@ == old(self).b@ && final(self).h@
                == old(self).h@ && final(self).q@ == old(self).q@ && final(self).r@ == old(self).r@,
            final(self).tx@ == old(self).tx@,
            final(self).gps_samples_received == old(self).gps_samples_received,
            final(self).prev_gps_data == old(self).prev_gps_data,
            final(self).last_imu_data_timestamp == old(self).last_imu_data_timestamp,
            final(self).min_interval == old(self).min_interval,
            final(self).max_interval == old(self).max_interval,
    {
        let uc = col3(u);
        let at = self.a.transpose();
        proof {
            crate::matrix::lemma_is_transpose(at@, self.a@);
        }
        let t1 = match self.a.try_mul(&self.state.x) {
            None => {
                return Err(EstimatorError::Overflow);
            },
            Some(m) => m,
        };
        proof {
            crate::matrix::lemma_is_mul(t1@, self.a@, self.state.x@);
        }
        let t2 = match self.b.try_mul(&uc) {
            None => {
                return Err(EstimatorError::Overflow);
            },
            Some(m) => m,
        };
        proof {
            crate::matrix::lemma_is_mul(t2@, self.b@, uc@);
        }
        let xnew = match t1.try_add(&t2) {
            None => {
                return Err(EstimatorError::Overflow);
            },
            Some(m) => m,
        };
        proof {
            crate::matrix::lemma_is_add(xnew@, t1@, t2@);
        }
        let ap = match self.a.try_mul(&self.state.p) {
            None => {
                return Err(EstimatorError::Overflow);
            },
            Some(m) => m,
        };
        proof {
            crate::matrix::lemma_is_mul(ap@, self.a@, self.state.p@);
        }
        let apat = match ap.try_mul(&at) {
            None => {
                return Err(EstimatorError::Overflow);
            },
            Some(m) => m,
        };
        proof {
            crate::matrix::lemma_is_mul(apat@, ap@, at@);
        }
        let pnew = match apat.try_add(&self.q) {
            None => {
                return Err(EstimatorError::Overflow);
            },
            Some(m) => m,
        };
        proof {
            crate::matrix::lemma_is_add(pnew@, apat@, self.q@);
        }
        self.state.x = xnew;
        self.state.p = pnew;
        Ok(())
    }

    /// Perform one correction: fold the measured position `z` into the state
    /// through the Kalman gain.  A singular innovation covariance and a
    /// numeric overflow are reported as distinct failures, with the state
    /// left untouched.
    #[verifier::rlimit(100)]
    pub fn correct(&mut self, z: &Data) -> (r: Result<(), EstimatorError>)
        requires
            old(self).wf(),
            z.wf(),
        ensures
            final(self).wf(),
            r.is_ok() == correct_ok(
                old(self).h@,
                old(self).r@,
                old(self).state.x@,
                old(self).state.p@,
                col3_v(*z),
            ),
            r matches Ok(_) ==> final(self).state.x@ == correct_x_v(
                old(self).h@,
                old(self).r@,
                old(self).state.x@,
                old(self).state.p@,
                col3_v(*z),
            ) && final(self).state.p@ == correct_p_v(
                old(self).h@,
                old(self).r@,
                old(self).state.p@,
            ),
            r matches Err(e) ==> final(self).state.x@ == old(self).state.x@ && final(self).state.p@
                == old(self).state.p@,
            (r matches Err(e) && e == EstimatorError::SingularCovariance) <==> (s_ok(
                old(self).h@,
                old(self).r@,
                old(self).state.p@,
            ) && crate::matrix::singular3(s_v(old(self).h@, old(self).r@, old(self).state.p@))),
            final(self).a@ == old(self).a@ && final(self).b@ == old(self).b@ && final(self).h@
                == old(self).h@ && final(self).q@ == old(self).q@ && final(self).r@ == old(self).r@,
            final(self).tx@ == old(self).tx@,
            final(self).gps_samples_received == old(self).gps_samples_received,
            final(self).prev_gps_data == old(self).prev_gps_data,
            final(self).last_imu_data_timestamp == old(self).last_imu_data_timestamp,
            final(self).min_interval == old(self).min_interval,
            final(self).max_interval == old(self).max_interval,
    {
        let zc = col3(z);
        let ht = self.h.transpose();
        proof {
            crate::matrix::lemma_is_transpose(ht@, self.h@);
        }
        let hp = match self.h.try_mul(&self.state.p) {
            None => {
                return Err(EstimatorError::Overflow);
            },
            Some(m) => m,
        };
        proof {
            crate::matrix::lemma_is_mul(hp@, self.h@, self.state.p@);
        }
        let hpht = match hp.try_mul(&ht) {
            None => {
                return Err(EstimatorError::Overflow);
            },
            Some(m) => m,
        };
        proof {
            crate::matrix::lemma_is_mul(hpht@, hp@, ht@);
        }
        let s = match hpht.try_add(&self.r) {
            None => {
                return Err(EstimatorError::Overflow);
            },
            Some(m) => m,
        };
        proof {
            crate::matrix::lemma_is_add(s@, hpht@, self.r@);
            assert(s@ == s_v(self.h@, self.r@, self.state.p@));
        }
        let sinv = match s.try_inverse3() {
            Err(e) => {
                return Err(e);
            },
            Ok(m) => m,
        };
        proof {
            crate::matrix::lemma_is_inv3(sinv@, s@);
        }
        let pht = match self.state.p.try_mul(&ht) {
            None => {
                return Err(EstimatorError::Overflow);
            },
            Some(m) => m,
        };
        proof {
            crate::matrix::lemma_is_mul(pht@, self.state.p@, ht@);
        }
        let k = match pht.try_mul(&sinv) {
            None => {
                return Err(EstimatorError::Overflow);
            },
            Some(m) => m,
        };
        proof {
            crate::matrix::lemma_is_mul(k@, pht@, sinv@);
            assert(k@ == gain_v(self.h@, self.r@, self.state.p@));
        }
        let hx = match self.h.try_mul(&self.state.x) {
            None => {
                return Err(EstimatorError::Overflow);
            },
            Some(m) => m,
        };
        proof {
            crate::matrix::lemma_is_mul(hx@, self.h@, self.state.x@);
        }
        let innov = match zc.try_sub(&hx) {
            None => {
                return Err(EstimatorError::Overflow);
            },
            Some(m) => m,
        };
        proof {
            crate::matrix::lemma_is_sub(innov@, zc@, hx@);
            assert(innov@ == innovation_v(self.h@, self.state.x@, zc@));
        }
        let kin = match k.try_mul(&innov) {
            None => {
                return Err(EstimatorError::Overflow);
            },
            Some(m) => m,
        };
        proof {
            crate::matrix::lemma_is_mul(kin@, k@, innov@);
        }
        let xnew = match self.state.x.try_add(&kin) {
            None => {
                return Err(EstimatorError::Overflow);
            },
            Some(m) => m,
        };
        proof {
            crate::matrix::lemma_is_add(xnew@, self.state.x@, kin@);
        }
        let kh = match k.try_mul(&self.h) {
            None => {
                return Err(EstimatorError::Overflow);
            },
            Some(m) => m,
        };
        proof {
            crate::matrix::lemma_is_mul(kh@, k@, self.h@);
        }
        let eye = Matrix::identity(6);
        proof {
            lemma_is_identity(eye@, 6);
        }
        let ikh = match eye.try_sub(&kh) {
            None => {
                return Err(EstimatorError::Overflow);
            },
            Some(m) => m,
        };
        proof {
            crate::matrix::lemma_is_sub(ikh@, eye@, kh@);
        }
        let pnew = match ikh.try_mul(&self.state.p) {
            None => {
                return Err(EstimatorError::Overflow);
            },
            Some(m) => m,
        };
        proof {
            crate::matrix::lemma_is_mul(pnew@, ikh@, self.state.p@);
        }
        self.state.x = xnew;
        self.state.p = pnew;
        Ok(())
    }
}

/// Everything `KalmanFilter::new` must compute fits the representation.
pub open spec fn kalman_setup_ok(dtf: Frac, acc_sigma: Frac, gps_sigma: Frac, tol: Frac) -> bool {
    &&& b_top_at(dtf).is_some()
    &&& q_pos_at(dtf, acc_sigma).is_some()
    &&& q_cross_at(dtf, acc_sigma).is_some()
    &&& q_vel_at(dtf, acc_sigma).is_some()
    &&& p0_pos_at(dtf, acc_sigma).is_some()
    &&& p0_cross_at(dtf, acc_sigma).is_some()
    &&& p0_vel_at(dtf, acc_sigma).is_some()
    &&& min_interval_at(dtf, tol).is_some()
    &&& max_interval_at(dtf, tol).is_some()
}

impl KalmanFilter {
    /// Build the estimator: derive the model matrices from the nominal
    /// period, blow up the initial covariance, and arm the cadence guard at
    /// `start_time_ns`.
    pub fn new(tx: Vec<Sender<Telemetry>>, config: KalmanConfig, start_time_ns: u64) -> (r: Result<
        KalmanFilter,
        EstimatorError,
    >)
        requires
            config.wf(),
        ensures
            ({
                let dtf = Frac { n: 1, d: config.imu_freq as int };
                &&& r.is_ok() == kalman_setup_ok(
                    dtf,
                    config.acc_sigma@,
                    config.gps_sigma@,
                    config.timing_tolerance@,
                )
                &&& r matches Err(e) ==> e == EstimatorError::Overflow
                &&& r matches Ok(f) ==> {
                    &&& f.wf()
                    &&& f.tx@ == tx@
                    &&& f.gps_samples_received == 0
                    &&& f.last_imu_data_timestamp == start_time_ns
                    &&& f.min_interval@ == min_interval_at(dtf, config.timing_tolerance@).unwrap()
                    &&& f.max_interval@ == max_interval_at(dtf, config.timing_tolerance@).unwrap()
                    &&& forall|i: int, j: int|
                        0 <= i < 6 && 0 <= j < 6 ==> #[trigger] ent(f.a@, i, j) == (if i == j {
                            frac_int(1)
                        } else if j == i + 3 {
                            dtf
                        } else {
                            frac_int(0)
                        })
                    &&& forall|i: int, j: int|
                        0 <= i < 6 && 0 <= j < 3 ==> #[trigger] ent(f.b@, i, j) == (if i == j {
                            b_top_at(dtf).unwrap()
                        } else if i == j + 3 {
                            dtf
                        } else {
                            frac_int(0)
                        })
                    &&& forall|i: int, j: int|
                        0 <= i < 3 && 0 <= j < 6 ==> #[trigger] ent(f.h@, i, j) == (if i == j {
                            frac_int(1)
                        } else {
                            frac_int(0)
                        })
                    &&& forall|i: int, j: int|
                        0 <= i < 6 && 0 <= j < 6 ==> #[trigger] ent(f.q@, i, j) == (if i == j && i
                            < 3 {
                            q_pos_at(dtf, config.acc_sigma@).unwrap()
                        } else if i == j && i >= 3 {
                            q_vel_at(dtf, config.acc_sigma@).unwrap()
                        } else if j == i + 3 || i == j + 3 {
                            q_cross_at(dtf, config.acc_sigma@).unwrap()
                        } else {
                            frac_int(0)
                        })
                    &&& forall|i: int, j: int|
                        0 <= i < 3 && 0 <= j < 3 ==> #[trigger] ent(f.r@, i, j) == (if i == j {
                            config.gps_sigma@
                        } else {
                            frac_int(0)
                        })
                    &&& forall|i: int| 0 <= i < 6 ==> ent(f.state.x@, i, 0) == frac_int(0)
                    &&& forall|i: int, j: int|
                        0 <= i < 6 && 0 <= j < 6 ==> #[trigger] ent(f.state.p@, i, j) == (if i == j
                            && i < 3 {
                            p0_pos_at(dtf, config.acc_sigma@).unwrap()
                        } else if i == j && i >= 3 {
                            p0_vel_at(dtf, config.acc_sigma@).unwrap()
                        } else if j == i + 3 || i == j + 3 {
                            p0_cross_at(dtf, config.acc_sigma@).unwrap()
                        } else {
                            frac_int(0)
                        })
                }
            }),
    {
        let dt = nominal_period(config.imu_freq);
        let a = create_matrix_A(&dt);
        let b = match create_matrix_B(&dt) {
            None => {
                return Err(EstimatorError::Overflow);
            },
            Some(m) => m,
        };
        let h = create_matrix_H();
        let q = match create_matrix_Q(&dt, &config.acc_sigma) {
            None => {
                return Err(EstimatorError::Overflow);
            },
            Some(m) => m,
        };
        let r = create_matrix_R(&config.gps_sigma);
        let state = match KalmanData::new(&dt, &config.acc_sigma) {
            None => {
                return Err(EstimatorError::Overflow);
            },
            Some(s) => s,
        };
        let min_interval = match min_expected_imu_interval(&dt, &config.timing_tolerance) {
            None => {
                return Err(EstimatorError::Overflow);
            },
            Some(v) => v,
        };
        let max_interval = match max_expected_imu_interval(&dt, &config.timing_tolerance) {
            None => {
                return Err(EstimatorError::Overflow);
            },
            Some(v) => v,
        };
        Ok(
            KalmanFilter {
                tx,
                a,
                b,
                h,
                q,
                r,
                state,
                gps_samples_received: 0,
                prev_gps_data: Data::new(start_time_ns),
                last_imu_data_timestamp: start_time_ns,
                min_interval,
                max_interval,
            },
        )
    }

    /// Consume one telemetry sample, observed at `now_ns`.
    ///
    /// While fewer than two position fixes have been seen, the sample only
    /// feeds the bootstrap and nothing is emitted.  Afterwards an
    /// acceleration sample is gated by the cadence guard and drives a
    /// prediction; a position sample drives a correction; after either, the
    /// position estimate is broadcast to the subscribers, pruning dead ones,
    /// and returned.
    pub fn step(&mut self, telemetry: &Telemetry, now_ns: u64) -> (r: Result<
        Option<Data>,
        EstimatorError,
    >)
        requires
            old(self).wf(),
            telemetry.wf(),
            old(self).gps_samples_received < u32::MAX,
            now_ns <= old(self).last_imu_data_timestamp || now_ns - old(self).last_imu_data_timestamp <= i64::MAX,
        ensures
            final(self).wf(),
            final(self).a@ == old(self).a@ && final(self).b@ == old(self).b@ && final(self).h@
                == old(self).h@ && final(self).q@ == old(self).q@ && final(self).r@ == old(self).r@,
            final(self).min_interval == old(self).min_interval && final(self).max_interval == old(self).max_interval,
            final(self).tx@.len() <= old(self).tx@.len(),
            old(self).gps_samples_received < 2 ==> ({
                &&& r matches Ok(o) ==> o is None
                &&& final(self).tx@ == old(self).tx@
                &&& final(self).last_imu_data_timestamp == old(self).last_imu_data_timestamp
                &&& final(self).state.p@ == old(self).state.p@
                &&& telemetry matches Telemetry::Acceleration(_) ==> r.is_ok() && final(self).gps_samples_received == old(self).gps_samples_received && final(self).state.x@
                    == old(self).state.x@ && final(self).prev_gps_data == old(self).prev_gps_data
                &&& telemetry matches Telemetry::Position(d) ==> (old(self).gps_samples_received
                    == 0 ==> r.is_ok() && final(self).gps_samples_received == 1 && final(self).state.x@ == old(self).state.x@ && final(self).prev_gps_data == d)
                &&& telemetry matches Telemetry::Position(d) ==> (old(self).gps_samples_received
                    == 1 ==> ({
                    let p = old(self).prev_gps_data;
                    let vx = crate::estimators::boot_component(d.x@, p.x@, p.timestamp, d.timestamp);
                    let vy = crate::estimators::boot_component(d.y@, p.y@, p.timestamp, d.timestamp);
                    let vz = crate::estimators::boot_component(d.z@, p.z@, p.timestamp, d.timestamp);
                    &&& final(self).prev_gps_data == p
                    &&& r.is_ok() == (crate::estimators::elapsed_seconds_result(
                        p.timestamp,
                        d.timestamp,
                    ).is_ok() && vx.is_some() && vy.is_some() && vz.is_some())
                    &&& r matches Ok(_) ==> final(self).gps_samples_received == 2 && ent(
                        final(self).state.x@,
                        0,
                        0,
                    ) == d.x@ && ent(final(self).state.x@, 1, 0) == d.y@ && ent(
                        final(self).state.x@,
                        2,
                        0,
                    ) == d.z@ && ent(final(self).state.x@, 3, 0) == vx.unwrap() && ent(
                        final(self).state.x@,
                        4,
                        0,
                    ) == vy.unwrap() && ent(final(self).state.x@, 5, 0) == vz.unwrap()
                    &&& r matches Err(_) ==> final(self).state.x@ == old(self).state.x@
                    &&& r matches Err(e) ==> e == (match crate::estimators::elapsed_seconds_result(
                        p.timestamp,
                        d.timestamp,
                    ) {
                        Err(de) => de,
                        Ok(_) => EstimatorError::Overflow,
                    })
                }))
            }),
            old(self).gps_samples_received >= 2 ==> ({
                &&& final(self).gps_samples_received == old(self).gps_samples_received
                &&& final(self).prev_gps_data == old(self).prev_gps_data
                &&& telemetry matches Telemetry::Acceleration(u) ==> ({
                    let accepted = cadence_accepts(
                        cadence_spec(
                            old(self).last_imu_data_timestamp,
                            now_ns,
                            old(self).min_interval@,
                            old(self).max_interval@,
                        ),
                    );
                    &&& final(self).last_imu_data_timestamp == now_ns
                    &&& !accepted ==> (r matches Ok(o) && o is None && final(self).state.x@
                        == old(self).state.x@ && final(self).state.p@ == old(self).state.p@
                        && final(self).tx@ == old(self).tx@)
                    &&& accepted ==> ({
                        &&& r.is_ok() == predict_ok(
                            old(self).a@,
                            old(self).b@,
                            old(self).q@,
                            old(self).state.x@,
                            old(self).state.p@,
                            col3_v(*u),
                        )
                        &&& r matches Ok(o) ==> final(self).state.x@ == predict_x_v(
                            old(self).a@,
                            old(self).b@,
                            old(self).state.x@,
                            col3_v(*u),
                        ) && final(self).state.p@ == predict_p_v(
                            old(self).a@,
                            old(self).q@,
                            old(self).state.p@,
                        ) && (o matches Some(e) && e.timestamp == now_ns && e.x@ == ent(
                            final(self).state.x@,
                            0,
                            0,
                        ) && e.y@ == ent(final(self).state.x@, 1, 0) && e.z@ == ent(
                            final(self).state.x@,
                            2,
                            0,
                        ))
                        &&& r matches Err(e) ==> e == EstimatorError::Overflow && final(self).state.x@ == old(self).state.x@ && final(self).state.p@ == old(self).state.p@ && final(self).tx@ == old(self).tx@
                    })
                })
                &&& telemetry matches Telemetry::Position(z) ==> ({
                    &&& final(self).last_imu_data_timestamp == old(self).last_imu_data_timestamp
                    &&& r.is_ok() == correct_ok(
                        old(self).h@,
                        old(self).r@,
                        old(self).state.x@,
                        old(self).state.p@,
                        col3_v(*z),
                    )
                    &&& r matches Ok(o) ==> final(self).state.x@ == correct_x_v(
                        old(self).h@,
                        old(self).r@,
                        old(self).state.x@,
                        old(self).state.p@,
                        col3_v(*z),
                    ) && final(self).state.p@ == correct_p_v(
                        old(self).h@,
                        old(self).r@,
                        old(self).state.p@,
                    ) && (o matches Some(e) && e.timestamp == now_ns && e.x@ == ent(
                        final(self).state.x@,
                        0,
                        0,
                    ) && e.y@ == ent(final(self).state.x@, 1, 0) && e.z@ == ent(
                        final(self).state.x@,
                        2,
                        0,
                    ))
                    &&& (r matches Err(e) && e == EstimatorError::SingularCovariance) <==> (s_ok(
                        old(self).h@,
                        old(self).r@,
                        old(self).state.p@,
                    ) && crate::matrix::singular3(
                        s_v(old(self).h@, old(self).r@, old(self).state.p@),
                    ))
                    &&& r matches Err(_) ==> final(self).state.x@ == old(self).state.x@ && final(self).state.p@ == old(self).state.p@ && final(self).tx@ == old(self).tx@
                })
            }),
    {
        if self.gps_samples_received < 2 {
            let rb = initialize_state_using_gps_data(
                telemetry,
                &mut self.gps_samples_received,
                &mut self.state.x,
                &mut self.prev_gps_data,
            );
            return match rb {
                Ok(_) => Ok(None),
                Err(e) => Err(e),
            };
        }
        let accept = telemetry_check(
            telemetry,
            &mut self.last_imu_data_timestamp,
            now_ns,
            &self.min_interval,
            &self.max_interval,
        );
        if !accept {
            return Ok(None);
        }
        match telemetry {
            Telemetry::Acceleration(u) => {
                match self.predict(u) {
                    Ok(_) => {},
                    Err(e) => {
                        return Err(e);
                    },
                }
            },
            Telemetry::Position(z) => {
                match self.correct(z) {
                    Ok(_) => {},
                    Err(e) => {
                        return Err(e);
                    },
                }
            },
        }
        let estimate = Data {
            x: self.state.x.get(0, 0),
            y: self.state.x.get(1, 0),
            z: self.state.x.get(2, 0),
            timestamp: now_ns,
        };
        fan_out(&mut self.tx, Telemetry::Position(estimate));
        Ok(Some(estimate))
    }
}

/// The state transition matrix has its table of entries: ones on the
/// diagonal, the nominal period linking each position to its velocity.
pub open spec fn a_table(a: MatV, dtf: Frac) -> bool {
    forall|i: int, j: int|
        0 <= i < 6 && 0 <= j < 6 ==> #[trigger] ent(a, i, j) == (if i == j {
            frac_int(1)
        } else if j == i + 3 {
            dtf
        } else {
            frac_int(0)
        })
}

/// The observation matrix has its table of entries: it selects the three
/// position components.
pub open spec fn h_table(h: MatV) -> bool {
    forall|i: int, j: int|
        0 <= i < 3 && 0 <= j < 6 ==> #[trigger] ent(h, i, j) == (if i == j {
            frac_int(1)
        } else {
            frac_int(0)
        })
}

/// With a zero acceleration, one prediction advances each position by its
/// velocity times the nominal period and leaves every velocity unchanged.
pub proof fn lemma_predict_zero_acceleration(a: MatV, b: MatV, x: MatV, u: MatV, dtf: Frac)
    requires
        mat_wf(a) && a.rows == 6 && a.cols == 6,
        mat_wf(b) && b.rows == 6 && b.cols == 3,
        state_wf(x),
        mat_wf(u) && u.rows == 3 && u.cols == 1,
        frac_wf(dtf),
        a_table(a, dtf),
        forall|t: int| 0 <= t < 3 ==> frac_eq(#[trigger] ent(u, t, 0), frac_int(0)),
        predict_mean_ok(a, b, x, u),
    ensures
        forall|i: int|
            0 <= i < 3 ==> frac_eq(
                #[trigger] ent(predict_x_v(a, b, x, u), i, 0),
                frac_add(ent(x, i, 0), frac_mul(dtf, ent(x, i + 3, 0))),
            ),
        forall|i: int|
            3 <= i < 6 ==> frac_eq(#[trigger] ent(predict_x_v(a, b, x, u), i, 0), ent(x, i, 0)),
{
    let ax = crate::matrix::mat_mul_v(a, x);
    let bu = crate::matrix::mat_mul_v(b, u);
    assert forall|i: int| 0 <= i < 6 implies (0 <= i < 3 ==> frac_eq(
        #[trigger] ent(predict_x_v(a, b, x, u), i, 0),
        frac_add(ent(x, i, 0), frac_mul(dtf, ent(x, i + 3, 0))),
    )) && (3 <= i < 6 ==> frac_eq(ent(predict_x_v(a, b, x, u), i, 0), ent(x, i, 0))) by {
        assert forall|t: int| 0 <= t < 6 implies ent(a, i, t).d >= 1 && ent(x, t, 0).d >= 1 by {
            crate::matrix::lemma_ent_wf(a, i, t);
            crate::matrix::lemma_ent_wf(x, t, 0);
        }
        assert forall|t: int| 0 <= t < 3 implies ent(b, i, t).d >= 1 && ent(u, t, 0).d >= 1 by {
            crate::matrix::lemma_ent_wf(b, i, t);
            crate::matrix::lemma_ent_wf(u, t, 0);
        }
        // The row of A times the state.
        assert(crate::matrix::dot_at(a, x, i, 0, a.cols as nat).is_some());
        crate::matrix::lemma_dot_sound(a, x, i, 0, 6);
        let axv = crate::matrix::dot_at(a, x, i, 0, 6).unwrap();
        let axi = crate::matrix::ideal_dot(a, x, i, 0, 6);
        crate::matrix::lemma_ideal_dot_den(a, x, i, 0, 6);
        // The row of B times the zero acceleration.
        assert(crate::matrix::dot_at(b, u, i, 0, b.cols as nat).is_some());
        crate::matrix::lemma_dot_sound(b, u, i, 0, 3);
        crate::matrix::lemma_ideal_dot_zero_col(b, u, i, 0, 3);
        crate::matrix::lemma_ideal_dot_den(b, u, i, 0, 3);
        let buv = crate::matrix::dot_at(b, u, i, 0, 3).unwrap();
        crate::frac::lemma_eq_trans(buv, crate::matrix::ideal_dot(b, u, i, 0, 3), frac_int(0));
        assert(buv.n == 0);
        // The matrix product entries are those dot products.
        assert(ent(ax, i, 0) == ax.e[i * 1 + 0]);
        assert(ax.e[i] == crate::matrix::dot_at(a, x, i / 1, i % 1, 6).unwrap());
        assert(i / 1 == i && i % 1 == 0) by (nonlinear_arith)
            requires
                0 <= i,
        ;
        assert(ent(ax, i, 0) == axv);
        assert(ent(bu, i, 0) == bu.e[i * 1 + 0]);
        assert(bu.e[i] == crate::matrix::dot_at(b, u, i / 1, i % 1, 3).unwrap());
        assert(ent(bu, i, 0) == buv);
        // The sum entry exists and equals the exact sum.
        assert(crate::matrix::add_at(ax, bu, i).is_some());
        assert(ax.e[i] == axv && bu.e[i] == buv);
        let sv = crate::matrix::add_at(ax, bu, i).unwrap();
        assert(sv == frac_checked(frac_add(axv, buv)).unwrap());
        assert(frac_add(axv, buv).d >= 1) by (nonlinear_arith)
            requires
                axv.d >= 1,
                buv.d >= 1,
                frac_add(axv, buv).d == axv.d * buv.d,
        ;
        crate::frac::lemma_checked_sound(frac_add(axv, buv));
        crate::frac::lemma_add_zero(axv, buv);
        crate::frac::lemma_eq_trans(sv, frac_add(axv, buv), axv);
        assert(ent(predict_x_v(a, b, x, u), i, 0) == sv);
        // Collapse the row of A.
        if i < 3 {
            crate::matrix::lemma_ideal_dot_two(a, x, i, 0, i, i + 3, 6);
            let tp = frac_mul(ent(a, i, i), ent(x, i, 0));
            let tq = frac_mul(ent(a, i, i + 3), ent(x, i + 3, 0));
            crate::frac::lemma_mul_one(ent(a, i, i), ent(x, i, 0));
            let tgt = frac_add(ent(x, i, 0), frac_mul(dtf, ent(x, i + 3, 0)));
            crate::frac::lemma_add_congruence(tp, ent(x, i, 0), tq, tq);
            assert(frac_add(tp, tq).d >= 1) by (nonlinear_arith)
                requires
                    ent(a, i, i).d >= 1,
                    ent(x, i, 0).d >= 1,
                    ent(a, i, i + 3).d >= 1,
                    ent(x, i + 3, 0).d >= 1,
                    tp.d == ent(a, i, i).d * ent(x, i, 0).d,
                    tq.d == ent(a, i, i + 3).d * ent(x, i + 3, 0).d,
                    frac_add(tp, tq).d == tp.d * tq.d,
            ;
            crate::frac::lemma_eq_trans(axi, frac_add(tp, tq), tgt);
            crate::frac::lemma_eq_trans(axv, axi, tgt);
            crate::frac::lemma_eq_trans(sv, axv, tgt);
        } else {
            crate::matrix::lemma_ideal_dot_two(a, x, i, 0, 0, i, 6);
            let tp = frac_mul(ent(a, i, 0), ent(x, 0, 0));
            let tq = frac_mul(ent(a, i, i), ent(x, i, 0));
            crate::frac::lemma_mul_zero(ent(a, i, 0), ent(x, 0, 0));
            crate::frac::lemma_mul_one(ent(a, i, i), ent(x, i, 0));
            assert(tp.d >= 1 && tq.d >= 1) by (nonlinear_arith)
                requires
                    ent(a, i, 0).d >= 1,
                    ent(x, 0, 0).d >= 1,
                    ent(a, i, i).d >= 1,
                    ent(x, i, 0).d >= 1,
                    tp.d == ent(a, i, 0).d * ent(x, 0, 0).d,
                    tq.d == ent(a, i, i).d * ent(x, i, 0).d,
            ;
            assert(tp.n == 0);
            crate::frac::lemma_add_zero(tq, tp);
            assert(frac_eq(frac_add(tp, tq), tq)) by (nonlinear_arith)
                requires
                    frac_eq(frac_add(tq, tp), tq),
                    frac_add(tp, tq).n == tp.n * tq.d + tq.n * tp.d,
                    frac_add(tq, tp).n == tq.n * tp.d + tp.n * tq.d,
                    frac_add(tp, tq).d == tp.d * tq.d,
                    frac_add(tq, tp).d == tq.d * tp.d,
            ;
            assert(frac_add(tp, tq).d >= 1) by (nonlinear_arith)
                requires
                    tp.d >= 1,
                    tq.d >= 1,
                    frac_add(tp, tq).d == tp.d * tq.d,
            ;
            crate::frac::lemma_eq_trans(axi, frac_add(tp, tq), tq);
            assert(tq.d >= 1);
            crate::frac::lemma_eq_trans(axi, tq, ent(x, i, 0));
            crate::frac::lemma_eq_trans(axv, axi, ent(x, i, 0));
            crate::frac::lemma_eq_trans(sv, axv, ent(x, i, 0));
        }
    }
}

/// A correction at exactly the predicted position leaves the state mean
/// unchanged: the innovation is zero, so the gain adds nothing.
pub proof fn lemma_correct_at_predicted_position(h: MatV, r: MatV, x: MatV, p: MatV, z: MatV)
    requires
        mat_wf(h) && h.rows == 3 && h.cols == 6,
        mat_wf(r) && r.rows == 3 && r.cols == 3,
        state_wf(x),
        mat_wf(p) && p.rows == 6 && p.cols == 6,
        mat_wf(z) && z.rows == 3 && z.cols == 1,
        h_table(h),
        forall|t: int| 0 <= t < 3 ==> frac_eq(#[trigger] ent(z, t, 0), ent(x, t, 0)),
        correct_ok(h, r, x, p, z),
    ensures
        forall|i: int|
            0 <= i < 6 ==> frac_eq(#[trigger] ent(correct_x_v(h, r, x, p, z), i, 0), ent(x, i, 0)),
{
    let hx = crate::matrix::mat_mul_v(h, x);
    let innov = innovation_v(h, x, z);
    let k = gain_v(h, r, p);
    let kin = crate::matrix::mat_mul_v(k, innov);
    // Every innovation component is zero.
    assert forall|t: int| 0 <= t < 3 implies frac_eq(#[trigger] ent(innov, t, 0), frac_int(0))
        && ent(innov, t, 0).d >= 1 by {
        assert forall|w: int| 0 <= w < 6 implies ent(h, t, w).d >= 1 && ent(x, w, 0).d >= 1 by {
            crate::matrix::lemma_ent_wf(h, t, w);
            crate::matrix::lemma_ent_wf(x, w, 0);
        }
        assert(crate::matrix::dot_at(h, x, t, 0, h.cols as nat).is_some());
        crate::matrix::lemma_dot_sound(h, x, t, 0, 6);
        crate::matrix::lemma_ideal_dot_den(h, x, t, 0, 6);
        crate::matrix::lemma_ideal_dot_two(h, x, t, 0, t, 5, 6);
        let hxi = crate::matrix::ideal_dot(h, x, t, 0, 6);
        let tp = frac_mul(ent(h, t, t), ent(x, t, 0));
        let tq = frac_mul(ent(h, t, 5), ent(x, 5, 0));
        crate::frac::lemma_mul_one(ent(h, t, t), ent(x, t, 0));
        if t != 5 {
            crate::frac::lemma_mul_zero(ent(h, t, 5), ent(x, 5, 0));
        }
        assert(tp.d >= 1 && tq.d >= 1 && frac_add(tp, tq).d >= 1) by (nonlinear_arith)
            requires
                ent(h, t, t).d >= 1,
                ent(x, t, 0).d >= 1,
                ent(h, t, 5).d >= 1,
                ent(x, 5, 0).d >= 1,
                tp.d == ent(h, t, t).d * ent(x, t, 0).d,
                tq.d == ent(h, t, 5).d * ent(x, 5, 0).d,
                frac_add(tp, tq).d == tp.d * tq.d,
        ;
        assert(tq.n == 0);
        crate::frac::lemma_add_zero(tp, tq);
        crate::frac::lemma_eq_trans(hxi, frac_add(tp, tq), tp);
        crate::frac::lemma_eq_trans(hxi, tp, ent(x, t, 0));
        let hxv = crate::matrix::dot_at(h, x, t, 0, 6).unwrap();
        crate::frac::lemma_eq_trans(hxv, hxi, ent(x, t, 0));
        // The stored entries of the intermediate matrices.
        assert(t / 1 == t && t % 1 == 0) by (nonlinear_arith)
            requires
                0 <= t,
        ;
        assert(ent(hx, t, 0) == hx.e[t * 1 + 0]);
        assert(hx.e[t] == crate::matrix::dot_at(h, x, t / 1, t % 1, 6).unwrap());
        assert(ent(hx, t, 0) == hxv);
        // The innovation entry is the checked difference.
        assert(crate::matrix::sub_at(z, hx, t).is_some());
        assert(z.e[t * 1 + 0] == ent(z, t, 0));
        let iv = crate::matrix::sub_at(z, hx, t).unwrap();
        assert(iv == frac_checked(frac_sub(ent(z, t, 0), hxv)).unwrap());
        crate::matrix::lemma_ent_wf(z, t, 0);
        assert(frac_sub(ent(z, t, 0), hxv).d >= 1) by (nonlinear_arith)
            requires
                ent(z, t, 0).d >= 1,
                hxv.d >= 1,
                frac_sub(ent(z, t, 0), hxv).d == ent(z, t, 0).d * hxv.d,
        ;
        crate::frac::lemma_checked_sound(frac_sub(ent(z, t, 0), hxv));
        crate::frac::lemma_eq_trans(ent(z, t, 0), ent(x, t, 0), hxv);
        crate::frac::lemma_sub_self(ent(z, t, 0), hxv);
        crate::frac::lemma_eq_trans(iv, frac_sub(ent(z, t, 0), hxv), frac_int(0));
        assert(ent(innov, t, 0) == innov.e[t * 1 + 0]);
        assert(innov.e[t] == iv);
        crate::matrix::lemma_sub_at_wf(z, hx, t);
    }
    // Hence the gain contributes nothing, entry by entry.
    assert forall|i: int| 0 <= i < 6 implies frac_eq(
        #[trigger] ent(correct_x_v(h, r, x, p, z), i, 0),
        ent(x, i, 0),
    ) by {
        assert forall|t: int| 0 <= t < 3 implies ent(k, i, t).d >= 1 by {
            let pht = crate::matrix::mat_mul_v(p, crate::matrix::mat_transpose_v(h));
            let sinv = crate::matrix::mat_inv3_v(s_v(h, r, p));
            assert(crate::matrix::mul_ok(pht, sinv));
            let w = i * 3 + t;
            vstd::arithmetic::div_mod::lemma_fundamental_div_mod_converse_div(w, 3, i, t);
            vstd::arithmetic::div_mod::lemma_fundamental_div_mod_converse_mod(w, 3, i, t);
            assert(ent(k, i, t) == k.e[w]);
            assert(k.e[w] == crate::matrix::dot_at(pht, sinv, i, t, pht.cols as nat).unwrap());
            assert(crate::matrix::dot_at(pht, sinv, i, t, pht.cols as nat).is_some());
            crate::matrix::lemma_dot_at_wf(pht, sinv, i, t, pht.cols as nat);
        }
        assert(crate::matrix::dot_at(k, innov, i, 0, k.cols as nat).is_some());
        crate::matrix::lemma_dot_sound(k, innov, i, 0, 3);
        crate::matrix::lemma_ideal_dot_zero_col(k, innov, i, 0, 3);
        crate::matrix::lemma_ideal_dot_den(k, innov, i, 0, 3);
        let kv = crate::matrix::dot_at(k, innov, i, 0, 3).unwrap();
        crate::frac::lemma_eq_trans(kv, crate::matrix::ideal_dot(k, innov, i, 0, 3), frac_int(0));
        assert(kv.n == 0);
        assert(i / 1 == i && i % 1 == 0) by (nonlinear_arith)
            requires
                0 <= i,
        ;
        assert(ent(kin, i, 0) == kin.e[i * 1 + 0]);
        assert(kin.e[i] == kv);
        // The corrected entry is the checked sum of the old entry and zero.
        assert(crate::matrix::add_at(x, kin, i).is_some());
        assert(x.e[i * 1 + 0] == ent(x, i, 0));
        let sv = crate::matrix::add_at(x, kin, i).unwrap();
        assert(sv == frac_checked(frac_add(ent(x, i, 0), kv)).unwrap());
        crate::matrix::lemma_ent_wf(x, i, 0);
        assert(frac_add(ent(x, i, 0), kv).d >= 1) by (nonlinear_arith)
            requires
                ent(x, i, 0).d >= 1,
                kv.d >= 1,
                frac_add(ent(x, i, 0), kv).d == ent(x, i, 0).d * kv.d,
        ;
        crate::frac::lemma_checked_sound(frac_add(ent(x, i, 0), kv));
        crate::frac::lemma_add_zero(ent(x, i, 0), kv);
        crate::frac::lemma_eq_trans(sv, frac_add(ent(x, i, 0), kv), ent(x, i, 0));
        assert(ent(correct_x_v(h, r, x, p, z), i, 0) == sv);
    }
}

} // verus!
