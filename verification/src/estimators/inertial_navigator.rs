//! The inertial navigator: open-loop dead reckoning.
//!
//! After the shared bootstrap it advances the state mean with the same motion
//! model as the Kalman estimator, driven only by acceleration samples.  It
//! tracks no covariance and applies no correction, so its error grows with
//! time — which is the point: it shows unaided dead reckoning next to the
//! corrected Kalman output.

use crate::channel::fan_out;
use crate::data::{opt_est, run_view, Data, EstimateV, Telemetry};
use crate::errors::EstimatorError;
use crate::estimators::kalman::{
    b_top_at, col3_v, create_matrix_A, create_matrix_B, nominal_period, predict_mean_ok,
    predict_x_v,
};
use crate::estimators::{initialize_state_using_gps_data, state_wf};
use crate::frac::{frac_int, Frac};
use crate::matrix::{ent, mat_wf, MatV, Matrix};
use std::sync::mpsc::Sender;
use vstd::prelude::*;

verus! {

/// The inertial navigator: motion model, state mean and bootstrap progress.
pub struct InertialNavigator {
    /// Output subscribers, pruned as their receivers disappear.
    pub tx: Vec<Sender<Telemetry>>,
    /// State transition matrix.
    pub a: Matrix,
    /// Control matrix.
    pub b: Matrix,
    /// State mean: positions and velocities, as a 6-entry column.
    pub state: Matrix,
    /// Position fixes consumed by the bootstrap so far.
    pub gps_samples_received: u32,
    /// The first position fix, while bootstrapping.
    pub prev_gps_data: Data,
}

impl InertialNavigator {
    /// Structurally sound navigator.
    pub open spec fn wf(self) -> bool {
        &&& mat_wf(self.a@) && self.a@.rows == 6 && self.a@.cols == 6
        &&& mat_wf(self.b@) && self.b@.rows == 6 && self.b@.cols == 3
        &&& state_wf(self.state@)
        &&& self.prev_gps_data.wf()
    }

    /// Build the navigator: the same motion model as the Kalman estimator,
    /// a zero state, and an untouched bootstrap.
    pub fn new(tx: Vec<Sender<Telemetry>>, imu_freq: u32) -> (r: Result<
        InertialNavigator,
        EstimatorError,
    >)
        requires
            imu_freq >= 1,
        ensures
            ({
                let dtf = Frac { n: 1, d: imu_freq as int };
                &&& r.is_ok() == b_top_at(dtf).is_some()
                &&& r matches Err(e) ==> e == EstimatorError::Overflow
                &&& r matches Ok(f) ==> {
                    &&& f.wf()
                    &&& f.tx@ == tx@
                    &&& f.gps_samples_received == 0
                    &&& forall|i: int, j: int|
                        0 <= i < 6 && 0 <= j < 6 ==> #[trigger] ent(f.a@, i, j) == (if i == j {
                            frac_int(1)
                        } else if j == i + 3 {
                            dtf
                        } else {
                            frac_int(0)
                        })
                    &&& forall|i: int, j: int|
                        0 <= i < 6 && 0 <= j < 3 ==> #[trigger] ent(f.b@, i, j) == (if i == j {
                            b_top_at(dtf).unwrap()
                        } else if i == j + 3 {
                            dtf
                        } else {
                            frac_int(0)
                        })
                    &&& forall|i: int| 0 <= i < 6 ==> ent(f.state@, i, 0) == frac_int(0)
                }
            }),
    {
        let dt = nominal_period(imu_freq);
        let a = create_matrix_A(&dt);
        let b = match create_matrix_B(&dt) {
            None => {
                return Err(EstimatorError::Overflow);
            },
            Some(m) => m,
        };
        let state = Matrix::zeros(6, 1);
        proof {
            assert forall|i: int| 0 <= i < 6 implies ent(state@, i, 0) == frac_int(0) by {
                assert(state@.e[i * 1 + 0] == frac_int(0));
            }
        }
        Ok(
            InertialNavigator {
                tx,
                a,
                b,
                state,
                gps_samples_received: 0,
                prev_gps_data: Data::new(0),
            },
        )
    }

    /// Consume one telemetry sample, observed at `now_ns`.
    ///
    /// While fewer than two position fixes have been seen, the sample only
    /// feeds the bootstrap and nothing is emitted.  Afterwards each
    /// acceleration sample advances the mean by the motion model and the
    /// position estimate is broadcast and returned; position samples are
    /// received but change nothing and emit nothing.
    pub fn step(&mut self, telemetry: &Telemetry, now_ns: u64) -> (r: Result<
        Option<Data>,
        EstimatorError,
    >)
        requires
            old(self).wf(),
            telemetry.wf(),
            old(self).gps_samples_received < u32::MAX,
        ensures
            final(self).wf(),
            final(self).a@ == old(self).a@ && final(self).b@ == old(self).b@,
            final(self).tx@.len() <= old(self).tx@.len(),
            old(self).gps_samples_received < 2 ==> ({
                &&& r matches Ok(o) ==> o is None
                &&& final(self).tx@ == old(self).tx@
                &&& telemetry matches Telemetry::Acceleration(_) ==> r.is_ok() && final(self).gps_samples_received == old(self).gps_samples_received && final(self).state@
                    == old(self).state@ && final(self).prev_gps_data == old(self).prev_gps_data
                &&& telemetry matches Telemetry::Position(d) ==> (old(self).gps_samples_received
                    == 0 ==> r.is_ok() && final(self).gps_samples_received == 1 && final(self).state@ == old(self).state@ && final(self).prev_gps_data == d)
                &&& telemetry matches Telemetry::Position(d) ==> (old(self).gps_samples_received
                    == 1 ==> ({
                    let p = old(self).prev_gps_data;
                    let vx = crate::estimators::boot_component(d.x@, p.x@, p.timestamp, d.timestamp);
                    let vy = crate::estimators::boot_component(d.y@, p.y@, p.timestamp, d.timestamp);
                    let vz = crate::estimators::boot_component(d.z@, p.z@, p.timestamp, d.timestamp);
                    &&& final(self).prev_gps_data == p
                    &&& r.is_ok() == (crate::estimators::elapsed_seconds_result(
                        p.timestamp,
                        d.timestamp,
                    ).is_ok() && vx.is_some() && vy.is_some() && vz.is_some())
                    &&& r matches Ok(_) ==> final(self).gps_samples_received == 2 && ent(
                        final(self).state@,
                        0,
                        0,
                    ) == d.x@ && ent(final(self).state@, 1, 0) == d.y@ && ent(
                        final(self).state@,
                        2,
                        0,
                    ) == d.z@ && ent(final(self).state@, 3, 0) == vx.unwrap() && ent(
                        final(self).state@,
                        4,
                        0,
                    ) == vy.unwrap() && ent(final(self).state@, 5, 0) == vz.unwrap()
                    &&& r matches Err(_) ==> final(self).state@ == old(self).state@
                    &&& r matches Err(e) ==> e == (match crate::estimators::elapsed_seconds_result(
                        p.timestamp,
                        d.timestamp,
                    ) {
                        Err(de) => de,
                        Ok(_) => EstimatorError::Overflow,
                    })
                }))
            }),
            old(self).gps_samples_received >= 2 ==> ({
                &&& final(self).gps_samples_received == old(self).gps_samples_received
                &&& final(self).prev_gps_data == old(self).prev_gps_data
                &&& telemetry matches Telemetry::Position(_) ==> (r matches Ok(o) && o is None
                    && final(self).state@ == old(self).state@ && final(self).tx@ == old(self).tx@)
                &&& telemetry matches Telemetry::Acceleration(u) ==> ({
                    &&& r.is_ok() == predict_mean_ok(
                        old(self).a@,
                        old(self).b@,
                        old(self).state@,
                        col3_v(*u),
                    )
                    &&& r matches Ok(o) ==> final(self).state@ == predict_x_v(
                        old(self).a@,
                        old(self).b@,
                        old(self).state@,
                        col3_v(*u),
                    ) && (o matches Some(e) && e.timestamp == now_ns && e.x@ == ent(
                        final(self).state@,
                        0,
                        0,
                    ) && e.y@ == ent(final(self).state@, 1, 0) && e.z@ == ent(
                        final(self).state@,
                        2,
                        0,
                    ))
                    &&& r matches Err(e) ==> e == EstimatorError::Overflow && final(self).state@
                        == old(self).state@ && final(self).tx@ == old(self).tx@
                })
            }),
    {
        if self.gps_samples_received < 2 {
            let rb = initialize_state_using_gps_data(
                telemetry,
                &mut self.gps_samples_received,
                &mut self.state,
                &mut self.prev_gps_data,
            );
            return match rb {
                Ok(_) => Ok(None),
                Err(e) => Err(e),
            };
        }
        match telemetry {
            Telemetry::Acceleration(u) => {
                let uc = crate::estimators::kalman::col3(u);
                let t1 = match self.a.try_mul(&self.state) {
                    None => {
                        return Err(EstimatorError::Overflow);
                    },
                    Some(m) => m,
                };
                proof {
                    crate::matrix::lemma_is_mul(t1@, self.a@, self.state@);
                }
                let t2 = match self.b.try_mul(&uc) {
                    None => {
                        return Err(EstimatorError::Overflow);
                    },
                    Some(m) => m,
                };
                proof {
                    crate::matrix::lemma_is_mul(t2@, self.b@, uc@);
                }
                let xnew = match t1.try_add(&t2) {
                    None => {
                        return Err(EstimatorError::Overflow);
                    },
                    Some(m) => m,
                };
                proof {
                    crate::matrix::lemma_is_add(xnew@, t1@, t2@);
                }
                self.state = xnew;
                let estimate = Data {
                    x: self.state.get(0, 0),
                    y: self.state.get(1, 0),
                    z: self.state.get(2, 0),
                    timestamp: now_ns,
                };
                fan_out(&mut self.tx, Telemetry::Position(estimate));
                Ok(Some(estimate))
            },
            Telemetry::Position(_) => Ok(None),
        }
    }

    /// Whether any output subscriber is still live.
    pub fn has_subscribers(&self) -> (r: bool)
        ensures
            r == (self.tx@.len() > 0),
    {
        self.tx.len() > 0
    }
}

/// Mathematical state of the navigator: bootstrap progress, the recorded
/// first fix (once one arrived), and the state mean.
#[verifier::ext_equal]
pub struct NavV {
    pub count: int,
    pub prev: Option<Data>,
    pub state: MatV,
}

/// The model state transition matrix for the nominal period.
pub open spec fn a_v(dtf: Frac) -> MatV {
    MatV {
        rows: 6,
        cols: 6,
        e: Seq::new(
            36,
            |t: int|
                if t / 6 == t % 6 {
                    frac_int(1)
                } else if t % 6 == t / 6 + 3 {
                    dtf
                } else {
                    frac_int(0)
                },
        ),
    }
}

/// The model control matrix for the nominal period.
pub open spec fn b_v(dtf: Frac) -> MatV {
    MatV {
        rows: 6,
        cols: 3,
        e: Seq::new(
            18,
            |t: int|
                if t / 3 == t % 3 {
                    b_top_at(dtf).unwrap()
                } else if t / 3 == t % 3 + 3 {
                    dtf
                } else {
                    frac_int(0)
                },
        ),
    }
}

/// The zero state column.
pub open spec fn state0_v() -> MatV {
    MatV { rows: 6, cols: 1, e: Seq::new(6, |t: int| frac_int(0)) }
}

/// The state the bootstrap derives from a recorded fix `p` and a second fix
/// `d`: positions from `d`, velocities by finite difference.
pub open spec fn boot_state_v(d: Data, p: Data) -> MatV {
    MatV {
        rows: 6,
        cols: 1,
        e: seq![
            d.x@,
            d.y@,
            d.z@,
            crate::estimators::boot_component(d.x@, p.x@, p.timestamp, d.timestamp).unwrap(),
            crate::estimators::boot_component(d.y@, p.y@, p.timestamp, d.timestamp).unwrap(),
            crate::estimators::boot_component(d.z@, p.z@, p.timestamp, d.timestamp).unwrap(),
        ],
    }
}

/// One navigator step as a mathematical function of the state and the
/// sample.
pub open spec fn nav_step_v(dtf: Frac, s: NavV, t: Telemetry, now: u64) -> Result<
    (NavV, Option<EstimateV>),
    EstimatorError,
> {
    if s.count < 2 {
        match t {
            Telemetry::Acceleration(_) => Ok((s, None)),
            Telemetry::Position(d) => {
                if s.count == 0 {
                    Ok((NavV { count: 1, prev: Some(d), state: s.state }, None))
                } else {
                    let p = s.prev.unwrap();
                    let dtr = crate::estimators::elapsed_seconds_result(p.timestamp, d.timestamp);
                    let vx = crate::estimators::boot_component(
                        d.x@,
                        p.x@,
                        p.timestamp,
                        d.timestamp,
                    );
                    let vy = crate::estimators::boot_component(
                        d.y@,
                        p.y@,
                        p.timestamp,
                        d.timestamp,
                    );
                    let vz = crate::estimators::boot_component(
                        d.z@,
                        p.z@,
                        p.timestamp,
                        d.timestamp,
                    );
                    if dtr.is_ok() && vx.is_some() && vy.is_some() && vz.is_some() {
                        Ok(
                            (
                                NavV { count: s.count + 1, prev: s.prev, state: boot_state_v(d, p) },
                                None,
                            ),
                        )
                    } else {
                        Err(
                            match dtr {
                                Err(de) => de,
                                Ok(_) => EstimatorError::Overflow,
                            },
                        )
                    }
                }
            },
        }
    } else {
        match t {
            Telemetry::Position(_) => Ok((s, None)),
            Telemetry::Acceleration(u) => {
                if predict_mean_ok(a_v(dtf), b_v(dtf), s.state, col3_v(u)) {
                    let ns = predict_x_v(a_v(dtf), b_v(dtf), s.state, col3_v(u));
                    Ok(
                        (
                            NavV { count: s.count, prev: s.prev, state: ns },
                            Some(
                                EstimateV {
                                    x: ent(ns, 0, 0),
                                    y: ent(ns, 1, 0),
                                    z: ent(ns, 2, 0),
                                    timestamp: now,
                                },
                            ),
                        ),
                    )
                } else {
                    Err(EstimatorError::Overflow)
                }
            },
        }
    }
}

/// A whole navigator run: every emission when no step fails, the first
/// failure otherwise.
pub open spec fn nav_run_v(dtf: Frac, s: NavV, inputs: Seq<(Telemetry, u64)>) -> Result<
    Seq<Option<EstimateV>>,
    EstimatorError,
>
    decreases inputs.len(),
{
    if inputs.len() == 0 {
        Ok(Seq::empty())
    } else {
        match nav_step_v(dtf, s, inputs[0].0, inputs[0].1) {
            Err(e) => Err(e),
            Ok((s2, out)) => match nav_run_v(dtf, s2, inputs.drop_first()) {
                Err(e) => Err(e),
                Ok(rest) => Ok(seq![out] + rest),
            },
        }
    }
}

/// An entrywise table description pins the model transition matrix.
proof fn lemma_is_a_v(m: MatV, dtf: Frac)
    requires
        m.rows == 6,
        m.cols == 6,
        m.e.len() == 36,
        forall|i: int, j: int|
            0 <= i < 6 && 0 <= j < 6 ==> #[trigger] ent(m, i, j) == (if i == j {
                frac_int(1)
            } else if j == i + 3 {
                dtf
            } else {
                frac_int(0)
            }),
    ensures
        m == a_v(dtf),
{
    assert forall|t: int| 0 <= t < 36 implies #[trigger] m.e[t] == a_v(dtf).e[t] by {
        let i = t / 6;
        let j = t % 6;
        vstd::arithmetic::div_mod::lemma_fundamental_div_mod(t, 6);
        assert(t == i * 6 + j);
        assert(ent(m, i, j) == m.e[t]);
    }
    assert(m.e =~= a_v(dtf).e);
    assert(m =~= a_v(dtf));
}

/// An entrywise table description pins the model control matrix.
proof fn lemma_is_b_v(m: MatV, dtf: Frac)
    requires
        m.rows == 6,
        m.cols == 3,
        m.e.len() == 18,
        forall|i: int, j: int|
            0 <= i < 6 && 0 <= j < 3 ==> #[trigger] ent(m, i, j) == (if i == j {
                b_top_at(dtf).unwrap()
            } else if i == j + 3 {
                dtf
            } else {
                frac_int(0)
            }),
    ensures
        m == b_v(dtf),
{
    assert forall|t: int| 0 <= t < 18 implies #[trigger] m.e[t] == b_v(dtf).e[t] by {
        let i = t / 3;
        let j = t % 3;
        vstd::arithmetic::div_mod::lemma_fundamental_div_mod(t, 3);
        assert(t == i * 3 + j);
        assert(ent(m, i, j) == m.e[t]);
    }
    assert(m.e =~= b_v(dtf).e);
    assert(m =~= b_v(dtf));
}

/// Feed a whole sample sequence through a freshly constructed inertial
/// navigator with no subscribers and collect what each step emits.
#[verifier::rlimit(100)]
pub fn process_sequence(imu_freq: u32, inputs: &Vec<(Telemetry, u64)>) -> (r: Result<
    Vec<Option<Data>>,
    EstimatorError,
>)
    requires
        imu_freq >= 1,
        b_top_at(Frac { n: 1, d: imu_freq as int }).is_some(),
        inputs@.len() < u32::MAX,
        forall|k: int| 0 <= k < inputs@.len() ==> (#[trigger] inputs@[k].0).wf(),
    ensures
        run_view(r) == nav_run_v(
            Frac { n: 1, d: imu_freq as int },
            NavV { count: 0, prev: None, state: state0_v() },
            inputs@,
        ),
{
    let ghost dtf = Frac { n: 1, d: imu_freq as int };
    let mut nav = match InertialNavigator::new(Vec::new(), imu_freq) {
        Err(_) => {
            proof {
                assert(false);
            }
            return Err(EstimatorError::Overflow);
        },
        Ok(n) => n,
    };
    proof {
        lemma_is_a_v(nav.a@, dtf);
        lemma_is_b_v(nav.b@, dtf);
        assert forall|t: int| 0 <= t < 6 implies #[trigger] nav.state@.e[t] == state0_v().e[t] by {
            assert(ent(nav.state@, t, 0) == nav.state@.e[t * 1 + 0]);
        }
        assert(nav.state@.e =~= state0_v().e);
        assert(nav.state@ =~= state0_v());
    }
    let ghost s0 = NavV { count: 0, prev: None, state: state0_v() };
    let ghost mut cur = s0;
    let mut outs: Vec<Option<Data>> = Vec::new();
    let n = inputs.len();
    let mut k: usize = 0;
    proof {
        assert(inputs@.skip(0) =~= inputs@);
        assert(outs@.map_values(|q: Option<Data>| opt_est(q)) =~= Seq::<
            Option<EstimateV>,
        >::empty());
        match nav_run_v(dtf, cur, inputs@) {
            Err(_) => {},
            Ok(rest) => {
                assert(Seq::<Option<EstimateV>>::empty() + rest =~= rest);
            },
        }
    }
    while k < n
        invariant
            imu_freq >= 1,
            dtf == (Frac { n: 1, d: imu_freq as int }),
            s0 == (NavV { count: 0, prev: None::<Data>, state: state0_v() }),
            forall|j: int| 0 <= j < inputs@.len() ==> (#[trigger] inputs@[j].0).wf(),
            n == inputs@.len(),
            n < u32::MAX,
            k <= n,
            nav.wf(),
            nav.a@ == a_v(dtf),
            nav.b@ == b_v(dtf),
            nav.tx@.len() == 0,
            nav.gps_samples_received as int == cur.count,
            0 <= cur.count <= 2,
            cur.count >= 1 ==> cur.prev == Some(nav.prev_gps_data),
            nav.state@ == cur.state,
            outs@.len() == k,
            nav_run_v(dtf, s0, inputs@) == (match nav_run_v(dtf, cur, inputs@.skip(k as int)) {
                Ok(rest) => Ok(outs@.map_values(|o: Option<Data>| opt_est(o)) + rest),
                Err(e) => Err(e),
            }),
        decreases n - k,
    {
        let t = inputs[k].0;
        let now = inputs[k].1;
        let ghost tail = inputs@.skip(k as int);
        proof {
            assert(tail[0] == inputs@[k as int]);
            assert(tail.drop_first() =~= inputs@.skip(k as int + 1));
        }
        let step = nav.step(&t, now);
        match step {
            Err(e) => {
                proof {
                    assert(nav_step_v(dtf, cur, t, now) == Err::<
                        (NavV, Option<EstimateV>),
                        EstimatorError,
                    >(e));
                    assert(nav_run_v(dtf, cur, tail) == Err::<
                        Seq<Option<EstimateV>>,
                        EstimatorError,
                    >(e));
                }
                return Err(e);
            },
            Ok(o) => {
                proof {
                    let stepped = nav_step_v(dtf, cur, t, now);
                    assert(stepped.is_ok());
                    let (s2, out) = stepped.unwrap();
                    if cur.count == 1 && (t matches Telemetry::Position(_)) {
                        let d = (match t {
                            Telemetry::Position(d) => d,
                            Telemetry::Acceleration(d) => d,
                        });
                        let p = cur.prev.unwrap();
                        assert forall|w: int| 0 <= w < 6 implies #[trigger] nav.state@.e[w]
                            == boot_state_v(d, p).e[w] by {
                            assert(ent(nav.state@, w, 0) == nav.state@.e[w * 1 + 0]);
                        }
                        assert(nav.state@.e =~= boot_state_v(d, p).e);
                        assert(nav.state@ =~= boot_state_v(d, p));
                    }
                    if cur.count >= 2 && (t matches Telemetry::Acceleration(_)) {
                        let u = (match t {
                            Telemetry::Position(d) => d,
                            Telemetry::Acceleration(d) => d,
                        });
                        assert(nav.state@ == predict_x_v(a_v(dtf), b_v(dtf), cur.state, col3_v(u)));
                    }
                    assert(nav.state@ == s2.state);
                    assert(opt_est(o) == out);
                    cur = s2;
                }
                let ghost outs_prev = outs@;
                outs.push(o);
                proof {
                    let mapped_prev = outs_prev.map_values(|q: Option<Data>| opt_est(q));
                    let mapped = outs@.map_values(|q: Option<Data>| opt_est(q));
                    assert(mapped =~= mapped_prev.push(opt_est(o)));
                    match nav_run_v(dtf, cur, inputs@.skip(k as int + 1)) {
                        Err(_) => {},
                        Ok(rest) => {
                            assert(mapped_prev + (seq![opt_est(o)] + rest) =~= mapped + rest);
                        },
                    }
                }
                k = k + 1;
            },
        }
    }
    proof {
        assert(inputs@.skip(n as int) =~= Seq::<(Telemetry, u64)>::empty());
        assert(nav_run_v(dtf, cur, inputs@.skip(n as int)) == Ok::<
            Seq<Option<EstimateV>>,
            EstimatorError,
        >(Seq::empty()));
        assert(outs@.map_values(|q: Option<Data>| opt_est(q)) + Seq::<
            Option<EstimateV>,
        >::empty() =~= outs@.map_values(|q: Option<Data>| opt_est(q)));
        assert(run_view(Ok(outs)) == nav_run_v(dtf, s0, inputs@));
    }
    Ok(outs)
}

/// Re-running the same deterministic sample sequence through a freshly
/// constructed inertial navigator always yields the same sequence of emitted
/// estimates: the outcome is a function of the configuration and the inputs
/// alone, with no hidden state.
pub proof fn lemma_nav_rerun_deterministic(
    dtf: Frac,
    s: NavV,
    inputs: Seq<(Telemetry, u64)>,
    r1: Result<Seq<Option<EstimateV>>, EstimatorError>,
    r2: Result<Seq<Option<EstimateV>>, EstimatorError>,
)
    requires
        r1 == nav_run_v(dtf, s, inputs),
        r2 == nav_run_v(dtf, s, inputs),
    ensures
        r1 == r2,
{
}

} // verus!
