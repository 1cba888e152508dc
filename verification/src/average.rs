//! The moving-average estimator.
//!
//! A fixed-capacity sliding window of the most recent position samples; after
//! every position sample the estimator emits the exact arithmetic mean of the
//! window, one axis at a time.  Acceleration samples on a merged input are
//! ignored.

use crate::channel::fan_out;
use crate::data::{opt_est, run_view, Data, EstimateV, Telemetry};
use crate::errors::EstimatorError;
use crate::frac::{frac_add, frac_checked, frac_div, frac_int, Frac, Rational};
use std::collections::VecDeque;
use std::sync::mpsc::Sender;
use vstd::prelude::*;

verus! {

/// Checked left-to-right sum of the first `k` values.
pub open spec fn frac_sum(vals: Seq<Frac>, k: nat) -> Option<Frac>
    decreases k,
{
    if k == 0 {
        Some(frac_int(0))
    } else {
        match frac_sum(vals, (k - 1) as nat) {
            None => None,
            Some(acc) => frac_checked(frac_add(acc, vals[k - 1])),
        }
    }
}

/// Checked arithmetic mean of `vals`: the checked sum divided by the count.
/// Meaningful for a non-empty sequence.
pub open spec fn mean_at(vals: Seq<Frac>) -> Option<Frac> {
    match frac_sum(vals, vals.len()) {
        None => None,
        Some(s) => frac_checked(frac_div(s, frac_int(vals.len() as int))),
    }
}

/// Once a partial sum has failed, every longer prefix fails too.
proof fn lemma_sum_none_propagates(vals: Seq<Frac>, k1: nat, k2: nat)
    requires
        frac_sum(vals, k1).is_none(),
        k1 <= k2,
    ensures
        frac_sum(vals, k2).is_none(),
    decreases k2 - k1,
{
    if k1 < k2 {
        lemma_sum_none_propagates(vals, k1, (k2 - 1) as nat);
    }
}

/// The x components of a window.
pub open spec fn xs_of(s: Seq<Data>) -> Seq<Frac> {
    s.map_values(|d: Data| d.x@)
}

/// The y components of a window.
pub open spec fn ys_of(s: Seq<Data>) -> Seq<Frac> {
    s.map_values(|d: Data| d.y@)
}

/// The z components of a window.
pub open spec fn zs_of(s: Seq<Data>) -> Seq<Frac> {
    s.map_values(|d: Data| d.z@)
}

/// The moving-average estimator: a bounded window of position samples and the
/// output subscribers.
pub struct Average {
    /// Output subscribers, pruned as their receivers disappear.
    pub tx: Vec<Sender<Telemetry>>,
    /// The most recent position samples, oldest first.
    pub buffer: VecDeque<Data>,
    /// Window capacity.
    pub buffer_length: usize,
}

impl Average {
    /// Structurally sound estimator: a positive capacity the window never
    /// exceeds, and well-formed samples.
    pub open spec fn wf(self) -> bool {
        &&& 1 <= self.buffer_length <= i64::MAX
        &&& self.buffer@.len() <= self.buffer_length
        &&& forall|i: int| 0 <= i < self.buffer@.len() ==> (#[trigger] self.buffer@[i]).wf()
    }

    /// A fresh estimator with an empty window.
    pub fn new(tx: Vec<Sender<Telemetry>>, buffer_length: usize) -> (r: Average)
        requires
            1 <= buffer_length <= i64::MAX,
        ensures
            r.wf(),
            r.tx@ == tx@,
            r.buffer@.len() == 0,
            r.buffer_length == buffer_length,
    {
        Average { tx, buffer: VecDeque::new(), buffer_length }
    }

    /// Slide the window: drop the oldest sample once the window is full, then
    /// append the new one.
    pub fn handle_data_buffer(buffer: &mut VecDeque<Data>, new_data: Data, buffer_length: usize)
        requires
            buffer_length >= 1,
            old(buffer)@.len() <= buffer_length,
        ensures
            old(buffer)@.len() < buffer_length ==> final(buffer)@ == old(buffer)@.push(new_data),
            old(buffer)@.len() >= buffer_length ==> final(buffer)@ == old(buffer)@.subrange(
                1,
                old(buffer)@.len() as int,
            ).push(new_data),
            final(buffer)@.len() <= buffer_length,
    {
        if buffer.len() < buffer_length {
            buffer.push_back(new_data);
        } else {
            buffer.pop_front();
            buffer.push_back(new_data);
        }
    }

    /// The exact arithmetic mean of the window, stamped with `now_ns`.
    pub fn calculate_average(buffer: &VecDeque<Data>, now_ns: u64) -> (r: Result<
        Data,
        EstimatorError,
    >)
        requires
            1 <= buffer@.len() <= i64::MAX,
            forall|i: int| 0 <= i < buffer@.len() ==> (#[trigger] buffer@[i]).wf(),
        ensures
            r.is_ok() == (mean_at(xs_of(buffer@)).is_some() && mean_at(ys_of(buffer@)).is_some()
                && mean_at(zs_of(buffer@)).is_some()),
            r matches Ok(d) ==> d.wf() && d.timestamp == now_ns && d.x@ == mean_at(
                xs_of(buffer@),
            ).unwrap() && d.y@ == mean_at(ys_of(buffer@)).unwrap() && d.z@ == mean_at(
                zs_of(buffer@),
            ).unwrap(),
            r matches Err(e) ==> e == EstimatorError::Overflow,
    {
        let ghost xs = xs_of(buffer@);
        let ghost ys = ys_of(buffer@);
        let ghost zs = zs_of(buffer@);
        let n = buffer.len();
        let mut sum_x = Rational::zero();
        let mut sum_y = Rational::zero();
        let mut sum_z = Rational::zero();
        let mut k: usize = 0;
        while k < n
            invariant
                n == buffer@.len(),
                1 <= n <= i64::MAX,
                forall|i: int| 0 <= i < buffer@.len() ==> (#[trigger] buffer@[i]).wf(),
                xs == xs_of(buffer@),
                ys == ys_of(buffer@),
                zs == zs_of(buffer@),
                k <= n,
                sum_x.wf(),
                sum_y.wf(),
                sum_z.wf(),
                Some(sum_x@) == frac_sum(xs, k as nat),
                Some(sum_y@) == frac_sum(ys, k as nat),
                Some(sum_z@) == frac_sum(zs, k as nat),
            decreases n - k,
        {
            let d = buffer[k];
            proof {
                assert(xs[k as int] == buffer@[k as int].x@);
                assert(ys[k as int] == buffer@[k as int].y@);
                assert(zs[k as int] == buffer@[k as int].z@);
            }
            sum_x = match sum_x.try_add(&d.x) {
                None => {
                    proof {
                        lemma_sum_none_propagates(xs, (k + 1) as nat, n as nat);
                    }
                    return Err(EstimatorError::Overflow);
                },
                Some(v) => v,
            };
            sum_y = match sum_y.try_add(&d.y) {
                None => {
                    proof {
                        lemma_sum_none_propagates(ys, (k + 1) as nat, n as nat);
                    }
                    return Err(EstimatorError::Overflow);
                },
                Some(v) => v,
            };
            sum_z = match sum_z.try_add(&d.z) {
                None => {
                    proof {
                        lemma_sum_none_propagates(zs, (k + 1) as nat, n as nat);
                    }
                    return Err(EstimatorError::Overflow);
                },
                Some(v) => v,
            };
            k = k + 1;
        }
        let count = Rational::from_int(n as i64);
        let mx = match sum_x.try_div(&count) {
            None => {
                return Err(EstimatorError::Overflow);
            },
            Some(v) => v,
        };
        let my = match sum_y.try_div(&count) {
            None => {
                return Err(EstimatorError::Overflow);
            },
            Some(v) => v,
        };
        let mz = match sum_z.try_div(&count) {
            None => {
                return Err(EstimatorError::Overflow);
            },
            Some(v) => v,
        };
        Ok(Data { x: mx, y: my, z: mz, timestamp: now_ns })
    }

    /// Consume one telemetry sample, observed at `now_ns`.
    ///
    /// A position sample slides the window and the exact mean of the window
    /// is broadcast and returned; anything else is ignored.
    pub fn step(&mut self, telemetry: &Telemetry, now_ns: u64) -> (r: Result<
        Option<Data>,
        EstimatorError,
    >)
        requires
            old(self).wf(),
            telemetry.wf(),
        ensures
            final(self).wf(),
            final(self).buffer_length == old(self).buffer_length,
            final(self).tx@.len() <= old(self).tx@.len(),
            telemetry matches Telemetry::Acceleration(_) ==> (r matches Ok(o) && o is None && final(self).buffer@ == old(self).buffer@ && final(self).tx@ == old(self).tx@),
            telemetry matches Telemetry::Position(d) ==> ({
                let slid = if old(self).buffer@.len() < old(self).buffer_length {
                    old(self).buffer@.push(*d)
                } else {
                    old(self).buffer@.subrange(1, old(self).buffer@.len() as int).push(*d)
                };
                &&& final(self).buffer@ == slid
                &&& r.is_ok() == (mean_at(xs_of(slid)).is_some() && mean_at(ys_of(slid)).is_some()
                    && mean_at(zs_of(slid)).is_some())
                &&& r matches Ok(o) ==> (o matches Some(e) && e.wf() && e.timestamp == now_ns
                    && e.x@ == mean_at(xs_of(slid)).unwrap() && e.y@ == mean_at(
                    ys_of(slid),
                ).unwrap() && e.z@ == mean_at(zs_of(slid)).unwrap())
                &&& r matches Err(e) ==> e == EstimatorError::Overflow && final(self).tx@ == old(self).tx@
            }),
    {
        match telemetry {
            Telemetry::Position(d) => {
                Average::handle_data_buffer(&mut self.buffer, *d, self.buffer_length);
                let avg = match Average::calculate_average(&self.buffer, now_ns) {
                    Err(e) => {
                        return Err(e);
                    },
                    Ok(a) => a,
                };
                fan_out(&mut self.tx, Telemetry::Position(avg));
                Ok(Some(avg))
            },
            Telemetry::Acceleration(_) => Ok(None),
        }
    }

    /// Whether any output subscriber is still live.
    pub fn has_subscribers(&self) -> (r: bool)
        ensures
            r == (self.tx@.len() > 0),
    {
        self.tx.len() > 0
    }
}

/// The exact (unreduced) sum of the first `k` values.
pub open spec fn ideal_sum(vals: Seq<Frac>, k: nat) -> Frac
    decreases k,
{
    if k == 0 {
        frac_int(0)
    } else {
        frac_add(ideal_sum(vals, (k - 1) as nat), vals[k - 1])
    }
}

/// The exact sum keeps a positive denominator.
proof fn lemma_ideal_sum_den(vals: Seq<Frac>, k: nat)
    requires
        forall|i: int| 0 <= i < k ==> (#[trigger] vals[i]).d >= 1,
    ensures
        ideal_sum(vals, k).d >= 1,
    decreases k,
{
    if k > 0 {
        lemma_ideal_sum_den(vals, (k - 1) as nat);
        let acc = ideal_sum(vals, (k - 1) as nat);
        assert(frac_add(acc, vals[k - 1]).d >= 1) by (nonlinear_arith)
            requires
                acc.d >= 1,
                vals[k - 1].d >= 1,
                frac_add(acc, vals[k - 1]).d == acc.d * vals[k - 1].d,
        ;
    }
}

/// A successful checked sum equals the exact sum in value.
proof fn lemma_sum_sound(vals: Seq<Frac>, k: nat)
    requires
        forall|i: int| 0 <= i < k ==> (#[trigger] vals[i]).d >= 1,
        frac_sum(vals, k).is_some(),
    ensures
        crate::frac::frac_wf(frac_sum(vals, k).unwrap()),
        crate::frac::frac_eq(frac_sum(vals, k).unwrap(), ideal_sum(vals, k)),
    decreases k,
{
    if k > 0 {
        if frac_sum(vals, (k - 1) as nat).is_none() {
            lemma_sum_none_propagates(vals, (k - 1) as nat, k);
        }
        lemma_sum_sound(vals, (k - 1) as nat);
        lemma_ideal_sum_den(vals, (k - 1) as nat);
        let acc = frac_sum(vals, (k - 1) as nat).unwrap();
        let v = vals[k - 1];
        let raw = frac_add(acc, v);
        assert(raw.d >= 1) by (nonlinear_arith)
            requires
                acc.d >= 1,
                v.d >= 1,
                raw.d == acc.d * v.d,
        ;
        crate::frac::lemma_checked_sound(raw);
        crate::frac::lemma_add_congruence(acc, ideal_sum(vals, (k - 1) as nat), v, v);
        let idl = frac_add(ideal_sum(vals, (k - 1) as nat), v);
        assert(idl.d >= 1) by (nonlinear_arith)
            requires
                ideal_sum(vals, (k - 1) as nat).d >= 1,
                v.d >= 1,
                idl.d == ideal_sum(vals, (k - 1) as nat).d * v.d,
        ;
        crate::frac::lemma_eq_trans(frac_sum(vals, k).unwrap(), raw, idl);
    }
}

/// The moving-average output is the exact arithmetic mean: whenever the
/// checked mean exists, it equals, as a rational value, the exact sum of the
/// values divided by how many there are.
pub proof fn lemma_mean_exact(vals: Seq<Frac>)
    requires
        vals.len() >= 1,
        forall|i: int| 0 <= i < vals.len() ==> (#[trigger] vals[i]).d >= 1,
        mean_at(vals).is_some(),
    ensures
        crate::frac::frac_eq(
            mean_at(vals).unwrap(),
            frac_div(ideal_sum(vals, vals.len()), frac_int(vals.len() as int)),
        ),
{
    let n = vals.len();
    if frac_sum(vals, n).is_none() {
        assert(mean_at(vals).is_none());
    }
    lemma_sum_sound(vals, n);
    lemma_ideal_sum_den(vals, n);
    let s = frac_sum(vals, n).unwrap();
    let cnt = frac_int(n as int);
    let raw = frac_div(s, cnt);
    assert(raw.d >= 1) by (nonlinear_arith)
        requires
            s.d >= 1,
            cnt.n >= 1,
            cnt.d == 1,
            raw == frac_div(s, cnt),
            raw == (if s.d * cnt.n < 0 {
                Frac { n: -(s.n * cnt.d), d: -(s.d * cnt.n) }
            } else {
                Frac { n: s.n * cnt.d, d: s.d * cnt.n }
            }),
    ;
    crate::frac::lemma_checked_sound(raw);
    crate::frac::lemma_div_congruence(s, ideal_sum(vals, n), cnt, cnt);
    crate::frac::lemma_eq_trans(
        mean_at(vals).unwrap(),
        raw,
        frac_div(ideal_sum(vals, n), cnt),
    );
}

/// One window slide.
pub open spec fn slide_v(w: Seq<Data>, cap: int, d: Data) -> Seq<Data> {
    if w.len() < cap {
        w.push(d)
    } else {
        w.subrange(1, w.len() as int).push(d)
    }
}

/// The window after the first `k` samples of the input sequence.
pub open spec fn avg_win(cap: int, inputs: Seq<(Telemetry, u64)>, k: nat) -> Seq<Data>
    decreases k,
{
    if k == 0 {
        Seq::empty()
    } else {
        let w = avg_win(cap, inputs, (k - 1) as nat);
        match inputs[k - 1].0 {
            Telemetry::Position(d) => slide_v(w, cap, d),
            Telemetry::Acceleration(_) => w,
        }
    }
}

/// Step `k` of the run computes its means without overflow (vacuous for an
/// ignored acceleration sample).
pub open spec fn avg_step_ok(cap: int, inputs: Seq<(Telemetry, u64)>, k: nat) -> bool {
    match inputs[k as int].0 {
        Telemetry::Position(d) => {
            let w = slide_v(avg_win(cap, inputs, k), cap, d);
            mean_at(xs_of(w)).is_some() && mean_at(ys_of(w)).is_some() && mean_at(
                zs_of(w),
            ).is_some()
        },
        Telemetry::Acceleration(_) => true,
    }
}

/// Every step of the run computes without overflow.
pub open spec fn avg_all_ok(cap: int, inputs: Seq<(Telemetry, u64)>) -> bool {
    forall|k: nat| k < inputs.len() ==> #[trigger] avg_step_ok(cap, inputs, k)
}

/// What step `k` emits.
pub open spec fn avg_out(cap: int, inputs: Seq<(Telemetry, u64)>, k: nat) -> Option<EstimateV> {
    match inputs[k as int].0 {
        Telemetry::Position(d) => {
            let w = slide_v(avg_win(cap, inputs, k), cap, d);
            Some(
                EstimateV {
                    x: mean_at(xs_of(w)).unwrap(),
                    y: mean_at(ys_of(w)).unwrap(),
                    z: mean_at(zs_of(w)).unwrap(),
                    timestamp: inputs[k as int].1,
                },
            )
        },
        Telemetry::Acceleration(_) => None,
    }
}

/// What a whole run emits: every estimate when no step overflows, the
/// overflow otherwise.
pub open spec fn avg_run(cap: int, inputs: Seq<(Telemetry, u64)>) -> Result<
    Seq<Option<EstimateV>>,
    EstimatorError,
> {
    if avg_all_ok(cap, inputs) {
        Ok(Seq::new(inputs.len(), |k: int| avg_out(cap, inputs, k as nat)))
    } else {
        Err(EstimatorError::Overflow)
    }
}

/// Feed a whole sample sequence through a freshly constructed
/// moving-average estimator with no subscribers and collect what each step
/// emits.
pub fn process_sequence(buffer_length: usize, inputs: &Vec<(Telemetry, u64)>) -> (r: Result<
    Vec<Option<Data>>,
    EstimatorError,
>)
    requires
        1 <= buffer_length <= i64::MAX,
        forall|k: int| 0 <= k < inputs@.len() ==> (#[trigger] inputs@[k].0).wf(),
    ensures
        run_view(r) == avg_run(buffer_length as int, inputs@),
{
    let ghost cap = buffer_length as int;
    let mut est = Average::new(Vec::new(), buffer_length);
    let mut outs: Vec<Option<Data>> = Vec::new();
    let n = inputs.len();
    let mut k: usize = 0;
    while k < n
        invariant
            1 <= buffer_length <= i64::MAX,
            cap == buffer_length as int,
            forall|j: int| 0 <= j < inputs@.len() ==> (#[trigger] inputs@[j].0).wf(),
            n == inputs@.len(),
            k <= n,
            est.wf(),
            est.buffer_length == buffer_length,
            est.tx@.len() == 0,
            est.buffer@ == avg_win(cap, inputs@, k as nat),
            outs@.len() == k,
            forall|j: nat|
                j < k ==> #[trigger] avg_step_ok(cap, inputs@, j) && opt_est(outs@[j as int])
                    == avg_out(cap, inputs@, j),
        decreases n - k,
    {
        let t = inputs[k].0;
        let now = inputs[k].1;
        let step = est.step(&t, now);
        match step {
            Err(e) => {
                proof {
                    assert(!avg_step_ok(cap, inputs@, k as nat));
                    assert(!avg_all_ok(cap, inputs@));
                }
                return Err(EstimatorError::Overflow);
            },
            Ok(o) => {
                proof {
                    assert(avg_step_ok(cap, inputs@, k as nat));
                    assert(opt_est(o) == avg_out(cap, inputs@, k as nat));
                    assert(est.buffer@ == avg_win(cap, inputs@, (k + 1) as nat));
                }
                outs.push(o);
                k = k + 1;
            },
        }
    }
    proof {
        assert(avg_all_ok(cap, inputs@)) by {
            assert forall|j: nat| j < inputs@.len() implies #[trigger] avg_step_ok(
                cap,
                inputs@,
                j,
            ) by {
                assert(j < k as nat);
                assert(avg_step_ok(cap, inputs@, j));
            }
        }
        let m = outs@.map_values(|o: Option<Data>| opt_est(o));
        let spec_outs = Seq::new(inputs@.len(), |j: int| avg_out(cap, inputs@, j as nat));
        assert forall|j: int| 0 <= j < m.len() implies m[j] == spec_outs[j] by {
            assert(avg_step_ok(cap, inputs@, j as nat));
            assert(opt_est(outs@[j]) == avg_out(cap, inputs@, j as nat));
        }
        assert(m =~= spec_outs);
    }
    Ok(outs)
}

/// Re-running the same deterministic sample sequence through a freshly
/// constructed moving-average estimator always yields the same sequence of
/// emitted estimates: the outcome is a function of the configuration and the
/// inputs alone, with no hidden state.
pub proof fn lemma_rerun_deterministic(
    cap: int,
    inputs: Seq<(Telemetry, u64)>,
    r1: Result<Seq<Option<EstimateV>>, EstimatorError>,
    r2: Result<Seq<Option<EstimateV>>, EstimatorError>,
)
    requires
        r1 == avg_run(cap, inputs),
        r2 == avg_run(cap, inputs),
    ensures
        r1 == r2,
{
}

} // verus!
