//! Telemetry channels and best-effort fan-out.
//!
//! Estimators broadcast each estimate to every live subscriber and prune the
//! ones whose receiving end is gone; when none is left the caller stops.  The
//! channel endpoints themselves come from the standard library and are
//! trusted; the pruning policy is verified.

use crate::data::Telemetry;
use std::sync::mpsc::{Receiver, Sender};
use vstd::prelude::*;

verus! {

#[verifier::external_type_specification]
#[verifier::external_body]
#[verifier::reject_recursive_types(T)]
pub struct ExSender<T>(Sender<T>);

#[verifier::external_type_specification]
#[verifier::external_body]
#[verifier::reject_recursive_types(T)]
pub struct ExReceiver<T>(Receiver<T>);

/// Relies on `std::sync::mpsc::Sender::send`: delivery fails exactly when the
/// receiving end has been dropped.  Nothing is promised about the outcome.
#[verifier::external_body]
pub fn send_telemetry(tx: &Sender<Telemetry>, t: Telemetry) -> (ok: bool) {
    tx.send(t).is_ok()
}

/// Relies on `std::sync::mpsc::Receiver::recv`: blocks until a message
/// arrives or every sender is dropped, in which case it reports the closed
/// channel.  Nothing is promised about which of the two happens.
#[verifier::external_body]
pub fn recv_telemetry(rx: &Receiver<Telemetry>) -> (r: Option<Telemetry>) {
    rx.recv().ok()
}

/// Attempt to send `sample` to every subscriber and keep, in order, exactly
/// those whose send succeeded.  Reports whether any subscriber is left.
pub fn fan_out(txs: &mut Vec<Sender<Telemetry>>, sample: Telemetry) -> (alive: bool)
    ensures
        final(txs)@.len() <= old(txs)@.len(),
        alive == (final(txs)@.len() > 0),
{
    let ghost n0 = txs@.len();
    let mut kept: Vec<Sender<Telemetry>> = Vec::new();
    while txs.len() > 0
        invariant
            kept@.len() + txs@.len() <= n0,
        decreases txs@.len(),
    {
        let s = txs.remove(0);
        if send_telemetry(&s, sample) {
            kept.push(s);
        }
    }
    let alive = kept.len() > 0;
    *txs = kept;
    alive
}

} // verus!
