//! Wiring between producers and consumers.
//!
//! The registry collects, per data source, the sending endpoints that should
//! receive that source's output.  Each consumer claims the senders registered
//! for it exactly once, taking ownership.

use crate::data::Telemetry;
use std::sync::mpsc::Sender;
use vstd::prelude::*;

verus! {

/// The producers whose output consumers can subscribe to.
#[derive(Clone, Copy, Debug, PartialEq, Eq, Hash, Structural)]
pub enum DataSource {
    Imu,
    Gps,
    Kalman,
    Average,
}

/// Senders collected per data source.
pub struct CommunicationRegistry {
    sources: Vec<DataSource>,
    transmitters: Vec<Vec<Sender<Telemetry>>>,
}

impl CommunicationRegistry {
    /// Registered sources, by slot.
    pub closed spec fn sources_view(self) -> Seq<DataSource> {
        self.sources@
    }

    /// Registered senders, by slot.
    pub closed spec fn transmitters_view(self) -> Seq<Seq<Sender<Telemetry>>> {
        self.transmitters@.map_values(|v: Vec<Sender<Telemetry>>| v@)
    }

    /// One slot per source, each source on one slot only.
    pub open spec fn wf(self) -> bool {
        &&& self.sources_view().len() == self.transmitters_view().len()
        &&& forall|i: int, j: int|
            0 <= i < j < self.sources_view().len() ==> self.sources_view()[i]
                != self.sources_view()[j]
    }

    /// Some slot carries this source.
    pub open spec fn has_source(self, source: DataSource) -> bool {
        exists|i: int| 0 <= i < self.sources_view().len() && self.sources_view()[i] == source
    }

    /// An empty registry.
    pub fn new() -> (r: CommunicationRegistry)
        ensures
            r.wf(),
            r.sources_view().len() == 0,
    {
        CommunicationRegistry { sources: Vec::new(), transmitters: Vec::new() }
    }

    /// Register one sender for a source's output.
    pub fn register_for_input(&mut self, source: DataSource, transmitter: Sender<Telemetry>)
        requires
            old(self).wf(),
        ensures
            final(self).wf(),
            final(self).has_source(source),
            old(self).has_source(source) ==> final(self).sources_view() == old(
                self,
            ).sources_view() && forall|i: int|
                0 <= i < old(self).sources_view().len() ==> final(self).transmitters_view()[i] == (
                if old(self).sources_view()[i] == source {
                    old(self).transmitters_view()[i].push(transmitter)
                } else {
                    old(self).transmitters_view()[i]
                }),
            !old(self).has_source(source) ==> final(self).sources_view() == old(
                self,
            ).sources_view().push(source) && (forall|i: int|
                0 <= i < old(self).transmitters_view().len() ==> final(self).transmitters_view()[i]
                    == old(self).transmitters_view()[i]) && final(self).transmitters_view()[old(
                self,
            ).transmitters_view().len() as int].len() == 1,
    {
        let n = self.sources.len();
        let mut k: usize = 0;
        while k < n
            invariant
                old(self).wf(),
                *self == *old(self),
                n == self.sources@.len(),
                self.transmitters@.len() == n,
                k <= n,
                forall|j: int| 0 <= j < k ==> self.sources_view()[j] != source,
            decreases n - k,
        {
            if self.sources[k] == source {
                self.transmitters[k].push(transmitter);
                proof {
                    assert(self.sources_view() =~= old(self).sources_view());
                    assert(self.has_source(source));
                    assert(self.transmitters_view()[k as int] =~= old(self).transmitters_view()[
                        k as int].push(transmitter));
                    assert forall|i: int|
                        0 <= i < old(self).sources_view().len() implies self.transmitters_view()[i]
                        == (if old(self).sources_view()[i] == source {
                        old(self).transmitters_view()[i].push(transmitter)
                    } else {
                        old(self).transmitters_view()[i]
                    }) by {
                        if i != k {
                            assert(self.transmitters_view()[i] == old(self).transmitters_view()[i]);
                        }
                    }
                }
                return ;
            }
            k = k + 1;
        }
        let mut slot: Vec<Sender<Telemetry>> = Vec::new();
        slot.push(transmitter);
        self.sources.push(source);
        self.transmitters.push(slot);
        proof {
            assert(self.sources_view() =~= old(self).sources_view().push(source));
            assert(self.sources_view()[old(self).sources_view().len() as int] == source);
            assert(self.has_source(source));
            assert(self.transmitters_view()[old(self).transmitters_view().len() as int] =~= slot@);
            assert forall|i: int|
                0 <= i < old(self).transmitters_view().len() implies self.transmitters_view()[i]
                == old(self).transmitters_view()[i] by {
                assert(self.transmitters@[i] == old(self).transmitters@[i]);
            }
        }
    }

    /// Hand out, once, every sender registered for a source, removing them
    /// from the registry.
    pub fn get_registered_transmitters(&mut self, source: DataSource) -> (r: Option<
        Vec<Sender<Telemetry>>,
    >)
        requires
            old(self).wf(),
        ensures
            final(self).wf(),
            r.is_some() == old(self).has_source(source),
            !final(self).has_source(source),
            r matches Some(v) ==> forall|i: int|
                0 <= i < old(self).sources_view().len() && old(self).sources_view()[i] == source
                    ==> v@ == old(self).transmitters_view()[i],
            r is None ==> *final(self) == *old(self),
    {
        let n = self.sources.len();
        let mut k: usize = 0;
        while k < n
            invariant
                old(self).wf(),
                *self == *old(self),
                n == self.sources@.len(),
                self.transmitters@.len() == n,
                k <= n,
                forall|j: int| 0 <= j < k ==> self.sources_view()[j] != source,
            decreases n - k,
        {
            if self.sources[k] == source {
                self.sources.remove(k);
                let v = self.transmitters.remove(k);
                proof {
                    assert(self.sources_view() =~= old(self).sources_view().remove(k as int));
                    assert forall|i: int, j: int|
                        0 <= i < j < self.sources_view().len() implies self.sources_view()[i]
                        != self.sources_view()[j] by {
                        let oi = if i < k {
                            i
                        } else {
                            i + 1
                        };
                        let oj = if j < k {
                            j
                        } else {
                            j + 1
                        };
                        assert(self.sources_view()[i] == old(self).sources_view()[oi]);
                        assert(self.sources_view()[j] == old(self).sources_view()[oj]);
                    }
                    assert forall|i: int|
                        0 <= i < self.sources_view().len() implies self.sources_view()[i]
                        != source by {
                        let oi = if i < k {
                            i
                        } else {
                            i + 1
                        };
                        assert(self.sources_view()[i] == old(self).sources_view()[oi]);
                        if oi != k {
                            assert(old(self).sources_view()[oi] != old(self).sources_view()[
                                k as int]);
                        }
                    }
                    assert(old(self).has_source(source));
                    assert(v@ == old(self).transmitters_view()[k as int]);
                    assert forall|i: int|
                        0 <= i < old(self).sources_view().len() && old(self).sources_view()[i]
                            == source implies v@ == old(self).transmitters_view()[i] by {
                        assert(i == k);
                    }
                }
                return Some(v);
            }
            k = k + 1;
        }
        None
    }
}

impl Default for CommunicationRegistry {
    /// An empty registry.
    fn default() -> (r: CommunicationRegistry)
        ensures
            r.wf(),
            r.sources_view().len() == 0,
    {
        CommunicationRegistry::new()
    }
}

} // verus!
