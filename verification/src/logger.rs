//! An in-memory telemetry log, keyed by component name.
//!
//! Estimators and sensors record what they emitted; persistence reads it back
//! per component.  The log is an explicit value handed to whoever needs it —
//! there is no global registry — so what each component recorded is exactly
//! what was passed in.

use vstd::prelude::*;

verus! {

/// One recorded item with the time it was recorded (nanoseconds).
#[derive(Clone, Copy, Debug)]
pub struct LogEntry<T> {
    pub timestamp: u64,
    pub data: T,
}

/// Per-component storage of recorded entries, in arrival order.
#[derive(Debug)]
pub struct Logger<T> {
    names: Vec<String>,
    entries: Vec<Vec<LogEntry<T>>>,
}

impl<T> Logger<T> {
    /// Component names, by slot.
    pub closed spec fn names_view(self) -> Seq<Seq<char>> {
        self.names@.map_values(|s: String| s@)
    }

    /// Recorded entries, by slot.
    pub closed spec fn entries_view(self) -> Seq<Seq<LogEntry<T>>> {
        self.entries@.map_values(|v: Vec<LogEntry<T>>| v@)
    }

    /// One slot per component, each name on one slot only.
    pub open spec fn wf(self) -> bool {
        &&& self.names_view().len() == self.entries_view().len()
        &&& forall|i: int, j: int|
            0 <= i < j < self.names_view().len() ==> self.names_view()[i] != self.names_view()[j]
    }

    /// Some slot carries this component name.
    pub open spec fn has_component(self, name: Seq<char>) -> bool {
        exists|i: int| 0 <= i < self.names_view().len() && self.names_view()[i] == name
    }

    /// An empty log.
    pub fn new() -> (r: Logger<T>)
        ensures
            r.wf(),
            r.names_view().len() == 0,
    {
        Logger { names: Vec::new(), entries: Vec::new() }
    }

    /// Record one entry for `component_name`, appending to its slot or
    /// opening a new one.
    pub fn log(&mut self, component_name: &str, timestamp: u64, data: T)
        requires
            old(self).wf(),
        ensures
            final(self).wf(),
            final(self).has_component(component_name@),
            old(self).has_component(component_name@) ==> final(self).names_view() == old(
                self,
            ).names_view() && forall|i: int|
                0 <= i < old(self).names_view().len() ==> final(self).entries_view()[i] == (if old(
                    self,
                ).names_view()[i] == component_name@ {
                    old(self).entries_view()[i].push(LogEntry { timestamp, data })
                } else {
                    old(self).entries_view()[i]
                }),
            !old(self).has_component(component_name@) ==> final(self).names_view() == old(
                self,
            ).names_view().push(component_name@) && final(self).entries_view().len() == old(
                self,
            ).entries_view().len() + 1 && (forall|i: int|
                0 <= i < old(self).entries_view().len() ==> final(self).entries_view()[i] == old(
                    self,
                ).entries_view()[i]) && final(self).entries_view()[old(
                self,
            ).entries_view().len() as int].len() == 1,
    {
        let name_owned = component_name.to_owned();
        let n = self.names.len();
        let mut k: usize = 0;
        while k < n
            invariant
                old(self).wf(),
                *self == *old(self),
                name_owned@ == component_name@,
                n == self.names@.len(),
                self.entries@.len() == n,
                k <= n,
                forall|j: int| 0 <= j < k ==> self.names_view()[j] != component_name@,
            decreases n - k,
        {
            let hit = {
                let existing: &String = &self.names[k];
                existing.eq(&name_owned)
            };
            if hit {
                proof {
                    assert(self.names@[k as int]@ == name_owned@);
                    assert(self.names_view()[k as int] == component_name@);
                }
                let entry = LogEntry { timestamp, data };
                self.entries[k].push(entry);
                proof {
                    assert(self.names_view() =~= old(self).names_view());
                    assert(self.names_view()[k as int] == component_name@);
                    assert(self.has_component(component_name@));
                    assert(self.entries_view()[k as int] =~= old(self).entries_view()[
                        k as int].push(entry));
                    assert forall|i: int|
                        0 <= i < old(self).names_view().len() implies self.entries_view()[i] == (
                    if old(self).names_view()[i] == component_name@ {
                        old(self).entries_view()[i].push(LogEntry { timestamp, data })
                    } else {
                        old(self).entries_view()[i]
                    }) by {
                        if i != k {
                            assert(self.entries_view()[i] == old(self).entries_view()[i]);
                        }
                    }
                }
                return ;
            }
            k = k + 1;
        }
        let entry = LogEntry { timestamp, data };
        let mut slot: Vec<LogEntry<T>> = Vec::new();
        slot.push(entry);
        self.names.push(component_name.to_owned());
        self.entries.push(slot);
        proof {
            assert(self.names_view() =~= old(self).names_view().push(component_name@));
            assert(self.names_view()[old(self).names_view().len() as int] == component_name@);
            assert(self.has_component(component_name@));
            assert(self.entries_view()[old(self).entries_view().len() as int] =~= slot@);
            assert forall|i: int|
                0 <= i < old(self).entries_view().len() implies self.entries_view()[i] == old(
                self,
            ).entries_view()[i] by {
                assert(self.entries@[i] == old(self).entries@[i]);
            }
        }
    }

    /// The entries recorded for `component_name`, if it ever logged.
    pub fn get_data(&self, component_name: &str) -> (r: Option<&Vec<LogEntry<T>>>)
        requires
            self.wf(),
        ensures
            r.is_some() == self.has_component(component_name@),
            r matches Some(v) ==> forall|i: int|
                0 <= i < self.names_view().len() && self.names_view()[i] == component_name@
                    ==> v@ == self.entries_view()[i],
    {
        let name_owned = component_name.to_owned();
        let n = self.names.len();
        let mut k: usize = 0;
        while k < n
            invariant
                self.wf(),
                name_owned@ == component_name@,
                n == self.names@.len(),
                self.entries@.len() == n,
                k <= n,
                forall|j: int| 0 <= j < k ==> self.names_view()[j] != component_name@,
            decreases n - k,
        {
            let hit = {
                let existing: &String = &self.names[k];
                existing.eq(&name_owned)
            };
            if hit {
                proof {
                    assert(self.names@[k as int]@ == name_owned@);
                    assert(self.names_view()[k as int] == component_name@);
                    assert(self.has_component(component_name@));
                    assert forall|i: int|
                        0 <= i < self.names_view().len() && self.names_view()[i]
                            == component_name@ implies self.entries@[k as int]@
                        == self.entries_view()[i] by {
                        assert(i == k);
                        assert(self.entries_view()[i] == self.entries@[i]@);
                    }
                }
                return Some(&self.entries[k]);
            }
            k = k + 1;
        }
        None
    }
}

/// Record one entry in the given log.
pub fn log<T>(logger: &mut Logger<T>, component_name: &str, timestamp: u64, data: T)
    requires
        old(logger).wf(),
    ensures
        final(logger).wf(),
        final(logger).has_component(component_name@),
{
    logger.log(component_name, timestamp, data);
}

/// The entries recorded for a component in the given log.
pub fn get_data<'a, T>(logger: &'a Logger<T>, component_name: &str) -> (r: Option<
    &'a Vec<LogEntry<T>>,
>)
    requires
        logger.wf(),
    ensures
        r.is_some() == logger.has_component(component_name@),
{
    logger.get_data(component_name)
}

} // verus!
