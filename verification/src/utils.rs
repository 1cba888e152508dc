use vstd::prelude::*;

verus! {

/// Nanoseconds in one second; cycle durations are expressed in nanoseconds.
pub const NANOS_PER_SEC: u64 = 1_000_000_000;

/// Duration of one sensor cycle, in nanoseconds, for a sensor that fires
/// `frequency` times per second.
pub fn get_cycle_duration(frequency: u32) -> (nanos: u64)
    requires
        frequency >= 1,
    ensures
        nanos == NANOS_PER_SEC as int / frequency as int,
{
    NANOS_PER_SEC / (frequency as u64)
}

} // verus!
