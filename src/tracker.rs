//! Snapshots of the process-wide allocation counter.
use vstd::prelude::*;

verus! {

/// A captured reading of the allocation counter. The counter itself lives
/// with the allocator; a tracker is handed its readings and reports the
/// growth since the capture.
pub struct Tracker {
    baseline: usize,
}

impl Tracker {
    /// The counter value captured when the tracker was made.
    pub closed spec fn baseline(&self) -> nat {
        self.baseline as nat
    }

    /// Captures `current` as the baseline.
    pub fn new(current: usize) -> (t: Tracker)
        ensures
            t.baseline() == current,
    {
        Tracker { baseline: current }
    }

    /// Bytes allocated, net of deallocations, since the capture: the counter
    /// reading `current` minus the baseline, negative where more was freed
    /// than allocated.
    pub fn allocated(&self, current: usize) -> (r: i128)
        ensures
            r == current - self.baseline(),
    {
        current as i128 - self.baseline as i128
    }

    /// The captured baseline as a plain value.
    pub fn baseline_value(&self) -> (r: usize)
        ensures
            r == self.baseline(),
    {
        self.baseline
    }
}

} // verus!
