//! The mutation batcher: counts row mutations and reports when a full
//! re-projection of the display rows is due.
//!
//! Re-sorting on every single mutation costs `O(n log n)` per row during bulk
//! loads, so the table only re-projects every `threshold` mutations.  With no
//! threshold set, mutations are still counted but nothing triggers.

use vstd::prelude::*;

verus! {

/// Counts mutations against an optional threshold.
pub struct AutoReload {
    /// Re-project after this many mutations; `None` disables auto reload.
    threshold: Option<u32>,
    /// Mutations counted since the last triggered reload.
    counter: u32,
}

impl AutoReload {
    /// The configured threshold, as the contracts speak of it.
    pub closed spec fn threshold_spec(&self) -> Option<u32> {
        self.threshold
    }

    /// The mutations counted so far, as the contracts speak of it.
    pub closed spec fn counter_spec(&self) -> u32 {
        self.counter
    }

    /// Whether counting one more mutation on top of `counter` reaches the
    /// threshold and so must trigger a reload.
    pub open spec fn spec_triggers(threshold: Option<u32>, counter: u32) -> bool {
        match threshold {
            Option::Some(t) => counter + 1 >= t,
            Option::None => false,
        }
    }

    /// A fresh batcher: no threshold, nothing counted.
    pub fn new() -> (r: Self)
        ensures
            r.threshold_spec() == Option::<u32>::None,
            r.counter_spec() == 0u32,
    {
        AutoReload { threshold: Option::None, counter: 0 }
    }

    /// Replace the threshold; the running count is kept.
    pub fn set_threshold(&mut self, threshold: Option<u32>)
        ensures
            final(self).threshold_spec() == threshold,
            final(self).counter_spec() == old(self).counter_spec(),
    {
        self.threshold = threshold;
    }

    /// Count one mutation.  Returns whether the threshold was reached, in
    /// which case the count starts over; the count never passes the
    /// threshold, and without one it saturates rather than wrapping.
    pub fn increment_count(&mut self) -> (reload: bool)
        ensures
            reload == Self::spec_triggers(old(self).threshold_spec(), old(self).counter_spec()),
            final(self).threshold_spec() == old(self).threshold_spec(),
            final(self).counter_spec() == if reload {
                0u32
            } else if old(self).counter_spec() < u32::MAX {
                (old(self).counter_spec() + 1) as u32
            } else {
                old(self).counter_spec()
            },
    {
        let mut triggered = false;
        if let Option::Some(t) = self.threshold {
            if self.counter >= u32::MAX - 1 || self.counter + 1 >= t {
                triggered = true;
            }
        }
        if triggered {
            self.counter = 0;
        } else if self.counter < u32::MAX {
            self.counter = self.counter + 1;
        }
        triggered
    }
}

} // verus!
