//! How long to wait after a move before asking the remote store for the
//! next one.
//!
//! The remote store takes a moment to settle after a change, and the moment
//! grows with the collection. Whether the wait is needed at all is not known
//! for certain, so it is a setting and not a rule.

use vstd::prelude::*;

verus! {

/// A wait that grows with the number of items in the collection.
#[derive(Clone, Copy, Debug, PartialEq, Eq, Structural)]
pub struct DelayPolicy {
    /// Milliseconds to wait for each item of the collection.
    pub millis_per_item: u64,
}

impl DelayPolicy {
    /// The wait after a move in a collection of `items` items, in
    /// milliseconds: the product, or the largest wait there is where the
    /// product is larger still.
    pub open spec fn spec_pause_millis(self, items: nat) -> int {
        if self.millis_per_item * items > u64::MAX {
            u64::MAX as int
        } else {
            self.millis_per_item * items
        }
    }

    /// A policy that waits `millis_per_item` milliseconds for each item.
    pub fn per_item(millis_per_item: u64) -> (policy: DelayPolicy)
        ensures
            policy.millis_per_item == millis_per_item,
    {
        DelayPolicy { millis_per_item }
    }

    /// A policy that does not wait.
    pub fn none() -> (policy: DelayPolicy)
        ensures
            policy.millis_per_item == 0,
    {
        DelayPolicy { millis_per_item: 0 }
    }

    /// The wait after a move in a collection of `items` items, in
    /// milliseconds.
    pub fn pause_millis(&self, items: usize) -> (millis: u64)
        ensures
            millis == self.spec_pause_millis(items as nat),
    {
        match self.millis_per_item.checked_mul(items as u64) {
            Some(millis) => millis,
            None => u64::MAX,
        }
    }
}

impl Default for DelayPolicy {
    /// The cautious setting: two milliseconds for each item.
    fn default() -> (policy: DelayPolicy)
        ensures
            policy.millis_per_item == 2,
    {
        DelayPolicy { millis_per_item: 2 }
    }
}

} // verus!
