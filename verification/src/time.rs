//! Points in time, as the index records them.

use vstd::prelude::*;

verus! {

/// A point in time, counted from the Unix epoch.
#[derive(Clone, Copy, Debug, PartialEq, Eq)]
pub struct Timestamp {
    pub secs_since_epoch: u64,
    pub nanos_since_epoch: u32,
}

impl Timestamp {
    /// Whether `self` is at or after `other`: whole seconds decide, the
    /// sub-second part breaks ties.
    pub open spec fn not_before(self, other: Timestamp) -> bool {
        ||| self.secs_since_epoch > other.secs_since_epoch
        ||| (self.secs_since_epoch == other.secs_since_epoch && self.nanos_since_epoch
            >= other.nanos_since_epoch)
    }

    /// Whether `self` is at or after `other`.
    pub fn at_or_after(&self, other: &Timestamp) -> (r: bool)
        ensures
            r == self.not_before(*other),
    {
        if self.secs_since_epoch != other.secs_since_epoch {
            self.secs_since_epoch > other.secs_since_epoch
        } else {
            self.nanos_since_epoch >= other.nanos_since_epoch
        }
    }
}

} // verus!
