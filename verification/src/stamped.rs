//! Event time.

use vstd::prelude::*;

verus! {

/// A retained item's own event time. Required of every buffered item: a history you cannot index by
/// time is one you can only read at an assumed cadence.
pub trait Stamped {
    /// The event time, in nanoseconds.
    open spec fn stamp(&self) -> int {
        arbitrary()
    }

    fn ts_ns(&self) -> (r: i64)
        ensures
            r == self.stamp(),
    ;
}

} // verus!
