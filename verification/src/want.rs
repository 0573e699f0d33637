//! How much of a fire an observer reads.

use vstd::prelude::*;

verus! {

/// How much of a fire the observer reads. Everything above [`Want::Vals`] is second order: an opaque
/// node's Jacobian is one re-advance per scalar dep slot, and a pure one's is a gradient pass over
/// the body. So it is priced per tick, never per build.
#[derive(Clone, Copy, Debug, Eq, Ord, PartialEq, PartialOrd, Structural)]
pub enum Want {
    Nothing,
    Vals,
    Jac,
    /// One column group per *lag* of each dep's reach instead of one for its newest: the reading a
    /// Jacobian is silent about. A kernel that cannot answer fills nothing, so asking costs only the
    /// kernels that can.
    Exact,
}

impl Want {
    /// How much is wanted, as a number.
    pub open spec fn rank(self) -> int {
        match self {
            Want::Nothing => 0,
            Want::Vals => 1,
            Want::Jac => 2,
            Want::Exact => 3,
        }
    }

    fn depth(self) -> (r: u8)
        ensures
            r == self.rank(),
    {
        match self {
            Want::Nothing => 0,
            Want::Vals => 1,
            Want::Jac => 2,
            Want::Exact => 3,
        }
    }

    pub fn at_least(self, other: Want) -> (r: bool)
        ensures
            r == (self.rank() >= other.rank()),
    {
        self.depth() >= other.depth()
    }

    /// The deeper of two wants.
    pub open spec fn deeper(self, other: Want) -> Want {
        if self.rank() >= other.rank() {
            self
        } else {
            other
        }
    }

    pub fn or_deeper(self, other: Want) -> (r: Want)
        ensures
            r == self.deeper(other),
    {
        if self.at_least(other) {
            self
        } else {
            other
        }
    }
}

} // verus!
