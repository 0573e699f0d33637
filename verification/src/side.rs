//! Which side of the market.

use vstd::prelude::*;

verus! {

/// Buy = bid, Sell = ask.
#[derive(Clone, Copy, Debug, Eq, Hash, PartialEq, Structural)]
pub enum Side {
    Buy,
    Sell,
}

impl Default for Side {
    fn default() -> (r: Self)
        ensures
            r == Side::Buy,
    {
        Side::Buy
    }
}

} // verus!
