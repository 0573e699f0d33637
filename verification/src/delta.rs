//! One row of the recorded book stream.

use vstd::prelude::*;

use crate::precision::PrecisionPriceQty;
use crate::side::Side;
use crate::stamped::Stamped;
use crate::ts::{Local, Ts, Venue};

verus! {

/// Whether a level is market activity or our own reconciliation. Per *row*, not per run: what a run
/// of levels is, is what its rows say it is, and the one consumer that discriminates (a flow
/// derivation, which a correction would feed fabricated signal) filters on it.
#[derive(Clone, Copy, Debug, Eq, PartialEq, Structural)]
pub enum FrameKind {
    Update,
    Correction,
}

impl Default for FrameKind {
    fn default() -> (r: Self)
        ensures
            r == FrameKind::Update,
    {
        FrameKind::Update
    }
}

/// One level of our own recollection: the persisted delta lane is gapless and self-consistent, so
/// `kind` (not the venue's `gapped` flag) is what a consumer reads. This *is* the stored row; unlike
/// every other lane holder it carries its own precision, because a series hands out bare items and
/// a raw price no consumer can scale is not a reading.
#[derive(Clone, Copy, Debug, PartialEq)]
pub struct BookDelta {
    pub prec: PrecisionPriceQty,
    pub ts_venue_exec: Ts<Venue>,
    /// Book lanes are only ever written by a live recording, and the adapter that took the frame
    /// off the wire always knows its own reception time.
    pub ts_local_recv: Ts<Local>,
    pub monotonic_seq: u64,
    pub kind: FrameKind,
    /// Buy = bid, Sell = ask.
    pub side: Side,
    pub price: i32,
    /// `0` means delete this level.
    pub qty: u32,
}

impl Stamped for BookDelta {
    open spec fn stamp(&self) -> int {
        self.ts_venue_exec@
    }

    fn ts_ns(&self) -> (r: i64) {
        self.ts_venue_exec.as_nanos()
    }
}

} // verus!
