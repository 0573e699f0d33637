//! Trades as they come off the wire: many of them, stamped once.

use vstd::prelude::*;

use crate::precision::PrecisionPriceQty;
use crate::side::Side;
use crate::ts::{Accumulator, Aggregate, Local, Span, Timestamped, Timestamps, Ts, Venue};

verus! {

/// One trade in raw (scaled-int) form; `price`/`qty` are meaningless without the batch's `prec`.
#[derive(Clone, Copy, Debug)]
pub struct InnerTrade {
    /// When the venue matched it.
    pub time: Ts<Venue>,
    /// When the venue put it on the wire, if it reports that separately from `time`. The gap is the
    /// venue's own internal latency: ours to observe, not to average away.
    pub sent: Option<Ts<Venue>>,
    pub price: i32,
    /// Base qty.
    pub qty: u32,
    /// Aggressor (taker) side.
    pub side: Side,
}

impl Default for InnerTrade {
    fn default() -> (r: Self)
        ensures
            r.time@ == 0,
            r.sent is None,
            r.price == 0,
            r.qty == 0,
            r.side == Side::Buy,
    {
        InnerTrade { time: Ts::from_nanos(0), sent: None, price: 0, qty: 0, side: Side::default() }
    }
}

/// Whether trades stand in the order the venue matched them.
pub open spec fn sequenced(trades: Seq<InnerTrade>) -> bool {
    forall|i: int, j: int| 0 <= i <= j < trades.len() ==> trades[i].time@ <= trades[j].time@
}

/// Batched trade stream event. All trades share `prec`.
///
/// A container, not an accumulator: it is stamped **once** on reception, so there is no local
/// span to speak of. The venue span is derived from the elements, which keep their own times.
#[derive(Clone, Debug)]
pub struct BatchTrades {
    prec: PrecisionPriceQty,
    trades: Vec<InnerTrade>,
    local_recv: Ts<Local>,
}

/// A batch as a value.
#[verifier::ext_equal]
pub struct BatchView {
    pub prec: PrecisionPriceQty,
    pub trades: Seq<InnerTrade>,
    pub local_recv: Ts<Local>,
}

impl View for BatchTrades {
    type V = BatchView;

    closed spec fn view(&self) -> BatchView {
        BatchView { prec: self.prec, trades: self.trades@, local_recv: self.local_recv }
    }
}

impl BatchTrades {
    /// Drained across multiple frames, so venue-time monotonicity is an assumption, not a guarantee,
    /// and [`span`](Self::span) reads only the ends.
    pub fn new(prec: PrecisionPriceQty, trades: Vec<InnerTrade>, local_recv: Ts<Local>) -> (r: Self)
        requires
            trades@.len() > 0,
            sequenced(trades@),
        ensures
            r@ == (BatchView { prec, trades: trades@, local_recv }),
    {
        BatchTrades { prec, trades, local_recv }
    }

    pub fn len(&self) -> (r: usize)
        ensures
            r == self@.trades.len(),
    {
        self.trades.len()
    }

    pub fn is_empty(&self) -> (r: bool)
        ensures
            r == (self@.trades.len() == 0),
    {
        self.trades.len() == 0
    }

    /// The precision shared by every trade in the batch, needed to decode [`iter`](Self::iter)'s raw
    /// ints.
    pub fn prec(&self) -> (r: PrecisionPriceQty)
        ensures
            r == self@.prec,
    {
        self.prec
    }

    pub fn span(&self) -> (r: Span<Venue>)
        requires
            self@.trades.len() > 0,
            sequenced(self@.trades),
        ensures
            r@ == (self@.trades[0].time@, self@.trades.last().time@),
    {
        let n: usize = self.trades.len();
        Span::new(self.trades[0].time, self.trades[n - 1].time)
    }

    /// The batch's two windows.
    pub fn aggregate(&self) -> (r: Aggregate)
        requires
            self@.trades.len() > 0,
            sequenced(self@.trades),
        ensures
            r.venue_exec@ == (self@.trades[0].time@, self@.trades.last().time@),
            r.local_recv@ == (self@.local_recv@, self@.local_recv@),
    {
        Aggregate { venue_exec: self.span(), local_recv: Span::at(self.local_recv) }
    }

    /// Raw ints; decode them with [`Self::prec`].
    pub fn iter(&self) -> (r: Vec<InnerTrade>)
        ensures
            r@ == self@.trades,
    {
        let mut r: Vec<InnerTrade> = Vec::new();
        let mut i: usize = 0;
        while i < self.trades.len()
            invariant
                i <= self.trades@.len(),
                r@ == self.trades@.take(i as int),
            decreases self.trades@.len() - i,
        {
            r.push(self.trades[i]);
            assert(self.trades@.take(i + 1) =~= self.trades@.take(i as int).push(
                self.trades@[i as int],
            ));
            i += 1;
        }
        assert(r@ =~= self.trades@);
        r
    }
}

impl Timestamped for BatchTrades {
    open spec fn stamped(&self) -> bool {
        self@.trades.len() > 0 && sequenced(self@.trades)
    }

    open spec fn stamps(&self, r: Timestamps) -> bool {
        &&& r matches Timestamps::Accumulator(a)
        &&& a.venue@ == (self@.trades[0].time@, self@.trades.last().time@)
        &&& a.local matches Some(l)
        &&& l@ == (self@.local_recv@, self@.local_recv@)
    }

    fn timestamps(&self) -> (r: Timestamps) {
        let a: Aggregate = self.aggregate();
        Timestamps::Accumulator(Accumulator { venue: a.venue_exec, local: Some(a.local_recv) })
    }
}

} // verus!
