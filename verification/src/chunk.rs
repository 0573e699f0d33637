//! What the engine retains of the delta lane for a [`Book`](crate::book::Book) when the book itself
//! is dark.
//!
//! A book's levels are idempotent in `(side, price)`: only the last quantity of a period survives.
//! So retaining the rows is retaining far more than the period actually says. This folds on arrival
//! and pays depth instead.

use core::ops::Range;
use vstd::prelude::*;

use crate::delta::BookDelta;
use crate::horizon::Horizon;
use crate::ladder;
use crate::ladder::{best_first, levels, listing};
use crate::retain::Batch;
use crate::side::Side;
use crate::ts::{Span, Venue};

verus! {

/// What a [`BookChunk`] holds, as maps from price to quantity.
#[verifier::ext_equal]
pub struct ChunkView {
    pub base: int,
    pub bids: Map<i32, u32>,
    pub asks: Map<i32, u32>,
    pub seq: Option<(int, int)>,
    pub contiguous: bool,
    pub span: (int, int),
    pub fresh: Seq<BookDelta>,
    pub prev_bids: Map<i32, u32>,
    pub prev_asks: Map<i32, u32>,
    pub prev_seq: Option<(int, int)>,
    pub prev_contiguous: bool,
}

/// The start of the period a time lies in, measured from the epoch.
pub open spec fn period_start(ts: int, period: int) -> int {
    (ts / period) * period
}

/// The levels of one side tagged with it.
pub open spec fn sided(side: Side, s: Seq<(i32, u32)>) -> Seq<(Side, i32, u32)> {
    s.map_values(|l: (i32, u32)| (side, l.0, l.1))
}

/// The last quantity each row of `side` left at its price.
pub open spec fn net_of(rows: Seq<BookDelta>, side: Side) -> Map<i32, u32>
    decreases rows.len(),
{
    if rows.len() == 0 {
        Map::empty()
    } else {
        let before = net_of(rows.drop_last(), side);
        let d = rows.last();
        if d.side == side {
            before.insert(d.price, d.qty)
        } else {
            before
        }
    }
}

impl ChunkView {
    /// One period's rows, one row further.
    pub open spec fn fold(self, d: BookDelta) -> ChunkView {
        ChunkView {
            bids: if d.side == Side::Buy {
                self.bids.insert(d.price, d.qty)
            } else {
                self.bids
            },
            asks: if d.side == Side::Sell {
                self.asks.insert(d.price, d.qty)
            } else {
                self.asks
            },
            seq: match self.seq {
                Some(r) => Some((r.0, d.monotonic_seq as int)),
                None => Some((d.monotonic_seq as int, d.monotonic_seq as int)),
            },
            contiguous: match self.seq {
                Some(r) => self.contiguous && d.monotonic_seq == r.1 + 1,
                None => self.contiguous,
            },
            span: match self.seq {
                Some(_) => (self.span.0, d.ts_venue_exec@),
                None => (d.ts_venue_exec@, d.ts_venue_exec@),
            },
            ..self
        }
    }

    /// The period `base` names opens, and the one that was open is set aside.
    pub open spec fn tumble(self, base: int) -> ChunkView {
        ChunkView {
            base,
            bids: Map::empty(),
            asks: Map::empty(),
            seq: None,
            contiguous: true,
            span: (0, 0),
            fresh: self.fresh,
            prev_bids: self.bids,
            prev_asks: self.asks,
            prev_seq: self.seq,
            prev_contiguous: self.contiguous,
        }
    }

    /// The chunk in the period of `d`.
    pub open spec fn opened(self, d: BookDelta, period: int) -> ChunkView {
        let base = period_start(d.ts_venue_exec@, period);
        if base != self.base {
            self.tumble(base)
        } else {
            self
        }
    }

    /// Whether `d` can be taken in: its period starts at a time there is, it does not run behind
    /// the period's first row, and the sequence has a next number to compare with.
    pub open spec fn takes(self, d: BookDelta, period: int) -> bool {
        let at = self.opened(d, period);
        &&& i64::MIN <= period_start(d.ts_venue_exec@, period)
        &&& at.seq is Some ==> at.span.0 <= d.ts_venue_exec@ && at.seq->Some_0.1 < u64::MAX
    }

    /// Whether every row of a run can be taken in, in order.
    pub open spec fn takes_all(self, rows: Seq<BookDelta>, period: int) -> bool
        decreases rows.len(),
    {
        rows.len() == 0 || {
            &&& self.takes_all(rows.drop_last(), period)
            &&& self.taken(rows.drop_last(), period).takes(rows.last(), period)
        }
    }

    /// The chunk after a run of rows.
    pub open spec fn taken(self, rows: Seq<BookDelta>, period: int) -> ChunkView
        decreases rows.len(),
    {
        if rows.len() == 0 {
            self
        } else {
            self.taken(rows.drop_last(), period).opened(rows.last(), period).fold(rows.last())
        }
    }

    /// The period's net levels, ascending on either side; `joined` prepends the period before.
    pub open spec fn net(self, joined: bool) -> Seq<(Side, i32, u32)> {
        let prev = if joined {
            sided(Side::Buy, listing(Side::Sell, self.prev_bids)) + sided(
                Side::Sell,
                listing(Side::Sell, self.prev_asks),
            )
        } else {
            Seq::empty()
        };
        prev + sided(Side::Buy, listing(Side::Sell, self.bids)) + sided(
            Side::Sell,
            listing(Side::Sell, self.asks),
        )
    }

    /// The seqs a two-period net speaks for.
    pub open spec fn joined(self) -> Option<(int, int)> {
        match (self.prev_seq, self.seq) {
            (Some(prev), Some(cur)) => if self.prev_contiguous && self.contiguous && prev.1 + 1
                == cur.0 {
                Some((prev.0, cur.1))
            } else {
                None
            },
            _ => None,
        }
    }
}

/// The bounds a range runs between.
pub open spec fn bounds(r: Option<Range<u64>>) -> Option<(int, int)> {
    match r {
        Some(r) => Some((r.start as int, r.end as int)),
        None => None,
    }
}

/// The net effect of one period's deltas.
///
/// **Tumbling, not sliding.** A folded level cannot be un-folded, so there is nothing here to trim.
/// It tumbles on the absolute `Horizon::Over` boundary instead, floored from the epoch.
///
/// Two periods are kept, not one. A boundary is exactly where a sleeping book's reach ends, and the
/// net that would carry it across is the one the tumble throws away, so the tumble sets it aside
/// instead. It is a wider bound, not a guarantee, and the guarantee is a replay.
#[derive(Clone, Debug)]
pub struct BookChunk {
    /// Absolute period start the net is measured from; `i64::MIN` until the first row lands.
    base: i64,
    bids: Vec<(i32, u32)>,
    asks: Vec<(i32, u32)>,
    /// The seqs the net folded, first to last. `None` before the period's first row.
    seq: Option<(u64, u64)>,
    /// Whether those seqs ran unbroken. A break is a hole in our own recording, and a net missing
    /// rows cannot stand in for them.
    contiguous: bool,
    span: Span<Venue>,
    fresh: Vec<BookDelta>,
    /// The period before the one `base` names, kept whole. The tumble is precisely where a sleeping
    /// book loses its reach, so what it needs on waking is the net thrown away there; setting it
    /// aside costs one period's levels and nothing per row.
    prev_bids: Vec<(i32, u32)>,
    prev_asks: Vec<(i32, u32)>,
    prev_seq: Option<(u64, u64)>,
    prev_contiguous: bool,
}

/// A pair of sequence numbers, as integers.
spec fn pair(r: Option<(u64, u64)>) -> Option<(int, int)> {
    match r {
        Some(r) => Some((r.0 as int, r.1 as int)),
        None => None,
    }
}

impl View for BookChunk {
    type V = ChunkView;

    closed spec fn view(&self) -> ChunkView {
        ChunkView {
            base: self.base as int,
            bids: levels(self.bids@),
            asks: levels(self.asks@),
            seq: pair(self.seq),
            contiguous: self.contiguous,
            span: self.span@,
            fresh: self.fresh@,
            prev_bids: levels(self.prev_bids@),
            prev_asks: levels(self.prev_asks@),
            prev_seq: pair(self.prev_seq),
            prev_contiguous: self.prev_contiguous,
        }
    }
}

/// A chunk nothing was folded into.
pub open spec fn unstepped() -> ChunkView {
    ChunkView {
        base: i64::MIN as int,
        bids: Map::empty(),
        asks: Map::empty(),
        seq: None,
        contiguous: true,
        span: (0, 0),
        fresh: Seq::empty(),
        prev_bids: Map::empty(),
        prev_asks: Map::empty(),
        prev_seq: None,
        prev_contiguous: true,
    }
}

impl Default for BookChunk {
    fn default() -> (r: Self)
        ensures
            r.wf(),
            r@ == unstepped(),
    {
        let r = BookChunk {
            base: i64::MIN,
            bids: Vec::new(),
            asks: Vec::new(),
            seq: None,
            contiguous: true,
            span: Span::default(),
            fresh: Vec::new(),
            prev_bids: Vec::new(),
            prev_asks: Vec::new(),
            prev_seq: None,
            prev_contiguous: true,
        };
        proof {
            ladder::lemma_no_levels(r.bids@);
            ladder::lemma_no_levels(r.asks@);
            ladder::lemma_no_levels(r.prev_bids@);
            ladder::lemma_no_levels(r.prev_asks@);
            assert(r@ =~= unstepped());
        }
        r
    }
}

/// Append the levels of one side, tagged with it.
fn append_side(out: &mut Vec<(Side, i32, u32)>, side: Side, levels: &Vec<(i32, u32)>)
    ensures
        final(out)@ == old(out)@ + sided(side, levels@),
{
    let ghost before = out@;
    let mut i: usize = 0;
    assert(sided(side, levels@.take(0)) =~= Seq::empty());
    while i < levels.len()
        invariant
            i <= levels@.len(),
            out@ == before + sided(side, levels@.take(i as int)),
        decreases levels@.len() - i,
    {
        let (price, qty): (i32, u32) = levels[i];
        out.push((side, price, qty));
        i += 1;
        assert(out@ =~= before + sided(side, levels@.take(i as int)));
    }
    assert(levels@.take(levels@.len() as int) =~= levels@);
}

impl BookChunk {
    /// Whether every side is held sorted.
    pub closed spec fn wf(&self) -> bool {
        &&& best_first(Side::Sell, self.bids@)
        &&& best_first(Side::Sell, self.asks@)
        &&& best_first(Side::Sell, self.prev_bids@)
        &&& best_first(Side::Sell, self.prev_asks@)
    }

    /// The same chunk, owned.
    pub fn copied(&self) -> (r: Self)
        ensures
            r@ == self@,
            self.wf() ==> r.wf(),
    {
        let mut fresh: Vec<BookDelta> = Vec::new();
        let mut i: usize = 0;
        while i < self.fresh.len()
            invariant
                i <= self.fresh@.len(),
                fresh@ == self.fresh@.take(i as int),
            decreases self.fresh@.len() - i,
        {
            fresh.push(self.fresh[i]);
            assert(self.fresh@.take(i + 1) =~= self.fresh@.take(i as int).push(
                self.fresh@[i as int],
            ));
            i += 1;
        }
        assert(fresh@ =~= self.fresh@);
        BookChunk {
            base: self.base,
            bids: ladder::copied(self.bids.as_slice()),
            asks: ladder::copied(self.asks.as_slice()),
            seq: self.seq,
            contiguous: self.contiguous,
            span: self.span,
            fresh,
            prev_bids: ladder::copied(self.prev_bids.as_slice()),
            prev_asks: ladder::copied(self.prev_asks.as_slice()),
            prev_seq: self.prev_seq,
            prev_contiguous: self.prev_contiguous,
        }
    }

    /// This tick's rows: the incremental path, for a book that never went dark.
    pub fn fresh(&self) -> (r: &[BookDelta])
        ensures
            r@ == self@.fresh,
    {
        self.fresh.as_slice()
    }

    /// The period's net levels, within one period in no meaningful order: they are absolute sets on
    /// distinct keys, so applying them in any order lands in the same book. `joined` prepends the
    /// period before, and *that* order is load-bearing: a key touched in both must end at the later
    /// value.
    pub fn net(&self, joined: bool) -> (r: Vec<(Side, i32, u32)>)
        requires
            self.wf(),
        ensures
            r@ == self@.net(joined),
    {
        proof {
            ladder::lemma_listing(Side::Sell, self.bids@);
            ladder::lemma_listing(Side::Sell, self.asks@);
            ladder::lemma_listing(Side::Sell, self.prev_bids@);
            ladder::lemma_listing(Side::Sell, self.prev_asks@);
        }
        let mut out: Vec<(Side, i32, u32)> = Vec::new();
        if joined {
            append_side(&mut out, Side::Buy, &self.prev_bids);
            append_side(&mut out, Side::Sell, &self.prev_asks);
        }
        append_side(&mut out, Side::Buy, &self.bids);
        append_side(&mut out, Side::Sell, &self.asks);
        assert(out@ =~= self@.net(joined));
        out
    }

    /// The net levels of one side, ascending.
    pub(crate) fn side_net(&self, side: Side) -> (r: &[(i32, u32)])
        requires
            self.wf(),
        ensures
            best_first(Side::Sell, r@),
            levels(r@) == (match side {
                Side::Buy => self@.bids,
                Side::Sell => self@.asks,
            }),
    {
        match side {
            Side::Buy => self.bids.as_slice(),
            Side::Sell => self.asks.as_slice(),
        }
    }

    /// The net levels one side had in the period before, ascending.
    pub(crate) fn prev_side_net(&self, side: Side) -> (r: &[(i32, u32)])
        requires
            self.wf(),
        ensures
            best_first(Side::Sell, r@),
            levels(r@) == (match side {
                Side::Buy => self@.prev_bids,
                Side::Sell => self@.prev_asks,
            }),
    {
        match side {
            Side::Buy => self.prev_bids.as_slice(),
            Side::Sell => self.prev_asks.as_slice(),
        }
    }

    /// The seqs a two-period net speaks for, `None` unless the previous period meets this one and
    /// both ran unbroken: a net missing rows cannot stand in for them, and neither can two nets that
    /// do not join.
    pub fn joined(&self) -> (r: Option<Range<u64>>)
        requires
            self@.prev_seq is Some && self@.seq is Some && self@.prev_contiguous && self@.contiguous
                ==> self@.prev_seq->Some_0.1 < u64::MAX,
        ensures
            bounds(r) == self@.joined(),
    {
        match (self.prev_seq, self.seq) {
            (Some(prev), Some(cur)) => {
                if self.prev_contiguous && self.contiguous && prev.1 + 1 == cur.0 {
                    Some(prev.0..cur.1)
                } else {
                    None
                }
            },
            _ => None,
        }
    }

    /// What the retention actually costs: levels, not rows.
    pub fn levels(&self) -> (r: usize)
        requires
            self.wf(),
            listing(Side::Sell, self@.bids).len() + listing(Side::Sell, self@.asks).len() + listing(
                Side::Sell,
                self@.prev_bids,
            ).len() + listing(Side::Sell, self@.prev_asks).len() <= usize::MAX,
        ensures
            r == listing(Side::Sell, self@.bids).len() + listing(Side::Sell, self@.asks).len()
                + listing(Side::Sell, self@.prev_bids).len() + listing(
                Side::Sell,
                self@.prev_asks,
            ).len(),
    {
        proof {
            ladder::lemma_listing(Side::Sell, self.bids@);
            ladder::lemma_listing(Side::Sell, self.asks@);
            ladder::lemma_listing(Side::Sell, self.prev_bids@);
            ladder::lemma_listing(Side::Sell, self.prev_asks@);
        }
        self.bids.len() + self.asks.len() + self.prev_bids.len() + self.prev_asks.len()
    }

    pub fn seq(&self) -> (r: Option<Range<u64>>)
        ensures
            bounds(r) == self@.seq,
    {
        match self.seq {
            Some(r) => Some(r.0..r.1),
            None => None,
        }
    }

    pub fn contiguous(&self) -> (r: bool)
        ensures
            r == self@.contiguous,
    {
        self.contiguous
    }

    pub fn span(&self) -> (r: Span<Venue>)
        ensures
            r@ == self@.span,
    {
        self.span
    }

    fn reset(&mut self, base: i64)
        requires
            old(self).wf(),
        ensures
            final(self).wf(),
            final(self)@ == old(self)@.tumble(base as int),
    {
        self.base = base;
        // swapped rather than taken, so the two periods ping-pong one pair of allocations
        core::mem::swap(&mut self.bids, &mut self.prev_bids);
        core::mem::swap(&mut self.asks, &mut self.prev_asks);
        self.prev_seq = self.seq;
        self.seq = None;
        self.prev_contiguous = self.contiguous;
        self.bids.clear();
        self.asks.clear();
        self.contiguous = true;
        self.span = Span::default();
        proof {
            ladder::lemma_no_levels(self.bids@);
            ladder::lemma_no_levels(self.asks@);
            assert(self@ =~= old(self)@.tumble(base as int));
        }
    }

    fn fold(&mut self, d: &BookDelta)
        requires
            old(self).wf(),
            old(self)@.seq is Some ==> old(self)@.span.0 <= d.ts_venue_exec@ && old(self)@.seq->Some_0.1
                < u64::MAX,
        ensures
            final(self).wf(),
            final(self)@ == old(self)@.fold(*d),
    {
        match d.side {
            Side::Buy => ladder::put(&mut self.bids, d.price, d.qty),
            Side::Sell => ladder::put(&mut self.asks, d.price, d.qty),
        }
        match self.seq {
            Some(r) => {
                self.contiguous = self.contiguous && d.monotonic_seq == r.1 + 1;
                self.span = Span::new(self.span.first, d.ts_venue_exec);
                self.seq = Some((r.0, d.monotonic_seq));
            },
            None => {
                self.span = Span::at(d.ts_venue_exec);
                self.seq = Some((d.monotonic_seq, d.monotonic_seq));
            },
        }
        assert(self@ =~= old(self)@.fold(*d));
    }
}

/// Whether a reach names a period whose length is a positive number of nanoseconds.
pub open spec fn tumbles(h: Horizon) -> bool {
    h matches Horizon::Over(tf) && 0 < tf.0 * 1_000_000 <= i64::MAX
}

/// The length of the period a reach names, in nanoseconds.
pub open spec fn period_ns(h: Horizon) -> int {
    match h {
        Horizon::Over(tf) => tf.0 * 1_000_000,
        _ => 0,
    }
}

impl Batch<BookDelta> for BookChunk {
    type View<'t> = &'t BookChunk;

    open spec fn sound(&self) -> bool {
        self.wf()
    }

    /// A chunk tumbles on a period boundary, which only [`Horizon::Over`] names.
    open spec fn can_advance(&self, fresh: Seq<BookDelta>, h: Horizon) -> bool {
        &&& self.wf()
        &&& tumbles(h)
        &&& self@.takes_all(fresh, period_ns(h))
    }

    open spec fn advances(&self, fresh: Seq<BookDelta>, h: Horizon, after: &Self) -> bool {
        &&& after.wf()
        &&& after@ == (ChunkView { fresh, ..self@.taken(fresh, period_ns(h)) })
    }

    open spec fn views<'t>(&self, h: Horizon, view: &'t BookChunk) -> bool {
        *view == *self
    }

    open spec fn narrows<'t>(view: &'t BookChunk, h: Horizon, narrowed: &'t BookChunk) -> bool {
        *narrowed == *view
    }

    proof fn narrows_to_one<'t>(view: &'t BookChunk, h: Horizon, a: &'t BookChunk, b: &'t BookChunk) {
    }

    fn advance(&mut self, fresh: &[BookDelta], h: Horizon) {
        let period: i64 = match h {
            Horizon::Over(tf) => Horizon::ns(tf),
            _ => 1,
        };
        let ghost start = self@;
        let mut i: usize = 0;
        assert(fresh@.take(0) =~= Seq::empty());
        assert(fresh@.take(fresh@.len() as int) =~= fresh@);
        while i < fresh.len()
            invariant
                i <= fresh@.len(),
                period > 0,
                self.wf(),
                start.takes_all(fresh@, period as int),
                self@ == start.taken(fresh@.take(i as int), period as int),
            decreases fresh@.len() - i,
        {
            let d: BookDelta = fresh[i];
            proof {
                lemma_takes_prefix(start, fresh@, i + 1, period as int);
                assert(fresh@.take(i + 1).drop_last() =~= fresh@.take(i as int));
                assert(fresh@.take(i + 1).last() == d);
                lemma_period_start(d.ts_venue_exec@, period as int);
            }
            let base: i64 = d.ts_venue_exec.as_nanos().checked_div_euclid(period).unwrap() * period;
            if base != self.base {
                self.reset(base);
            }
            self.fold(&d);
            i += 1;
        }
        self.fresh = vstd::slice::slice_to_vec(fresh);
        proof {
            lemma_fresh_is_apart(start, fresh@, period as int);
            assert(self@ =~= (ChunkView { fresh: fresh@, ..start.taken(fresh@, period as int) }));
        }
    }

    fn read<'t>(&'t self, h: Horizon) -> (r: &'t BookChunk)
        where BookDelta: 't,
    {
        self
    }

    /// A chunk has one meaning, so a shallower read of it is the same read: the net of a period *is*
    /// the period.
    fn narrow<'t>(view: &'t BookChunk, h: Horizon) -> (r: &'t BookChunk)
        where Self: 't, BookDelta: 't,
    {
        view
    }
}

/// A period starts at or before each of its times, and less than a period before.
proof fn lemma_period_start(ts: int, period: int)
    requires
        period > 0,
    ensures
        ts - period < period_start(ts, period) <= ts,
        ts >= 0 ==> 0 <= ts / period <= ts,
        ts < 0 ==> ts <= ts / period < 0,
{
    vstd::arithmetic::div_mod::lemma_fundamental_div_mod(ts, period);
    vstd::arithmetic::div_mod::lemma_mod_bound(ts, period);
    let q = ts / period;
    assert(q * period == period * q) by (nonlinear_arith);
    assert(ts >= 0 ==> 0 <= ts / period <= ts) by (nonlinear_arith)
        requires
            period >= 1,
    ;
    assert(ts < 0 ==> ts <= ts / period < 0) by (nonlinear_arith)
        requires
            period >= 1,
    ;
}

/// A run that can be taken in can be taken in as far as any of its rows.
proof fn lemma_takes_prefix(c: ChunkView, rows: Seq<BookDelta>, n: int, period: int)
    requires
        0 <= n <= rows.len(),
        c.takes_all(rows, period),
    ensures
        c.takes_all(rows.take(n), period),
    decreases rows.len(),
{
    if n == rows.len() {
        assert(rows.take(n) =~= rows);
    } else {
        assert(rows.drop_last().take(n) =~= rows.take(n));
        lemma_takes_prefix(c, rows.drop_last(), n, period);
    }
}

/// Folding says nothing of the rows of the tick.
proof fn lemma_fresh_is_apart(c: ChunkView, rows: Seq<BookDelta>, period: int)
    ensures
        c.taken(rows, period).fresh == c.fresh,
    decreases rows.len(),
{
    if rows.len() > 0 {
        lemma_fresh_is_apart(c, rows.drop_last(), period);
    }
}

} // verus!
