//! The book fold.

use std::collections::BTreeMap;
use vstd::prelude::*;
use vstd::std_specs::cmp::OrdSpec;
use vstd::std_specs::iter::IteratorSpec;

use crate::chunk::{BookChunk, ChunkView};
use crate::delta::BookDelta;
use crate::ladder;
use crate::ladder::{best_first, levels, listing, overlay, rank, set_level};
use crate::money::{Price, Qty};
use crate::precision::PrecisionPriceQty;
use crate::side::Side;
use crate::ts::{cover, Accumulator, Aggregate, Local, Span, Timestamped, Timestamps, Ts, Venue};

verus! {

broadcast use vstd::std_specs::btree::group_btree_axioms;

/// (price, qty) levels for both sides of an orderbook, keyed by raw price.
/// The wire/persist shape. Both maps are ascending; [`Book`] holds the same levels best-first.
#[derive(Clone, Debug)]
pub struct BookShape {
    /// Both `first`s are the start of the **current accumulation epoch**: they reset on snapshot
    /// resync, so time-since-resync (how much folded drift this book carries) is readable off the
    /// shape.
    pub ts: Aggregate,
    pub prec: PrecisionPriceQty,
    pub asks: BTreeMap<i32, u32>,
    pub bids: BTreeMap<i32, u32>,
}

impl Default for BookShape {
    fn default() -> (r: Self)
        ensures
            r.ts.venue_exec@ == (0int, 0int),
            r.ts.local_recv@ == (0int, 0int),
            r.prec == (PrecisionPriceQty {
                price: crate::precision::Precision(0),
                qty: crate::precision::Precision(0),
            }),
            r.asks@ == Map::<i32, u32>::empty(),
            r.bids@ == Map::<i32, u32>::empty(),
    {
        BookShape {
            ts: Aggregate::default(),
            prec: PrecisionPriceQty::default(),
            asks: BTreeMap::new(),
            bids: BTreeMap::new(),
        }
    }
}

impl Timestamped for BookShape {
    open spec fn stamped(&self) -> bool {
        true
    }

    open spec fn stamps(&self, r: Timestamps) -> bool {
        r == Timestamps::Accumulator(
            Accumulator { venue: self.ts.venue_exec, local: Some(self.ts.local_recv) },
        )
    }

    fn timestamps(&self) -> (r: Timestamps) {
        Timestamps::Accumulator(
            Accumulator { venue: self.ts.venue_exec, local: Some(self.ts.local_recv) },
        )
    }
}

/// Distinguishes full snapshots from incremental deltas.
/// For deltas: qty=0 means remove that price level.
#[derive(Clone, Debug)]
pub enum BookUpdate {
    Snapshot(BookShape),
    /// `gapped` is `true` when the originating WS event broke the per-pair sequence chain.
    BatchDelta { shape: BookShape, gapped: bool },
}

impl BookUpdate {
    /// The levels the update carries.
    pub open spec fn spec_shape(&self) -> BookShape {
        match self {
            BookUpdate::Snapshot(s) => *s,
            BookUpdate::BatchDelta { shape, .. } => *shape,
        }
    }

    pub fn shape(&self) -> (r: &BookShape)
        ensures
            *r == self.spec_shape(),
    {
        match self {
            BookUpdate::Snapshot(s) => s,
            BookUpdate::BatchDelta { shape, .. } => shape,
        }
    }
}

/// What a [`BookChunk`] can do for the state a [`Book`] holds.
#[derive(Clone, Copy, Debug, Eq, PartialEq, Structural)]
pub enum Reach {
    /// Fold this tick's rows on top, one by one.
    Fresh,
    /// Fold the whole period's net on top, and `prev` the one before it, which is what a sleep that
    /// crossed a boundary needs, and all it needs.
    Net { prev: bool },
    /// Neither: rows we never folded are behind what the net covers, so we are stale.
    Gone,
}

/// What a [`Book`] holds, as maps from price to quantity.
#[verifier::ext_equal]
pub struct BookView {
    pub prec: PrecisionPriceQty,
    pub bids: Map<i32, u32>,
    pub asks: Map<i32, u32>,
    pub epoch: int,
    pub synced: bool,
    pub seq: Option<int>,
    pub span: (int, int),
}

/// The levels of one side after every row of that side, in order.
pub open spec fn folded(m: Map<i32, u32>, rows: Seq<BookDelta>, side: Side) -> Map<i32, u32>
    decreases rows.len(),
{
    if rows.len() == 0 {
        m
    } else {
        let before = folded(m, rows.drop_last(), side);
        let d = rows.last();
        if d.side == side {
            set_level(before, d.price, d.qty)
        } else {
            before
        }
    }
}

impl BookView {
    /// Whether a run of rows can be folded: the book is synced, every row is at its precision, and
    /// the run does not end before it starts.
    pub open spec fn can_apply(self, rows: Seq<BookDelta>) -> bool {
        &&& self.synced
        &&& forall|i: int| 0 <= i < rows.len() ==> self.prec == #[trigger] rows[i].prec
        &&& rows.len() > 0 ==> rows[0].ts_venue_exec@ <= rows.last().ts_venue_exec@
    }

    /// The book after a run of rows.
    pub open spec fn apply(self, rows: Seq<BookDelta>) -> BookView {
        if rows.len() == 0 {
            self
        } else {
            BookView {
                bids: folded(self.bids, rows, Side::Buy),
                asks: folded(self.asks, rows, Side::Sell),
                span: cover(self.span, (rows[0].ts_venue_exec@, rows.last().ts_venue_exec@)),
                seq: Some(rows.last().monotonic_seq as int),
                ..self
            }
        }
    }

    /// The book a checkpoint seeds: a different book, so a new epoch. A checkpoint carries no
    /// element sequence; the next frame's first seq re-seeds the chain.
    pub open spec fn resync(self, s: BookShape) -> BookView {
        BookView {
            prec: s.prec,
            bids: s.bids@,
            asks: s.asks@,
            epoch: self.epoch + 1,
            synced: true,
            seq: None,
            span: s.ts.venue_exec@,
        }
    }

    /// The book after a period's net, and with `prev` the net of the period before it first.
    pub open spec fn absorb(self, chunk: ChunkView, prev: bool) -> BookView {
        if chunk.seq is None {
            self
        } else {
            let bids = if prev {
                overlay(self.bids, chunk.prev_bids)
            } else {
                self.bids
            };
            let asks = if prev {
                overlay(self.asks, chunk.prev_asks)
            } else {
                self.asks
            };
            BookView {
                bids: overlay(bids, chunk.bids),
                asks: overlay(asks, chunk.asks),
                span: cover(self.span, chunk.span),
                seq: Some(chunk.seq->Some_0.1),
                ..self
            }
        }
    }

    /// Whether the numbers after the ones the book and the chunk stand at exist.
    pub open spec fn can_reach(self, chunk: ChunkView) -> bool {
        &&& self.seq is Some && chunk.fresh.len() > 0 ==> self.seq->0 < u64::MAX
        &&& chunk.prev_seq is Some ==> chunk.prev_seq->Some_0.1 < u64::MAX
    }

    /// How far a chunk reaches back towards what the book holds.
    pub open spec fn reach(self, chunk: ChunkView) -> Reach {
        match (chunk.seq, self.seq) {
            // nothing has been folded, ever
            (None, _) => Reach::Fresh,
            // No place in the chain: a resync leaves us there. The only run we may accept is the one
            // that opens the chunk's own period.
            (Some(seq), None) => if chunk.fresh.len() == 0 || chunk.fresh[0].monotonic_seq
                == seq.0 {
                Reach::Fresh
            } else {
                Reach::Gone
            },
            (Some(seq), Some(last)) => if chunk.fresh.len() == 0 || chunk.fresh[0].monotonic_seq
                == last + 1 {
                Reach::Fresh
            } else if last > seq.1 {
                // ahead of the net, which can only mean the chain forked
                Reach::Gone
            } else if chunk.contiguous && last + 1 >= seq.0 {
                Reach::Net { prev: false }
            } else if chunk.joined() is Some && last + 1 >= chunk.joined()->Some_0.0 {
                Reach::Net { prev: true }
            } else {
                Reach::Gone
            },
        }
    }

    /// Where a book with no place in the stream stands after a checkpoint, if one came.
    pub open spec fn seeded(self, anchor: Option<BookShape>, chunk: ChunkView) -> BookView {
        match anchor {
            None => BookView { synced: false, ..self },
            Some(s) => if chunk.contiguous {
                self.resync(s).absorb(chunk, false)
            } else {
                self.resync(s).apply(chunk.fresh)
            },
        }
    }

    /// Whether a checkpoint, if one came, can be taken.
    pub open spec fn can_seed(self, anchor: Option<BookShape>, chunk: ChunkView) -> bool {
        anchor matches Some(s) ==> {
            &&& self.epoch < u64::MAX
            &&& !chunk.contiguous ==> self.resync(s).can_apply(chunk.fresh)
        }
    }

    /// Whether the book can step.
    pub open spec fn can_step(self, anchor: Option<BookShape>, chunk: ChunkView) -> bool {
        if self.synced {
            &&& self.can_reach(chunk)
            &&& match self.reach(chunk) {
                Reach::Fresh => self.can_apply(chunk.fresh),
                Reach::Net { .. } => true,
                Reach::Gone => self.can_seed(anchor, chunk),
            }
        } else {
            self.can_seed(anchor, chunk)
        }
    }

    /// The book one fold step on.
    pub open spec fn step(self, anchor: Option<BookShape>, chunk: ChunkView) -> BookView {
        if self.synced {
            match self.reach(chunk) {
                Reach::Fresh => self.apply(chunk.fresh),
                Reach::Net { prev } => self.absorb(chunk, prev),
                Reach::Gone => self.seeded(anchor, chunk),
            }
        } else {
            self.seeded(anchor, chunk)
        }
    }

    /// Whether the book can be folded forward from a resume point.
    pub open spec fn can_rewind(self, anchor: Option<BookShape>, rows: Seq<BookDelta>) -> bool {
        match anchor {
            None => self.can_apply(rows),
            Some(a) => {
                &&& self.epoch < u64::MAX
                &&& self.synced ==> self.span.0 <= a.ts.venue_exec@.1
                &&& self.resync(a).can_apply(rows)
            },
        }
    }

    /// The book rebuilt from a checkpoint without becoming a different one.
    pub open spec fn rebuilt(self, a: BookShape) -> BookView {
        let fresh = self.resync(a);
        if self.synced {
            BookView { epoch: self.epoch, span: (self.span.0, fresh.span.1), ..fresh }
        } else {
            fresh
        }
    }

    /// The book folded forward from a resume point.
    pub open spec fn rewind(self, anchor: Option<BookShape>, rows: Seq<BookDelta>) -> BookView {
        match anchor {
            None => self.apply(rows),
            Some(a) => self.rebuilt(a).apply(rows),
        }
    }

    /// Where a fold may resume it from.
    pub open spec fn resume_seq(self) -> Option<int> {
        if self.synced {
            self.seq
        } else {
            None
        }
    }
}

/// The book fold. Domain-only: it knows nothing of the graph; the graph node wraps *this* through
/// [`Book::step`], and [`ShadowBook`](crate::shadow::ShadowBook) wraps the same instance, so the
/// persisted stream and the replayed one cannot drift.
///
/// Both sides are sorted **best-first** (bids descending, asks ascending) in contiguous storage: at
/// the depth a lane carries, the memmove of an insert costs less than a B-tree's descent.
#[derive(Clone, Debug)]
pub struct Book {
    prec: PrecisionPriceQty,
    bids: Vec<(i32, u32)>,
    asks: Vec<(i32, u32)>,
    /// Bumped by every resync: a consumer can tell "same book, more levels" from "a different book".
    epoch: u64,
    synced: bool,
    seq: Option<u64>,
    span: Span<Venue>,
}

impl View for Book {
    type V = BookView;

    closed spec fn view(&self) -> BookView {
        BookView {
            prec: self.prec,
            bids: levels(self.bids@),
            asks: levels(self.asks@),
            epoch: self.epoch as int,
            synced: self.synced,
            seq: match self.seq {
                Some(n) => Some(n as int),
                None => None,
            },
            span: self.span@,
        }
    }
}

/// A book at a precision that nothing was folded into.
pub open spec fn unseeded(prec: PrecisionPriceQty) -> BookView {
    BookView {
        prec,
        bids: Map::empty(),
        asks: Map::empty(),
        epoch: 0,
        synced: false,
        seq: None,
        span: (0, 0),
    }
}

impl Default for Book {
    fn default() -> (r: Self)
        ensures
            r.wf(),
            r@ == unseeded(
                PrecisionPriceQty {
                    price: crate::precision::Precision(0),
                    qty: crate::precision::Precision(0),
                },
            ),
    {
        Book::at(PrecisionPriceQty::default())
    }
}

/// The levels of a map, in ascending order of price.
pub(crate) fn ascending(m: &BTreeMap<i32, u32>) -> (r: Vec<(i32, u32)>)
    ensures
        best_first(Side::Sell, r@),
        levels(r@) == m@,
{
    broadcast use vstd::laws_cmp::group_laws_cmp;

    let mut out: Vec<(i32, u32)> = Vec::new();
    let entries = m.iter();
    let ghost all = entries.remaining();
    let ghost keys = all.map_values(|kv: (&i32, &u32)| *kv.0);
    assert(vstd::std_specs::btree::increasing_seq(keys));
    assert(all == vstd::std_specs::btree::spec_btree_map_iter(m).remaining());
    for kv in it: entries
        invariant
            out@.len() == it.index(),
            it.seq() == all,
            forall|i: int|
                0 <= i < out@.len() ==> #[trigger] out@[i] == (*it.seq()[i].0, *it.seq()[i].1),
    {
        let (p, q) = kv;
        out.push((*p, *q));
    }
    proof {
        assert forall|i: int, j: int| 0 <= i < j < out@.len() implies rank(
            Side::Sell,
            #[trigger] out@[i].0,
        ) < rank(Side::Sell, #[trigger] out@[j].0) by {
            assert(keys[i].cmp_spec(&keys[j]) is Less);
        }
        assert forall|p: i32|
            #![trigger levels(out@).contains_key(p)]
            levels(out@).contains_key(p) == m@.contains_key(p) && (levels(out@).contains_key(p)
                ==> levels(out@)[p] == m@[p]) by {
            if levels(out@).contains_key(p) {
                let i = choose|i: int| ladder::stands(out@, p, i);
                ladder::lemma_level_at(Side::Sell, out@, i);
                assert(m@.contains_key(*all[i].0));
            }
            if m@.contains_key(p) {
                assert(all.contains((&p, &m@[p])));
                let i = choose|i: int| 0 <= i < all.len() && all[i] == (&p, &m@[p]);
                assert(out@[i].0 == p);
                ladder::lemma_level_at(Side::Sell, out@, i);
            }
        }
        ladder::lemma_same(levels(out@), m@);
    }
    out
}

impl Book {
    /// Whether both sides are held best-first.
    pub closed spec fn wf(&self) -> bool {
        &&& best_first(Side::Buy, self.bids@)
        &&& best_first(Side::Sell, self.asks@)
    }

    /// A book at a precision that nothing was folded into.
    pub fn at(prec: PrecisionPriceQty) -> (r: Self)
        ensures
            r.wf(),
            r@ == unseeded(prec),
    {
        let r = Book {
            prec,
            bids: Vec::new(),
            asks: Vec::new(),
            epoch: 0,
            synced: false,
            seq: None,
            span: Span::default(),
        };
        proof {
            ladder::lemma_no_levels(r.bids@);
            ladder::lemma_no_levels(r.asks@);
            assert(r@ =~= unseeded(prec));
        }
        r
    }

    /// The same book, owned.
    pub fn copied(&self) -> (r: Self)
        ensures
            r@ == self@,
            self.wf() ==> r.wf(),
    {
        Book {
            prec: self.prec,
            bids: ladder::copied(self.bids.as_slice()),
            asks: ladder::copied(self.asks.as_slice()),
            epoch: self.epoch,
            synced: self.synced,
            seq: self.seq,
            span: self.span,
        }
    }

    pub fn best_bid(&self) -> (r: Option<(Price, Qty)>)
        requires
            self.wf(),
        ensures
            r == self@.top(Side::Buy),
    {
        proof {
            ladder::lemma_listing(Side::Buy, self.bids@);
        }
        if self.bids.len() > 0 {
            Some(self.level(self.bids[0].0, self.bids[0].1))
        } else {
            None
        }
    }

    pub fn best_ask(&self) -> (r: Option<(Price, Qty)>)
        requires
            self.wf(),
        ensures
            r == self@.top(Side::Sell),
    {
        proof {
            ladder::lemma_listing(Side::Sell, self.asks@);
        }
        if self.asks.len() > 0 {
            Some(self.level(self.asks[0].0, self.asks[0].1))
        } else {
            None
        }
    }

    fn level(&self, price: i32, qty: u32) -> (r: (Price, Qty))
        ensures
            r == self@.level(price, qty),
    {
        (Price::new(price, self.prec.price), Qty::new(qty, self.prec.qty))
    }

    /// The bids, best-first.
    pub fn bids(&self) -> (r: &[(i32, u32)])
        requires
            self.wf(),
        ensures
            r@ == listing(Side::Buy, self@.bids),
            best_first(Side::Buy, r@),
            levels(r@) == self@.bids,
    {
        proof {
            ladder::lemma_listing(Side::Buy, self.bids@);
        }
        self.bids.as_slice()
    }

    /// The asks, best-first.
    pub fn asks(&self) -> (r: &[(i32, u32)])
        requires
            self.wf(),
        ensures
            r@ == listing(Side::Sell, self@.asks),
            best_first(Side::Sell, r@),
            levels(r@) == self@.asks,
    {
        proof {
            ladder::lemma_listing(Side::Sell, self.asks@);
        }
        self.asks.as_slice()
    }

    pub fn prec(&self) -> (r: PrecisionPriceQty)
        ensures
            r == self@.prec,
    {
        self.prec
    }

    pub fn epoch(&self) -> (r: u64)
        ensures
            r == self@.epoch,
    {
        self.epoch
    }

    /// Whether the book has a place in the stream.
    pub fn synced(&self) -> (r: bool)
        ensures
            r == self@.synced,
    {
        self.synced
    }

    /// The venue time this fold is *as of*: the newest row it has absorbed, whatever tick it is read
    /// on. A reading taken off the book is stamped with this rather than with the tick.
    pub fn ts(&self) -> (r: Ts<Venue>)
        ensures
            r@ == self@.span.1,
    {
        self.span.last
    }

    /// Where a fold may resume us from: exact, gate-aware and hole-aware, because it is written by
    /// the folds themselves. `None` before the first row, after a resync until the next one, and
    /// while desynced: three states, one answer, because to anyone asking where to resume they are
    /// the same state: we hold no place in the chain.
    pub fn seq(&self) -> (r: Option<u64>)
        ensures
            match r {
                Some(n) => self@.resume_seq() == Some(n as int),
                None => self@.resume_seq() is None,
            },
    {
        if self.synced {
            self.seq
        } else {
            None
        }
    }

    /// Fold ourselves forward over rows we were not stepped on. `anchor` is a checkpoint to rebuild
    /// from first: the resume that costs depth however long the sleep was; `None` resumes from where
    /// we already stand, which is cheaper only while the sleep was short.
    ///
    /// `rows` must be every row the resume point does not already reflect. Re-folding rows it *does*
    /// hold is free (a level is absolute in `(side, price)`, and the later row wins either way) but
    /// skipping one is not.
    ///
    /// Not a [`resync`](Self::resync), though it takes the same checkpoint: this reconstructs the
    /// state we would have held anyway, and `epoch` is a claim about *discontinuity*. A book that
    /// arrives where it was always going to arrive has not become a different book.
    pub fn rewind(&mut self, anchor: Option<&BookShape>, rows: &[BookDelta])
        requires
            old(self).wf(),
            old(self)@.can_rewind(shape_of(anchor), rows@),
        ensures
            final(self).wf(),
            final(self)@ == old(self)@.rewind(shape_of(anchor), rows@),
    {
        if let Some(a) = anchor {
            let (epoch, first, synced): (u64, Ts<Venue>, bool) = (
                self.epoch,
                self.span.first,
                self.synced,
            );
            self.resync(a);
            if synced {
                self.epoch = epoch;
                self.span = Span::new(first, self.span.last);
            }
            assert(self@ =~= old(self)@.rebuilt(*a));
        }
        self.apply(rows);
    }

    pub fn len(&self) -> (r: usize)
        requires
            self.wf(),
            self@.depth() <= usize::MAX,
        ensures
            r == self@.depth(),
    {
        proof {
            ladder::lemma_listing(Side::Buy, self.bids@);
            ladder::lemma_listing(Side::Sell, self.asks@);
        }
        self.bids.len() + self.asks.len()
    }

    pub fn is_empty(&self) -> (r: bool)
        requires
            self.wf(),
        ensures
            r == (self@.depth() == 0),
    {
        proof {
            ladder::lemma_listing(Side::Buy, self.bids@);
            ladder::lemma_listing(Side::Sell, self.asks@);
        }
        self.bids.len() == 0 && self.asks.len() == 0
    }

    /// One fold step, the whole of it. Returns whether the book is readable afterwards.
    ///
    /// One entry point rather than four public verbs: a caller that could `apply` without first
    /// asking [`Reach`] is a caller that can fold onto stale state.
    pub fn step(&mut self, anchor: Option<&BookShape>, chunk: &BookChunk) -> (r: bool)
        requires
            old(self).wf(),
            chunk.wf(),
            old(self)@.can_step(shape_of(anchor), chunk@),
        ensures
            final(self).wf(),
            final(self)@ == old(self)@.step(shape_of(anchor), chunk@),
            r == final(self)@.synced,
    {
        if self.synced {
            match self.reach(chunk) {
                // the common case, and as cheap as it ever was: awake last tick, nothing skipped.
                Reach::Fresh => {
                    self.apply(chunk.fresh());
                    return true;
                },
                // woke, or the chunk tumbled under us, but the net still reaches back over
                // everything we have not folded, so a wake costs depth, not the length of the sleep.
                Reach::Net { prev } => {
                    self.absorb(chunk, prev);
                    return true;
                },
                Reach::Gone => {
                    self.synced = false;
                },
            }
        }
        let ghost dark = self@;
        assert(dark =~= (BookView { synced: false, ..old(self)@ }));
        // A checkpoint is a seed, not an event. Our own chain is gapless, so while we are synced the
        // checkpoint is the state we already hold. We take one exactly when we have no place in the
        // stream: unseeded, or asleep past what the net covers.
        if let Some(s) = anchor {
            self.resync(s);
            assert(self@ =~= old(self)@.resync(*s));
            if chunk.contiguous() {
                // The checkpoint stands at or after the period base, and the net's every level is
                // that level's *final* value for the period, so folding it over the checkpoint is
                // idempotent where they overlap and carries it forward where they do not.
                self.absorb(chunk, false);
            } else {
                // A hole in our own recording: the net cannot speak for rows it never saw, and the
                // checkpoint can. Take only what this tick carries.
                self.apply(chunk.fresh());
            }
        }
        self.synced
    }

    /// How far this chunk reaches back towards what we hold.
    fn reach(&self, chunk: &BookChunk) -> (r: Reach)
        requires
            self@.can_reach(chunk@),
        ensures
            r == self@.reach(chunk@),
    {
        let fresh: &[BookDelta] = chunk.fresh();
        let seq = match chunk.seq() {
            Some(seq) => seq,
            None => return Reach::Fresh,
        };
        let last: u64 = match self.seq {
            Some(last) => last,
            None => {
                return if fresh.len() == 0 || fresh[0].monotonic_seq == seq.start {
                    Reach::Fresh
                } else {
                    Reach::Gone
                };
            },
        };
        if fresh.len() == 0 || fresh[0].monotonic_seq == last + 1 {
            return Reach::Fresh;
        }
        if last > seq.end {
            return Reach::Gone;
        }
        // A hole in our own recording is a hole in the net too: it cannot stand in for rows it never
        // saw, however well its seqs bracket ours.
        if chunk.contiguous() && last + 1 >= seq.start {
            return Reach::Net { prev: false };
        }
        match chunk.joined() {
            Some(j) => if last + 1 >= j.start {
                Reach::Net { prev: true }
            } else {
                Reach::Gone
            },
            None => Reach::Gone,
        }
    }

    /// Take the period's net, wholesale. O(depth), and independent of how long we were away.
    fn absorb(&mut self, chunk: &BookChunk, prev: bool)
        requires
            old(self).wf(),
            chunk.wf(),
        ensures
            final(self).wf(),
            final(self)@ == old(self)@.absorb(chunk@, prev),
    {
        let seq = match chunk.seq() {
            Some(seq) => seq,
            None => return ,
        };
        if prev {
            ladder::set_all(&mut self.bids, Side::Buy, chunk.prev_side_net(Side::Buy));
            ladder::set_all(&mut self.asks, Side::Sell, chunk.prev_side_net(Side::Sell));
        }
        ladder::set_all(&mut self.bids, Side::Buy, chunk.side_net(Side::Buy));
        ladder::set_all(&mut self.asks, Side::Sell, chunk.side_net(Side::Sell));
        self.span = self.span.including(chunk.span());
        self.seq = Some(seq.end);
        assert(self@ =~= old(self)@.absorb(chunk@, prev));
    }

    pub(crate) fn resync(&mut self, s: &BookShape)
        requires
            old(self)@.epoch < u64::MAX,
        ensures
            final(self).wf(),
            final(self)@ == old(self)@.resync(*s),
    {
        self.prec = s.prec;
        let up: Vec<(i32, u32)> = ascending(&s.bids);
        self.bids = reversed(&up);
        self.asks = ascending(&s.asks);
        self.span = s.ts.venue_exec;
        self.epoch = self.epoch + 1;
        self.synced = true;
        self.seq = None;
        assert(self@ =~= old(self)@.resync(*s));
    }

    /// Let go of every level at quantity zero: a delta's way of saying that there is none.
    pub(crate) fn shed(&mut self)
        requires
            old(self).wf(),
        ensures
            final(self).wf(),
            final(self)@ == (BookView {
                bids: overlay(Map::empty(), old(self)@.bids),
                asks: overlay(Map::empty(), old(self)@.asks),
                ..old(self)@
            }),
    {
        self.bids = ladder::shed(self.bids.as_slice(), Side::Buy);
        self.asks = ladder::shed(self.asks.as_slice(), Side::Sell);
    }

    /// Both kinds fold identically: a correction's levels are levels. What the kind decides is
    /// whether a *derivation* downstream may read them as market activity.
    pub(crate) fn apply(&mut self, rows: &[BookDelta])
        requires
            old(self).wf(),
            old(self)@.can_apply(rows@),
        ensures
            final(self).wf(),
            final(self)@ == old(self)@.apply(rows@),
    {
        if rows.len() == 0 {
            return ;
        }
        let ghost start = self@;
        let mut i: usize = 0;
        assert(rows@.take(0) =~= Seq::empty());
        while i < rows.len()
            invariant
                i <= rows@.len(),
                self.wf(),
                self@ == (BookView {
                    bids: folded(start.bids, rows@.take(i as int), Side::Buy),
                    asks: folded(start.asks, rows@.take(i as int), Side::Sell),
                    ..start
                }),
            decreases rows@.len() - i,
        {
            let d: BookDelta = rows[i];
            let ghost at = self@;
            assert(rows@.take(i + 1).drop_last() =~= rows@.take(i as int));
            assert(rows@.take(i + 1).last() == d);
            self.set(d.side, d.price, d.qty);
            i += 1;
            assert(self@ =~= (BookView {
                bids: folded(start.bids, rows@.take(i as int), Side::Buy),
                asks: folded(start.asks, rows@.take(i as int), Side::Sell),
                ..start
            }));
        }
        assert(rows@.take(rows@.len() as int) =~= rows@);
        let first: BookDelta = rows[0];
        let last: BookDelta = rows[rows.len() - 1];
        self.span = self.span.including(Span::new(first.ts_venue_exec, last.ts_venue_exec));
        self.seq = Some(last.monotonic_seq);
        assert(self@ =~= start.apply(rows@));
    }

    /// One level, absolutely: `qty == 0` deletes.
    fn set(&mut self, side: Side, price: i32, qty: u32)
        requires
            old(self).wf(),
        ensures
            final(self).wf(),
            final(self)@ == (match side {
                Side::Buy => BookView {
                    bids: set_level(old(self)@.bids, price, qty),
                    ..old(self)@
                },
                Side::Sell => BookView {
                    asks: set_level(old(self)@.asks, price, qty),
                    ..old(self)@
                },
            }),
    {
        match side {
            Side::Buy => {
                ladder::set(&mut self.bids, side, price, qty);
                assert(self@ =~= (BookView {
                    bids: set_level(old(self)@.bids, price, qty),
                    ..old(self)@
                }));
            },
            Side::Sell => {
                ladder::set(&mut self.asks, side, price, qty);
                assert(self@ =~= (BookView {
                    asks: set_level(old(self)@.asks, price, qty),
                    ..old(self)@
                }));
            },
        }
    }

    /// The book as a checkpoint of it is written.
    pub fn shape(&self, recv: Ts<Local>, epoch_start: Ts<Local>) -> (r: BookShape)
        requires
            self.wf(),
            epoch_start@ <= recv@,
        ensures
            r.ts.venue_exec@ == self@.span,
            r.ts.local_recv@ == (epoch_start@, recv@),
            r.prec == self@.prec,
            r.bids@ == self@.bids,
            r.asks@ == self@.asks,
    {
        BookShape {
            ts: Aggregate { venue_exec: self.span, local_recv: Span::new(epoch_start, recv) },
            prec: self.prec,
            bids: collected(&self.bids, Side::Buy),
            asks: collected(&self.asks, Side::Sell),
        }
    }
}

/// The shape an optional anchor stands for.
pub open spec fn shape_of(anchor: Option<&BookShape>) -> Option<BookShape> {
    match anchor {
        Some(s) => Some(*s),
        None => None,
    }
}

impl BookView {
    /// A raw level at the book's precision.
    pub open spec fn level(self, price: i32, qty: u32) -> (Price, Qty) {
        (
            Price(crate::money::pi32 { raw: price, prec: self.prec.price }),
            Qty(crate::money::pu32 { raw: qty, prec: self.prec.qty }),
        )
    }

    /// The levels of one side.
    pub open spec fn side(self, side: Side) -> Map<i32, u32> {
        match side {
            Side::Buy => self.bids,
            Side::Sell => self.asks,
        }
    }

    /// The best level of one side.
    pub open spec fn top(self, side: Side) -> Option<(Price, Qty)> {
        let s = listing(side, self.side(side));
        if s.len() > 0 {
            Some(self.level(s[0].0, s[0].1))
        } else {
            None
        }
    }

    /// How many levels the book holds.
    pub open spec fn depth(self) -> nat {
        listing(Side::Buy, self.bids).len() + listing(Side::Sell, self.asks).len()
    }
}

/// Ascending levels turned round.
pub(crate) fn reversed(up: &Vec<(i32, u32)>) -> (r: Vec<(i32, u32)>)
    requires
        best_first(Side::Sell, up@),
    ensures
        best_first(Side::Buy, r@),
        levels(r@) == levels(up@),
{
    let mut out: Vec<(i32, u32)> = Vec::new();
    let n: usize = up.len();
    let mut i: usize = 0;
    while i < n
        invariant
            i <= n == up@.len(),
            out@.len() == i,
            forall|k: int| 0 <= k < i ==> #[trigger] out@[k] == up@[n - 1 - k],
        decreases n - i,
    {
        out.push(up[n - 1 - i]);
        i += 1;
    }
    proof {
        assert forall|a: int, b: int| 0 <= a < b < out@.len() implies rank(
            Side::Buy,
            #[trigger] out@[a].0,
        ) < rank(Side::Buy, #[trigger] out@[b].0) by {
            assert(out@[a] == up@[n - 1 - a] && out@[b] == up@[n - 1 - b]);
        }
        assert forall|p: i32|
            #![trigger levels(out@).contains_key(p)]
            levels(out@).contains_key(p) == levels(up@).contains_key(p) && (levels(
                out@,
            ).contains_key(p) ==> levels(out@)[p] == levels(up@)[p]) by {
            if levels(out@).contains_key(p) {
                let k = choose|k: int| ladder::stands(out@, p, k);
                ladder::lemma_level_at(Side::Buy, out@, k);
                assert(out@[k] == up@[n - 1 - k]);
                ladder::lemma_level_at(Side::Sell, up@, n - 1 - k);
            }
            if levels(up@).contains_key(p) {
                let k = choose|k: int| ladder::stands(up@, p, k);
                assert(out@[n - 1 - k] == up@[k]);
                ladder::lemma_level_at(Side::Buy, out@, n - 1 - k);
            }
        }
        ladder::lemma_same(levels(out@), levels(up@));
    }
    out
}

/// Prices are keys a map can order.
proof fn lemma_prices_order()
    ensures
        vstd::laws_cmp::obeys_cmp::<i32>(),
{
    broadcast use vstd::laws_cmp::group_laws_cmp;

}

/// The map of a run of levels.
fn collected(s: &Vec<(i32, u32)>, side: Side) -> (m: BTreeMap<i32, u32>)
    requires
        best_first(side, s@),
    ensures
        m@ == levels(s@),
{
    let mut m: BTreeMap<i32, u32> = BTreeMap::new();
    proof {
        lemma_prices_order();
        ladder::lemma_no_levels(s@.take(0));
    }
    let mut i: usize = 0;
    while i < s.len()
        invariant
            i <= s@.len(),
            best_first(side, s@),
            m@ == levels(s@.take(i as int)),
        decreases s@.len() - i,
    {
        let (p, q): (i32, u32) = s[i];
        proof {
            lemma_prices_order();
            ladder::lemma_push(side, s@, i as int);
        }
        m.insert(p, q);
        i += 1;
    }
    assert(s@.take(s@.len() as int) =~= s@);
    m
}

} // verus!
