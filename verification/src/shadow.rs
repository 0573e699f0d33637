//! Our own recollection of a venue's book.

use vstd::prelude::*;

use crate::book::{ascending, unseeded, Book, BookShape, BookUpdate, BookView};
use crate::chunk::sided;
use crate::delta::{BookDelta, FrameKind};
use crate::ladder;
use crate::ladder::{best_first, levels, listing, overlay};
use crate::precision::PrecisionPriceQty;
use crate::side::Side;
use crate::ts::{Exact, Local, Ts, Venue};
use std::collections::BTreeMap;

verus! {

broadcast use vstd::std_specs::btree::group_btree_axioms;

/// Whether `ours` holds a level just as it is.
pub open spec fn agrees(ours: Map<i32, u32>, level: (i32, u32)) -> bool {
    ours.contains_key(level.0) && ours[level.0] == level.1
}

/// The levels of `theirs` that `ours` does not hold just as they are.
pub open spec fn changed(ours: Map<i32, u32>, theirs: Seq<(i32, u32)>) -> Seq<(i32, u32)>
    decreases theirs.len(),
{
    if theirs.len() == 0 {
        Seq::empty()
    } else {
        let before = changed(ours, theirs.drop_last());
        if agrees(ours, theirs.last()) {
            before
        } else {
            before.push(theirs.last())
        }
    }
}

/// A deletion of each level of `ours` that `theirs` does not hold at all.
pub open spec fn gone(ours: Seq<(i32, u32)>, theirs: Map<i32, u32>) -> Seq<(i32, u32)>
    decreases ours.len(),
{
    if ours.len() == 0 {
        Seq::empty()
    } else {
        let before = gone(ours.drop_last(), theirs);
        if theirs.contains_key(ours.last().0) {
            before
        } else {
            before.push((ours.last().0, 0))
        }
    }
}

/// The levels that carry one side onto another: theirs where they differ, then deletions.
pub open spec fn side_diff(side: Side, ours: Map<i32, u32>, theirs: Map<i32, u32>) -> Seq<
    (i32, u32),
> {
    changed(ours, listing(Side::Sell, theirs)) + gone(listing(side, ours), theirs)
}

/// The levels that carry a book onto a shape.
pub open spec fn diff_of(book: BookView, other: BookShape) -> Seq<(Side, i32, u32)> {
    sided(Side::Buy, side_diff(Side::Buy, book.bids, other.bids@)) + sided(
        Side::Sell,
        side_diff(Side::Sell, book.asks, other.asks@),
    )
}

/// Whether setting a level would change a side: a quantity it does not hold just so, or the removal
/// of a level it holds.
pub open spec fn tells(ours: Map<i32, u32>, level: (i32, u32)) -> bool {
    if level.1 == 0 {
        ours.contains_key(level.0)
    } else {
        !agrees(ours, level)
    }
}

/// Whether some level of a run would change a book.
pub open spec fn any_told(book: BookView, list: Seq<(Side, i32, u32)>) -> bool {
    exists|i: int| 0 <= i < list.len() && #[trigger] told(book, list[i])
}

/// Whether a level would change the side of a book it is on.
pub open spec fn told(book: BookView, level: (Side, i32, u32)) -> bool {
    tells(book.side(level.0), (level.1, level.2))
}

/// The levels of one side that an update lists for a book that has a place in the stream: a
/// snapshot's where the two differ, and a delta's as they come.
pub open spec fn listed_levels(book: BookView, u: BookUpdate, side: Side) -> Seq<(i32, u32)> {
    match (u, side) {
        (BookUpdate::Snapshot(s), Side::Buy) => side_diff(side, book.bids, s.bids@),
        (BookUpdate::Snapshot(s), Side::Sell) => side_diff(side, book.asks, s.asks@),
        (BookUpdate::BatchDelta { shape, .. }, Side::Buy) => listing(Side::Sell, shape.bids@),
        (BookUpdate::BatchDelta { shape, .. }, Side::Sell) => listing(Side::Sell, shape.asks@),
    }
}

/// The levels that an update lists for a book that has a place in the stream, bids before asks.
pub open spec fn all_listed(book: BookView, u: BookUpdate) -> Seq<(Side, i32, u32)> {
    sided(Side::Buy, listed_levels(book, u, Side::Buy)) + sided(
        Side::Sell,
        listed_levels(book, u, Side::Sell),
    )
}

/// The levels an update comes to on a book that has a place in the stream: all it lists where any of
/// them would change the book, and none where none would.
pub open spec fn update_levels(book: BookView, u: BookUpdate) -> Seq<(Side, i32, u32)> {
    if any_told(book, all_listed(book, u)) {
        all_listed(book, u)
    } else {
        Seq::empty()
    }
}

/// What one side of an epoch starts from: a snapshot's levels, or those a delta does not remove.
pub open spec fn seed_levels(u: BookUpdate, side: Side) -> Map<i32, u32> {
    match (u, side) {
        (BookUpdate::Snapshot(s), Side::Buy) => s.bids@,
        (BookUpdate::Snapshot(s), Side::Sell) => s.asks@,
        (BookUpdate::BatchDelta { shape, .. }, Side::Buy) => overlay(Map::empty(), shape.bids@),
        (BookUpdate::BatchDelta { shape, .. }, Side::Sell) => overlay(Map::empty(), shape.asks@),
    }
}

/// What the rows of an update are: a snapshot that disagrees and a gap are ours to reconcile.
pub open spec fn update_kind(u: BookUpdate) -> FrameKind {
    match u {
        BookUpdate::Snapshot(_) => FrameKind::Correction,
        BookUpdate::BatchDelta { gapped, .. } => if gapped {
            FrameKind::Correction
        } else {
            FrameKind::Update
        },
    }
}

/// A run of levels written as rows, numbered after `seq`.
pub open spec fn rows_of(
    levels: Seq<(Side, i32, u32)>,
    prec: PrecisionPriceQty,
    exec_at: Ts<Venue>,
    recv: Ts<Local>,
    seq: int,
    kind: FrameKind,
) -> Seq<BookDelta> {
    Seq::new(
        levels.len(),
        |i: int|
            BookDelta {
                prec,
                ts_venue_exec: exec_at,
                ts_local_recv: recv,
                monotonic_seq: (seq + 1 + i) as u64,
                kind,
                side: levels[i].0,
                price: levels[i].1,
                qty: levels[i].2,
            },
    )
}

/// Append one side of a diff.
fn diff_side(
    out: &mut Vec<(Side, i32, u32)>,
    side: Side,
    ours: &[(i32, u32)],
    theirs: &BTreeMap<i32, u32>,
)
    requires
        best_first(side, ours@),
    ensures
        final(out)@ == old(out)@ + sided(side, side_diff(side, levels(ours@), theirs@)),
{
    let ghost before = out@;
    let listed: Vec<(i32, u32)> = ascending(theirs);
    let ghost mine = levels(ours@);
    proof {
        ladder::lemma_listing(Side::Sell, listed@);
        ladder::lemma_listing(side, ours@);
        assert(listed@.take(0) =~= Seq::empty());
        assert(out@ =~= before + sided(side, changed(mine, listed@.take(0))));
    }
    let mut i: usize = 0;
    while i < listed.len()
        invariant
            i <= listed@.len(),
            best_first(side, ours@),
            mine == levels(ours@),
            out@ == before + sided(side, changed(mine, listed@.take(i as int))),
        decreases listed@.len() - i,
    {
        let (p, q): (i32, u32) = listed[i];
        let held: bool = match ladder::seek(ours, side, p) {
            Ok(j) => {
                proof {
                    ladder::lemma_level_at(side, ours@, j as int);
                }
                ours[j].1 == q
            },
            Err(j) => {
                proof {
                    assert forall|k: int| 0 <= k < ours@.len() implies #[trigger] ours@[k].0 != p by {}
                    ladder::lemma_level_absent(ours@, p);
                }
                false
            },
        };
        assert(listed@.take(i + 1).drop_last() =~= listed@.take(i as int));
        assert(listed@.take(i + 1).last() == (p, q));
        assert(held == agrees(mine, (p, q)));
        if !held {
            out.push((side, p, q));
        }
        i += 1;
        assert(out@ =~= before + sided(side, changed(mine, listed@.take(i as int))));
    }
    assert(listed@.take(listed@.len() as int) =~= listed@);
    let ghost first = changed(mine, listed@);
    let mut k: usize = 0;
    assert(ours@.take(0) =~= Seq::empty());
    assert(out@ =~= before + sided(side, first + gone(ours@.take(0), theirs@)));
    while k < ours.len()
        invariant
            k <= ours@.len(),
            out@ == before + sided(side, first + gone(ours@.take(k as int), theirs@)),
        decreases ours@.len() - k,
    {
        let p: i32 = ours[k].0;
        assert(ours@.take(k + 1).drop_last() =~= ours@.take(k as int));
        assert(ours@.take(k + 1).last() == ours@[k as int]);
        if !holds(theirs, p) {
            out.push((side, p, 0));
        }
        k += 1;
        assert(out@ =~= before + sided(side, first + gone(ours@.take(k as int), theirs@)));
    }
    assert(ours@.take(ours@.len() as int) =~= ours@);
}

/// Whether a map has a level at a price.
fn holds(m: &BTreeMap<i32, u32>, price: i32) -> (r: bool)
    ensures
        r == m@.contains_key(price),
{
    broadcast use vstd::laws_cmp::group_laws_cmp;

    m.contains_key(&price)
}

/// Whether setting a level would change a side held best-first.
fn is_news(ours: &[(i32, u32)], side: Side, price: i32, qty: u32) -> (r: bool)
    requires
        best_first(side, ours@),
    ensures
        r == tells(levels(ours@), (price, qty)),
{
    match ladder::seek(ours, side, price) {
        Ok(j) => {
            proof {
                ladder::lemma_level_at(side, ours@, j as int);
            }
            qty == 0 || ours[j].1 != qty
        },
        Err(j) => {
            proof {
                assert forall|k: int| 0 <= k < ours@.len() implies #[trigger] ours@[k].0 != price by {}
                ladder::lemma_level_absent(ours@, price);
            }
            qty != 0
        },
    }
}

/// Append the levels of a map.
fn list_side(out: &mut Vec<(Side, i32, u32)>, side: Side, m: &BTreeMap<i32, u32>)
    ensures
        final(out)@ == old(out)@ + sided(side, listing(Side::Sell, m@)),
{
    let ghost before = out@;
    let listed: Vec<(i32, u32)> = ascending(m);
    proof {
        ladder::lemma_listing(Side::Sell, listed@);
        assert(out@ =~= before + sided(side, listed@.take(0)));
    }
    let mut i: usize = 0;
    while i < listed.len()
        invariant
            i <= listed@.len(),
            out@ == before + sided(side, listed@.take(i as int)),
        decreases listed@.len() - i,
    {
        let (p, q): (i32, u32) = listed[i];
        out.push((side, p, q));
        i += 1;
        assert(out@ =~= before + sided(side, listed@.take(i as int)));
    }
    assert(listed@.take(listed@.len() as int) =~= listed@);
}

impl Book {
    /// The levels that would carry `self` onto `other`, as raw (price, qty) pairs per side.
    pub fn diff(&self, other: &BookShape) -> (r: Vec<(Side, i32, u32)>)
        requires
            self.wf(),
        ensures
            r@ == diff_of(self@, *other),
    {
        let mut out: Vec<(Side, i32, u32)> = Vec::new();
        diff_side(&mut out, Side::Buy, self.bids(), &other.bids);
        diff_side(&mut out, Side::Sell, self.asks(), &other.asks);
        assert(out@ =~= diff_of(self@, *other));
        out
    }

    /// Whether any of a run of levels would change the book.
    fn learns(&self, list: &Vec<(Side, i32, u32)>) -> (r: bool)
        requires
            self.wf(),
        ensures
            r == any_told(self@, list@),
    {
        let mut i: usize = 0;
        while i < list.len()
            invariant
                i <= list@.len(),
                self.wf(),
                forall|j: int| 0 <= j < i ==> !#[trigger] told(self@, list@[j]),
            decreases list@.len() - i,
        {
            let (side, price, qty): (Side, i32, u32) = list[i];
            let held: &[(i32, u32)] = match side {
                Side::Buy => self.bids(),
                Side::Sell => self.asks(),
            };
            if is_news(held, side, price, qty) {
                assert(told(self@, list@[i as int]));
                return true;
            }
            i += 1;
        }
        false
    }
}

/// What a [`ShadowBook`] holds.
#[verifier::ext_equal]
pub struct ShadowView {
    pub book: BookView,
    pub seq: int,
    pub cadence: int,
    pub epoch_start: Option<int>,
    pub checkpointed: Option<int>,
}

/// We persist our own recollection, not the venue's story. A gap or a resync is a fact about our
/// connection; stored raw, every replay would re-derive the reconciliation from whatever venue
/// snapshots happened to land. Reconciled once here, replay is exact and free.
///
/// Venue snapshots are consumed, never emitted: checkpoints are ours, on our cadence.
pub struct ShadowBook {
    book: Book,
    out: Vec<BookDelta>,
    seq: u64,
    cadence: Exact,
    epoch_start: Option<Ts<Local>>,
    /// The `cadence` period a checkpoint has already been written in, floored from the epoch.
    checkpointed: Option<i64>,
}

impl View for ShadowBook {
    type V = ShadowView;

    closed spec fn view(&self) -> ShadowView {
        ShadowView {
            book: self.book@,
            seq: self.seq as int,
            cadence: self.cadence@,
            epoch_start: match self.epoch_start {
                Some(t) => Some(t@),
                None => None,
            },
            checkpointed: match self.checkpointed {
                Some(n) => Some(n as int),
                None => None,
            },
        }
    }
}

impl ShadowView {
    /// The recollection once an update has opened an epoch.
    pub open spec fn seeded(self, u: BookUpdate, recv: int) -> ShadowView {
        ShadowView {
            book: BookView {
                bids: seed_levels(u, Side::Buy),
                asks: seed_levels(u, Side::Sell),
                ..self.book.resync(u.spec_shape())
            },
            epoch_start: Some(recv),
            checkpointed: None,
            ..self
        }
    }

    /// The rows an update is written as.
    pub open spec fn rows(self, u: BookUpdate, recv: Ts<Local>) -> Seq<BookDelta> {
        rows_of(
            update_levels(self.book, u),
            self.book.prec,
            u.spec_shape().ts.venue_exec.last,
            recv,
            self.seq,
            update_kind(u),
        )
    }

    /// Whether the numbers an update needs exist.
    pub open spec fn can_ingest(self, u: BookUpdate) -> bool {
        if self.book.synced {
            self.seq + update_levels(self.book, u).len() <= u64::MAX
        } else {
            self.book.epoch < u64::MAX
        }
    }

    /// The recollection after an update.
    pub open spec fn ingested(self, u: BookUpdate, recv: Ts<Local>) -> ShadowView {
        if !self.book.synced {
            self.seeded(u, recv@)
        } else {
            ShadowView {
                book: self.book.apply(self.rows(u, recv)),
                seq: self.seq + update_levels(self.book, u).len(),
                ..self
            }
        }
    }

    /// The cadence period a time lies in.
    pub open spec fn period(self, recv: int) -> int {
        recv / self.cadence
    }

    /// Whether a checkpoint is due.
    pub open spec fn due(self, recv: int) -> bool {
        self.book.synced && self.checkpointed != Some(self.period(recv))
    }
}

impl ShadowBook {
    /// Whether the book is sound, and an epoch is open exactly while it is synced.
    pub closed spec fn wf(&self) -> bool {
        &&& self.book.wf()
        &&& self.book@.synced == (self.epoch_start is Some)
    }

    pub fn new(prec: PrecisionPriceQty, cadence: Exact) -> (r: Self)
        ensures
            r.wf(),
            r@ == (ShadowView {
                book: unseeded(prec),
                seq: 0,
                cadence: cadence@,
                epoch_start: None,
                checkpointed: None,
            }),
    {
        ShadowBook {
            book: Book::at(prec),
            out: Vec::new(),
            seq: 0,
            cadence,
            epoch_start: None,
            checkpointed: None,
        }
    }

    pub fn book(&self) -> (r: &Book)
        requires
            self.wf(),
        ensures
            r.wf(),
            r@ == self@.book,
    {
        &self.book
    }

    /// Our checkpoint, due once per `cadence` *period* on a synced book: the boundary floored from
    /// the epoch, not the time elapsed since the last one. Absolute because the reader's own
    /// retention tumbles on that same grid: a book waking mid-period needs a checkpoint taken inside
    /// it, and a relative cadence only promises one within a cadence of *some* earlier write.
    ///
    /// Still emitted on arrival and never batched: the first arrival past a boundary carries it.
    pub fn checkpoint(&mut self, recv: Ts<Local>) -> (r: Option<BookShape>)
        requires
            old(self).wf(),
            old(self)@.book.synced ==> old(self)@.cadence > 0,
            old(self)@.due(recv@) ==> old(self)@.epoch_start is Some
                && old(self)@.epoch_start->0 <= recv@,
        ensures
            final(self).wf(),
            r is Some <==> old(self)@.due(recv@),
            final(self)@ == (if old(self)@.due(recv@) {
                ShadowView { checkpointed: Some(old(self)@.period(recv@)), ..old(self)@ }
            } else {
                old(self)@
            }),
            r matches Some(s) ==> {
                &&& s.bids@ == old(self)@.book.bids
                &&& s.asks@ == old(self)@.book.asks
                &&& s.prec == old(self)@.book.prec
                &&& s.ts.venue_exec@ == old(self)@.book.span
                &&& s.ts.local_recv@ == (old(self)@.epoch_start->0, recv@)
            },
    {
        if !self.book.synced() {
            return None;
        }
        let period: i64 = self.cadence.as_nanos();
        proof {
            let n = recv@;
            let p = period as int;
            assert(n >= 0 ==> 0 <= n / p <= n) by (nonlinear_arith)
                requires
                    p >= 1,
            ;
            assert(n < 0 ==> n <= n / p < 0) by (nonlinear_arith)
                requires
                    p >= 1,
            ;
        }
        let base: i64 = recv.as_nanos().checked_div_euclid(period).unwrap();
        if let Some(done) = self.checkpointed {
            if done == base {
                return None;
            }
        }
        self.checkpointed = Some(base);
        let start: Ts<Local> = self.epoch_start.unwrap();
        Some(self.book.shape(recv, start))
    }

    /// Consume one venue update, emit ours. `None` when the venue told us nothing we did not
    /// already hold: an agreeing snapshot is not an event, and neither is a delta that restates what
    /// stands or removes what does not.
    pub fn ingest(&mut self, u: &BookUpdate, recv: Ts<Local>) -> (r: Option<&[BookDelta]>)
        requires
            old(self).wf(),
            old(self)@.can_ingest(*u),
        ensures
            final(self).wf(),
            final(self)@ == old(self)@.ingested(*u, recv),
            r is Some <==> old(self)@.book.synced && update_levels(old(self)@.book, *u).len() > 0,
            r matches Some(rows) ==> rows@ == old(self)@.rows(*u, recv),
    {
        self.out.clear();
        if !self.book.synced() {
            // An unseeded book has no chain to reconcile against, so the venue's own resync is ours;
            // and a delta before any snapshot *is* the start of the epoch.
            self.seed(u, recv);
            return None;
        }
        let (kind, list): (FrameKind, Vec<(Side, i32, u32)>) = match u {
            BookUpdate::Snapshot(s) => (FrameKind::Correction, self.book.diff(s)),
            BookUpdate::BatchDelta { shape, gapped } => {
                let kind: FrameKind = if *gapped {
                    FrameKind::Correction
                } else {
                    FrameKind::Update
                };
                let mut list: Vec<(Side, i32, u32)> = Vec::new();
                list_side(&mut list, Side::Buy, &shape.bids);
                list_side(&mut list, Side::Sell, &shape.asks);
                (kind, list)
            },
        };
        assert(list@ =~= all_listed(self.book@, *u));
        let ghost rows = old(self)@.rows(*u, recv);
        if !self.book.learns(&list) {
            assert(rows =~= Seq::empty());
            assert(self@ =~= old(self)@.ingested(*u, recv));
            return None;
        }
        let exec_at: Ts<Venue> = u.shape().ts.venue_exec.last;
        let prec: PrecisionPriceQty = self.book.prec();
        let mut i: usize = 0;
        while i < list.len()
            invariant
                i <= list@.len(),
                list@ == update_levels(old(self)@.book, *u),
                rows == old(self)@.rows(*u, recv),
                old(self)@.seq + list@.len() <= u64::MAX,
                kind == update_kind(*u),
                prec == old(self)@.book.prec,
                exec_at == u.spec_shape().ts.venue_exec.last,
                self.book == old(self).book,
                self.cadence == old(self).cadence,
                self.epoch_start == old(self).epoch_start,
                self.checkpointed == old(self).checkpointed,
                self.seq == old(self)@.seq + i,
                self.out@ == rows.take(i as int),
            decreases list@.len() - i,
        {
            let (side, price, qty): (Side, i32, u32) = list[i];
            self.seq = self.seq + 1;
            self.out.push(
                BookDelta {
                    prec,
                    ts_venue_exec: exec_at,
                    ts_local_recv: recv,
                    monotonic_seq: self.seq,
                    kind,
                    side,
                    price,
                    qty,
                },
            );
            i += 1;
            assert(self.out@ =~= rows.take(i as int));
        }
        assert(self.out@ =~= rows);
        self.book.apply(self.out.as_slice());
        assert(self@ =~= old(self)@.ingested(*u, recv));
        Some(self.out.as_slice())
    }

    /// Open an epoch on an update: a snapshot as it stands, a delta without the levels it removes.
    fn seed(&mut self, u: &BookUpdate, recv: Ts<Local>)
        requires
            old(self)@.book.epoch < u64::MAX,
        ensures
            final(self).wf(),
            final(self)@ == old(self)@.seeded(*u, recv@),
    {
        self.book.resync(u.shape());
        if let BookUpdate::BatchDelta { .. } = u {
            self.book.shed();
        }
        self.epoch_start = Some(recv);
        // a fresh epoch is a fresh book, and the period it opens in has no checkpoint of *this* book
        self.checkpointed = None;
        assert(self@ =~= old(self)@.seeded(*u, recv@));
    }
}

} // verus!
