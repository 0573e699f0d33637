//! What a book quotes, what a row does to it and what a venue's frame is carried as, told in prices,
//! quantities and numbers.

use vstd::prelude::*;

use crate::book::{folded, BookShape, BookUpdate, BookView};
use crate::book_laws::listed;
use crate::chunk::{net_of, period_start, ChunkView};
use crate::delta::{BookDelta, FrameKind};
use crate::ladder::{lemma_level_absent, lemma_level_at, levels, listing, overlay, set_level};
use crate::shadow::{update_levels, ShadowView};
use crate::side::Side;
use crate::ts::{Local, Ts};

verus! {

/// The best bid is the highest price that is bid and the best ask the lowest that is asked, with the
/// quantity that stands there, at the precision of the book; a side without a level quotes nothing.
pub proof fn the_best_price_is_quoted(book: BookView, price: i32)
    requires
        listed(Side::Buy, book.bids),
        listed(Side::Sell, book.asks),
    ensures
        book.top(Side::Buy) matches Some((p, q)) ==> {
            &&& book.bids.contains_key(p.0.raw) && book.bids[p.0.raw] == q.0.raw
            &&& p.0.prec == book.prec.price && q.0.prec == book.prec.qty
            &&& book.bids.contains_key(price) ==> price <= p.0.raw
        },
        book.top(Side::Sell) matches Some((p, q)) ==> {
            &&& book.asks.contains_key(p.0.raw) && book.asks[p.0.raw] == q.0.raw
            &&& p.0.prec == book.prec.price && q.0.prec == book.prec.qty
            &&& book.asks.contains_key(price) ==> p.0.raw <= price
        },
        book.bids.contains_key(price) ==> book.top(Side::Buy) is Some,
        book.asks.contains_key(price) ==> book.top(Side::Sell) is Some,
{
    lemma_best(Side::Buy, book.bids, price);
    lemma_best(Side::Sell, book.asks, price);
}

proof fn lemma_best(side: Side, m: Map<i32, u32>, price: i32)
    requires
        listed(side, m),
    ensures
        ({
            let s = listing(side, m);
            &&& s.len() > 0 ==> m.contains_key(s[0].0) && m[s[0].0] == s[0].1
            &&& m.contains_key(price) ==> s.len() > 0 && match side {
                Side::Buy => price <= s[0].0,
                Side::Sell => s[0].0 <= price,
            }
        }),
{
    let s = listing(side, m);
    assert(levels(s) == m);
    if s.len() > 0 {
        lemma_level_at(side, s, 0);
    }
    if m.contains_key(price) {
        if forall|i: int| 0 <= i < s.len() ==> #[trigger] s[i].0 != price {
            lemma_level_absent(s, price);
        }
        let i = choose|i: int| 0 <= i < s.len() && #[trigger] s[i].0 == price;
        if i > 0 {
            assert(s[0].0 != s[i].0);
        }
    }
}

/// A side is listed from its best price on: bids from the highest down, asks from the lowest up.
pub proof fn a_side_is_listed_from_its_best_price_on(side: Side, m: Map<i32, u32>, i: int, j: int)
    requires
        listed(side, m),
        0 <= i < j < listing(side, m).len(),
    ensures
        side == Side::Buy ==> listing(side, m)[i].0 > listing(side, m)[j].0,
        side == Side::Sell ==> listing(side, m)[i].0 < listing(side, m)[j].0,
        m.contains_key(listing(side, m)[i].0),
        m[listing(side, m)[i].0] == listing(side, m)[i].1,
{
    let s = listing(side, m);
    assert(levels(s) == m);
    lemma_level_at(side, s, i);
    assert(s[i].0 != s[j].0);
}

/// A row sets the level of its own price on its own side: to its quantity, or, where that is zero, to no
/// level at all. Every other price, and the other side, stand.
pub proof fn a_row_sets_its_level_alone(m: Map<i32, u32>, rows: Seq<BookDelta>, d: BookDelta, price: i32)
    ensures
        ({
            let other = if d.side == Side::Buy {
                Side::Sell
            } else {
                Side::Buy
            };
            let (before, after) = (folded(m, rows, d.side), folded(m, rows.push(d), d.side));
            &&& folded(m, Seq::empty(), d.side) == m
            &&& d.qty == 0 ==> !after.contains_key(d.price)
            &&& d.qty > 0 ==> after.contains_key(d.price) && after[d.price] == d.qty
            &&& price != d.price ==> after.contains_key(price) == before.contains_key(price)
            &&& price != d.price && before.contains_key(price) ==> after[price] == before[price]
            &&& folded(m, rows.push(d), other) == folded(m, rows, other)
        }),
{
    assert(rows.push(d).drop_last() =~= rows);
}

/// The net of some rows names each price they touched with the quantity the last of them left there,
/// zero where it was taken away.
pub proof fn a_net_holds_the_last_quantity(rows: Seq<BookDelta>, d: BookDelta, price: i32)
    ensures
        ({
            let (before, after) = (net_of(rows, d.side), net_of(rows.push(d), d.side));
            &&& after.contains_key(d.price) && after[d.price] == d.qty
            &&& price != d.price ==> after.contains_key(price) == before.contains_key(price)
            &&& price != d.price && before.contains_key(price) ==> after[price] == before[price]
            &&& !net_of(Seq::<BookDelta>::empty(), d.side).contains_key(price)
        }),
{
    assert(rows.push(d).drop_last() =~= rows);
}

/// A net laid over a side sets the levels it names, takes away those it names at zero, and leaves the
/// rest.
pub proof fn a_net_laid_over_sets_what_it_names(m: Map<i32, u32>, net: Map<i32, u32>, price: i32)
    ensures
        net.contains_key(price) && net[price] == 0 ==> !overlay(m, net).contains_key(price),
        net.contains_key(price) && net[price] > 0 ==> overlay(m, net).contains_key(price) && overlay(
            m,
            net,
        )[price] == net[price],
        !net.contains_key(price) ==> overlay(m, net).contains_key(price) == m.contains_key(price),
        !net.contains_key(price) && m.contains_key(price) ==> overlay(m, net)[price] == m[price],
{
}

/// Rows applied to a book leave it at the number of the last of them, over the times of all it has
/// seen; they are no new epoch, and no rows are no change.
pub proof fn rows_move_a_book_to_the_last_of_them(book: BookView, rows: Seq<BookDelta>)
    ensures
        rows.len() == 0 ==> book.apply(rows) == book,
        rows.len() > 0 ==> {
            let after = book.apply(rows);
            &&& after.seq == Some(rows.last().monotonic_seq as int)
            &&& after.span.0 <= book.span.0 && after.span.0 <= rows.first().ts_venue_exec@
            &&& after.span.1 >= book.span.1 && after.span.1 >= rows.last().ts_venue_exec@
            &&& after.span.0 == book.span.0 || after.span.0 == rows.first().ts_venue_exec@
            &&& after.span.1 == book.span.1 || after.span.1 == rows.last().ts_venue_exec@
            &&& after.epoch == book.epoch && after.prec == book.prec && after.synced == book.synced
        },
{
}

/// A book taken up from a checkpoint is the checkpoint's: its levels, its precision and its times, an
/// epoch on, in sync, and at no number yet.
pub proof fn a_checkpoint_is_taken_up_whole(book: BookView, s: BookShape)
    ensures
        book.resync(s).bids == s.bids@,
        book.resync(s).asks == s.asks@,
        book.resync(s).prec == s.prec,
        book.resync(s).span == (s.ts.venue_exec.first@, s.ts.venue_exec.last@),
        book.resync(s).epoch == book.epoch + 1,
        book.resync(s).synced,
        book.resync(s).seq is None,
{
}

/// A book in sync goes on with the tick's rows where the first of them carries the number after its own,
/// and stands still where there are none.
pub proof fn a_book_goes_on_where_the_numbers_do(
    book: BookView,
    anchor: Option<BookShape>,
    chunk: ChunkView,
    last: int,
)
    requires
        book.synced,
        book.seq == Some(last),
        chunk.seq is Some,
    ensures
        chunk.fresh.len() > 0 && chunk.fresh[0].monotonic_seq == last + 1 ==> book.step(anchor, chunk)
            == book.apply(chunk.fresh),
        chunk.fresh.len() == 0 ==> book.step(anchor, chunk) == book,
{
}

/// A book that missed rows is out of sync where nothing holds what it missed: neither the rows of the
/// tick, nor the period they fell into, nor that and the one before it; and so is one that is ahead of
/// all there is.
pub proof fn a_book_that_missed_what_nothing_holds_is_out_of_sync(
    book: BookView,
    chunk: ChunkView,
    last: int,
    first: int,
    end: int,
)
    requires
        book.synced,
        book.seq == Some(last),
        chunk.seq == Some((first, end)),
        chunk.fresh.len() > 0,
        chunk.fresh[0].monotonic_seq != last + 1,
        end < last || !chunk.contiguous || (last + 1 < first && (chunk.prev_seq matches Some((a, b)) ==> b
            + 1 != first || !chunk.prev_contiguous || last + 1 < a)),
    ensures
        !book.step(None, chunk).synced,
{
}

/// A book that slept through rows its period still holds wakes with what they left: every price the
/// period touched stands as the period says, and every other one as it stood.
pub proof fn a_book_that_slept_wakes_from_the_period_s_net(
    book: BookView,
    anchor: Option<BookShape>,
    chunk: ChunkView,
    last: int,
    first: int,
    end: int,
    price: i32,
)
    requires
        book.synced,
        book.seq == Some(last),
        chunk.seq == Some((first, end)),
        chunk.contiguous,
        chunk.fresh.len() > 0,
        chunk.fresh[0].monotonic_seq != last + 1,
        first <= last + 1,
        last <= end,
    ensures
        ({
            let after = book.step(anchor, chunk);
            &&& after.synced && after.seq == Some(end) && after.epoch == book.epoch
            &&& chunk.bids.contains_key(price) ==> after.bids.contains_key(price) == (chunk.bids[price] > 0)
            &&& chunk.bids.contains_key(price) && chunk.bids[price] > 0 ==> after.bids[price]
                == chunk.bids[price]
            &&& !chunk.bids.contains_key(price) ==> after.bids.contains_key(price)
                == book.bids.contains_key(price)
            &&& chunk.asks.contains_key(price) ==> after.asks.contains_key(price) == (chunk.asks[price] > 0)
            &&& chunk.asks.contains_key(price) && chunk.asks[price] > 0 ==> after.asks[price]
                == chunk.asks[price]
            &&& !chunk.asks.contains_key(price) ==> after.asks.contains_key(price)
                == book.asks.contains_key(price)
        }),
{
}

/// A period starts on a multiple of its length, at or before every time in it and less than its length
/// before, so that two times share one exactly where no multiple parts them.
pub proof fn a_period_starts_on_its_own_multiple(ts: int, other: int, period: int)
    requires
        period > 0,
    ensures
        period_start(ts, period) % period == 0,
        period_start(ts, period) <= ts < period_start(ts, period) + period,
        period_start(ts, period) == period_start(other, period) <==> ts / period == other / period,
{
    let (a, b) = (ts / period, other / period);
    vstd::arithmetic::div_mod::lemma_fundamental_div_mod(ts, period);
    vstd::arithmetic::div_mod::lemma_mod_bound(ts, period);
    vstd::arithmetic::div_mod::lemma_mod_multiples_basic(a, period);
    assert(a * period == period * a) by (nonlinear_arith);
    if a * period == b * period {
        assert(a == b) by (nonlinear_arith)
            requires
                a * period == b * period,
                period > 0,
        ;
    }
}

/// A frame is carried as rows that state its levels one by one: at the time the venue last did
/// something and the time it was received, at the book's precision, numbered on from the last; a
/// snapshot, and a frame that frames were missed before, correct the book, and every other updates it.
pub proof fn a_frame_is_carried_row_by_row(sv: ShadowView, u: BookUpdate, recv: Ts<Local>, i: int)
    requires
        0 <= i < sv.rows(u, recv).len(),
        0 <= sv.seq,
        sv.seq + sv.rows(u, recv).len() <= u64::MAX,
    ensures
        ({
            let (row, level) = (sv.rows(u, recv)[i], update_levels(sv.book, u)[i]);
            let shape = match u {
                BookUpdate::Snapshot(s) => s,
                BookUpdate::BatchDelta { shape, .. } => shape,
            };
            &&& sv.rows(u, recv).len() == update_levels(sv.book, u).len()
            &&& row.side == level.0 && row.price == level.1 && row.qty == level.2
            &&& row.monotonic_seq == sv.seq + 1 + i
            &&& row.ts_venue_exec == shape.ts.venue_exec.last
            &&& row.ts_local_recv == recv
            &&& row.prec == sv.book.prec
            &&& u is Snapshot ==> row.kind == FrameKind::Correction
            &&& u matches BookUpdate::BatchDelta { gapped, .. } ==> row.kind == if gapped {
                FrameKind::Correction
            } else {
                FrameKind::Update
            }
        }),
{
}

/// The first frame opens an epoch: the book starts from its shape, as of when it was received, with no
/// checkpoint made of it and the numbers where they were; one that comes to a book in sync moves it by
/// its rows and counts them.
pub proof fn the_first_frame_opens_an_epoch(sv: ShadowView, u: BookUpdate, recv: Ts<Local>)
    ensures
        !sv.book.synced ==> {
            let after = sv.ingested(u, recv);
            &&& after.book.synced && after.book.epoch == sv.book.epoch + 1
            &&& after.epoch_start == Some(recv@)
            &&& after.checkpointed is None
            &&& after.seq == sv.seq && after.cadence == sv.cadence
            &&& u matches BookUpdate::Snapshot(s) ==> after.book.bids == s.bids@ && after.book.asks == s.asks@
                && after.book.prec == s.prec
        },
        sv.book.synced ==> {
            let after = sv.ingested(u, recv);
            &&& after.book == sv.book.apply(sv.rows(u, recv))
            &&& after.seq == sv.seq + sv.rows(u, recv).len()
            &&& after.epoch_start == sv.epoch_start && after.checkpointed == sv.checkpointed
            &&& after.cadence == sv.cadence
        },
{
}

/// A level set to zero is no level, and any other quantity is one.
pub proof fn a_level_of_zero_is_none(m: Map<i32, u32>, price: i32, qty: u32)
    ensures
        !set_level(m, price, 0).contains_key(price),
        qty > 0 ==> set_level(m, price, qty).contains_key(price) && set_level(m, price, qty)[price] == qty,
{
}

} // verus!
