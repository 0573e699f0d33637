//! What holds of the book, the chunk retained for it and the recollection written of it.

use vstd::prelude::*;

use crate::book::{folded, BookShape, BookUpdate, BookView};
use crate::chunk::{net_of, period_start, ChunkView};
use crate::chunk_laws::taking_is_sequential;
use crate::delta::BookDelta;
use crate::ladder;
use crate::ladder::{best_first, levels, listing, overlay, set_level};
use crate::shadow::{agrees, all_listed, any_told, changed, diff_of, gone, listed_levels};
use crate::shadow::{side_diff, tells, told};
use crate::shadow::{update_levels, ShadowView};
use crate::chunk::sided;
use crate::side::Side;
use crate::ts::{Local, Ts};

verus! {

/// A level is absolute: setting it twice is setting it once, and a later one on the same price is
/// the only one that counts.
pub proof fn the_last_level_wins(m: Map<i32, u32>, price: i32, first: u32, last: u32)
    ensures
        set_level(set_level(m, price, first), price, last) == set_level(m, price, last),
{
    assert(set_level(set_level(m, price, first), price, last) =~= set_level(m, price, last));
}

/// The invariant the whole retention rests on: overlaying the net of a run of rows lands exactly
/// where folding every row of it lands, deletions and corrections included.
pub proof fn the_net_is_the_rows(m: Map<i32, u32>, rows: Seq<BookDelta>, side: Side)
    ensures
        folded(m, rows, side) == overlay(m, net_of(rows, side)),
    decreases rows.len(),
{
    if rows.len() == 0 {
        ladder::lemma_overlay_nothing(m);
    } else {
        let d = rows.last();
        the_net_is_the_rows(m, rows.drop_last(), side);
        ladder::lemma_overlay_step(m, net_of(rows.drop_last(), side), d.price, d.qty);
    }
}

/// A net holds one entry per price touched: it costs depth and not row count.
pub proof fn the_net_costs_depth(rows: Seq<BookDelta>, side: Side, price: i32)
    ensures
        net_of(rows, side).contains_key(price) <==> exists|i: int|
            0 <= i < rows.len() && (#[trigger] rows[i]).side == side && rows[i].price == price,
    decreases rows.len(),
{
    if rows.len() > 0 {
        let rest = rows.drop_last();
        the_net_costs_depth(rest, side, price);
        if net_of(rest, side).contains_key(price) {
            let i = choose|i: int|
                0 <= i < rest.len() && (#[trigger] rest[i]).side == side && rest[i].price == price;
            assert(rows[i] == rest[i]);
        }
        if net_of(rows, side).contains_key(price) && !net_of(rest, side).contains_key(price) {
            assert(rows[rows.len() - 1].side == side);
        }
        if exists|i: int|
            0 <= i < rows.len() && (#[trigger] rows[i]).side == side && rows[i].price == price {
            let i = choose|i: int|
                0 <= i < rows.len() && (#[trigger] rows[i]).side == side && rows[i].price == price;
            if i < rest.len() {
                assert(rest[i] == rows[i]);
            }
        }
    }
}

/// Folding one run and then another is folding both.
pub proof fn folding_is_sequential(
    m: Map<i32, u32>,
    a: Seq<BookDelta>,
    b: Seq<BookDelta>,
    side: Side,
)
    ensures
        folded(folded(m, a, side), b, side) == folded(m, a + b, side),
    decreases b.len(),
{
    if b.len() == 0 {
        assert(a + b =~= a);
    } else {
        folding_is_sequential(m, a, b.drop_last(), side);
        assert((a + b).drop_last() =~= a + b.drop_last());
        assert((a + b).last() == b.last());
    }
}

/// Re-folding rows a resume point already reflects is free.
pub proof fn refolding_is_free(
    m: Map<i32, u32>,
    a: Seq<BookDelta>,
    b: Seq<BookDelta>,
    c: Seq<BookDelta>,
    side: Side,
)
    ensures
        folded(folded(m, a + b, side), b + c, side) == folded(m, a + b + c, side),
{
    let at = folded(m, a, side);
    folding_is_sequential(m, a, b, side);
    the_net_is_the_rows(at, b, side);
    the_net_is_the_rows(folded(at, b, side), b, side);
    ladder::lemma_overlay_again(at, net_of(b, side));
    folding_is_sequential(folded(m, a + b, side), b, c, side);
    folding_is_sequential(m, a + b, c, side);
}

/// Whether every row lies in the period that starts at `base`.
pub open spec fn in_period(rows: Seq<BookDelta>, base: int, period: int) -> bool {
    forall|i: int|
        0 <= i < rows.len() ==> period_start((#[trigger] rows[i]).ts_venue_exec@, period) == base
}

/// What a chunk holds of the rows of one period, the first of which opened it.
proof fn lemma_one_period(c: ChunkView, rows: Seq<BookDelta>, base: int, period: int)
    requires
        rows.len() > 0,
        in_period(rows, base, period),
        c.base != base,
    ensures
        ({
            let t = c.taken(rows, period);
            &&& t.base == base
            &&& t.bids == net_of(rows, Side::Buy)
            &&& t.asks == net_of(rows, Side::Sell)
            &&& t.prev_bids == c.bids
            &&& t.prev_asks == c.asks
            &&& t.prev_seq == c.seq
            &&& t.prev_contiguous == c.contiguous
            &&& t.seq == Some((rows[0].monotonic_seq as int, rows.last().monotonic_seq as int))
            &&& t.span == (rows[0].ts_venue_exec@, rows.last().ts_venue_exec@)
            &&& t.contiguous == numbered(rows)
        }),
    decreases rows.len(),
{
    let rest = rows.drop_last();
    let d = rows.last();
    assert(period_start(rows[rows.len() - 1].ts_venue_exec@, period) == base);
    if rest.len() > 0 {
        assert forall|i: int| 0 <= i < rest.len() implies period_start(
            (#[trigger] rest[i]).ts_venue_exec@,
            period,
        ) == base by {
            assert(rest[i] == rows[i]);
        }
        lemma_one_period(c, rest, base, period);
        assert(rest[0] == rows[0]);
        let t = c.taken(rest, period);
        assert(t.opened(d, period) == t);
        assert(c.taken(rows, period) == t.fold(d));
        lemma_numbered(rows);
    } else {
        assert(c.taken(rest, period) == c);
        assert(c.opened(d, period) == c.tumble(base));
        assert(c.taken(rows, period) == c.tumble(base).fold(d));
        assert(net_of(rest, Side::Buy) == Map::<i32, u32>::empty());
        assert(net_of(rest, Side::Sell) == Map::<i32, u32>::empty());
        assert(numbered(rows));
    }
}

/// A longer run is numbered if the shorter one is and the next number follows.
pub proof fn lemma_numbered(rows: Seq<BookDelta>)
    requires
        rows.len() > 1,
    ensures
        numbered(rows) == (numbered(rows.drop_last()) && rows.last().monotonic_seq
            == rows.drop_last().last().monotonic_seq + 1),
{
    let rest = rows.drop_last();
    assert(rest[0] == rows[0]);
    assert(rest.last() == rows[rows.len() - 2]);
    if numbered(rows) {
        assert forall|i: int| 0 <= i < rest.len() implies (#[trigger] rest[i]).monotonic_seq
            == rest[0].monotonic_seq + i by {
            assert(rest[i] == rows[i]);
        }
    }
    if numbered(rest) && rows.last().monotonic_seq == rest.last().monotonic_seq + 1 {
        assert forall|i: int| 0 <= i < rows.len() implies (#[trigger] rows[i]).monotonic_seq
            == rows[0].monotonic_seq + i by {
            if i < rest.len() {
                assert(rest[i] == rows[i]);
            } else {
                assert(rest[rest.len() - 1].monotonic_seq == rest[0].monotonic_seq + rest.len() - 1);
            }
        }
    }
}

/// Whether a run's numbers follow on one another.
pub open spec fn numbered(rows: Seq<BookDelta>) -> bool {
    forall|i: int|
        0 <= i < rows.len() ==> (#[trigger] rows[i]).monotonic_seq == rows[0].monotonic_seq + i
}

/// A period's net is that period's rows: a book with no place in the chain, seeded by a checkpoint
/// and handed the chunk of a whole period, holds the levels and the place that folding the period
/// row by row from the checkpoint would have given it.
pub proof fn a_period_s_net_is_that_period_s_rows(
    book: BookView,
    anchor: BookShape,
    chunk: ChunkView,
    rows: Seq<BookDelta>,
    base: int,
    period: int,
)
    requires
        !book.synced,
        rows.len() > 0,
        in_period(rows, base, period),
        chunk.base != base,
        numbered(rows),
    ensures
        ({
            let woken = book.step(Some(anchor), chunk.taken(rows, period));
            let awake = book.resync(anchor).apply(rows);
            &&& woken.synced
            &&& woken == awake
        }),
{
    lemma_one_period(chunk, rows, base, period);
    the_net_is_the_rows(anchor.bids@, rows, Side::Buy);
    the_net_is_the_rows(anchor.asks@, rows, Side::Sell);
    let woken = book.step(Some(anchor), chunk.taken(rows, period));
    let awake = book.resync(anchor).apply(rows);
    assert(woken =~= awake);
}

/// Two periods' nets that join stand in for the rows of both: a sleep across one boundary costs
/// nothing but the depth of the two nets.
pub proof fn two_joined_nets_are_both_periods_rows(
    book: BookView,
    chunk: ChunkView,
    before: Seq<BookDelta>,
    rows: Seq<BookDelta>,
    first: int,
    second: int,
    period: int,
)
    requires
        before.len() > 0,
        rows.len() > 0,
        in_period(before, first, period),
        in_period(rows, second, period),
        first != second,
        chunk.base != first,
    ensures
        ({
            let c = chunk.taken(before + rows, period);
            &&& book.absorb(c, true).bids == book.apply(before + rows).bids
            &&& book.absorb(c, true).asks == book.apply(before + rows).asks
            &&& book.absorb(c, true).seq == book.apply(before + rows).seq
        }),
{
    lemma_one_period(chunk, before, first, period);
    lemma_one_period(chunk.taken(before, period), rows, second, period);
    taking_is_sequential(chunk, before, rows, period);
    the_net_is_the_rows(book.bids, before, Side::Buy);
    the_net_is_the_rows(book.asks, before, Side::Sell);
    the_net_is_the_rows(folded(book.bids, before, Side::Buy), rows, Side::Buy);
    the_net_is_the_rows(folded(book.asks, before, Side::Sell), rows, Side::Sell);
    folding_is_sequential(book.bids, before, rows, Side::Buy);
    folding_is_sequential(book.asks, before, rows, Side::Sell);
    assert((before + rows).last() == rows.last());
}

/// A rewind from where the book stands lands where the fold would have.
pub proof fn a_rewind_lands_where_the_fold_would_have(
    book: BookView,
    seen: Seq<BookDelta>,
    missed: Seq<BookDelta>,
)
    requires
        missed.len() > 0,
    ensures
        ({
            let slept = book.apply(seen).rewind(None, missed);
            let awake = book.apply(seen + missed);
            &&& slept.bids == awake.bids
            &&& slept.asks == awake.asks
            &&& slept.seq == awake.seq
            &&& slept.epoch == book.apply(seen).epoch
        }),
{
    folding_is_sequential(book.bids, seen, missed, Side::Buy);
    folding_is_sequential(book.asks, seen, missed, Side::Sell);
    assert((seen + missed).last() == missed.last());
    if seen.len() == 0 {
        assert(seen + missed =~= missed);
    }
}

/// A rewind from a checkpoint, re-folding rows the checkpoint already holds, lands where the fold
/// would have and calls it the same book.
pub proof fn a_rewind_from_a_checkpoint_is_the_same_book(
    book: BookView,
    anchor: BookShape,
    seen: Seq<BookDelta>,
    held: Seq<BookDelta>,
    missed: Seq<BookDelta>,
)
    requires
        book.synced,
        missed.len() > 0,
        anchor.bids@ == folded(book.bids, seen + held, Side::Buy),
        anchor.asks@ == folded(book.asks, seen + held, Side::Sell),
    ensures
        ({
            let slept = book.apply(seen).rewind(Some(anchor), held + missed);
            let awake = book.apply(seen + held + missed);
            &&& slept.bids == awake.bids
            &&& slept.asks == awake.asks
            &&& slept.seq == awake.seq
            &&& slept.epoch == book.apply(seen).epoch
            &&& slept.synced
        }),
{
    refolding_is_free(book.bids, seen, held, missed, Side::Buy);
    refolding_is_free(book.asks, seen, held, missed, Side::Sell);
    assert((held + missed).last() == missed.last());
    assert((seen + held + missed).last() == missed.last());
}

/// A missed frame desyncs: with no checkpoint at hand a book whose chain is broken folds nothing
/// and is not readable.
pub proof fn a_missed_frame_desyncs(book: BookView, chunk: ChunkView)
    requires
        book.synced,
        book.reach(chunk) is Gone,
    ensures
        ({
            let after = book.step(None, chunk);
            &&& !after.synced
            &&& after.resume_seq() is None
            &&& after.bids == book.bids
            &&& after.asks == book.asks
        }),
{
}

/// The next checkpoint re-arms a desynced book from the checkpoint's state, not the stale one, as a
/// book of the next epoch.
pub proof fn the_next_checkpoint_rearms(
    stale: BookView,
    other: BookView,
    anchor: BookShape,
    chunk: ChunkView,
)
    requires
        !stale.synced,
        !other.synced,
    ensures
        ({
            let a = stale.step(Some(anchor), chunk);
            let b = other.step(Some(anchor), chunk);
            &&& a.synced
            &&& a.epoch == stale.epoch + 1
            &&& a.bids == b.bids
            &&& a.asks == b.asks
            &&& a.seq == b.seq
            &&& a.span == b.span
        }),
{
}

/// The quantity a run of levels leaves at each price.
pub open spec fn run_net(run: Seq<(i32, u32)>) -> Map<i32, u32>
    decreases run.len(),
{
    if run.len() == 0 {
        Map::empty()
    } else {
        run_net(run.drop_last()).insert(run.last().0, run.last().1)
    }
}

/// A side after a run of levels.
pub open spec fn run_set(m: Map<i32, u32>, run: Seq<(i32, u32)>) -> Map<i32, u32>
    decreases run.len(),
{
    if run.len() == 0 {
        m
    } else {
        set_level(run_set(m, run.drop_last()), run.last().0, run.last().1)
    }
}

proof fn lemma_run(m: Map<i32, u32>, run: Seq<(i32, u32)>)
    ensures
        run_set(m, run) == overlay(m, run_net(run)),
    decreases run.len(),
{
    if run.len() == 0 {
        ladder::lemma_overlay_nothing(m);
    } else {
        lemma_run(m, run.drop_last());
        ladder::lemma_overlay_step(m, run_net(run.drop_last()), run.last().0, run.last().1);
    }
}

proof fn lemma_run_net_adds(a: Seq<(i32, u32)>, b: Seq<(i32, u32)>)
    ensures
        run_net(a + b) == run_net(a).union_prefer_right(run_net(b)),
    decreases b.len(),
{
    if b.len() == 0 {
        assert(a + b =~= a);
        assert(run_net(a).union_prefer_right(run_net(b)) =~= run_net(a));
    } else {
        lemma_run_net_adds(a, b.drop_last());
        assert((a + b).drop_last() =~= a + b.drop_last());
        assert((a + b).last() == b.last());
        assert(run_net(a + b) =~= run_net(a).union_prefer_right(run_net(b)));
    }
}

/// What the changed levels come to.
proof fn lemma_changed(ours: Map<i32, u32>, theirs: Seq<(i32, u32)>, price: i32)
    requires
        best_first(Side::Sell, theirs),
    ensures
        run_net(changed(ours, theirs)).contains_key(price) <==> levels(theirs).contains_key(price)
            && !agrees(ours, (price, levels(theirs)[price])),
        run_net(changed(ours, theirs)).contains_key(price) ==> run_net(
            changed(ours, theirs),
        )[price] == levels(theirs)[price],
    decreases theirs.len(),
{
    if theirs.len() == 0 {
        ladder::lemma_no_levels(theirs);
    } else {
        let rest = theirs.drop_last();
        let l = theirs.last();
        assert forall|a: int, b: int| 0 <= a < b < rest.len() implies ladder::rank(
            Side::Sell,
            #[trigger] rest[a].0,
        ) < ladder::rank(Side::Sell, #[trigger] rest[b].0) by {
            assert(rest[a] == theirs[a] && rest[b] == theirs[b]);
        }
        lemma_changed(ours, rest, price);
        ladder::lemma_push(Side::Sell, theirs, theirs.len() - 1);
        assert(theirs.take(theirs.len() as int) =~= theirs);
        assert(theirs.take(theirs.len() - 1) =~= rest);
        if price == l.0 {
            assert forall|k: int| 0 <= k < rest.len() implies #[trigger] rest[k].0 != price by {
                assert(rest[k] == theirs[k]);
                assert(ladder::rank(Side::Sell, theirs[k].0) < ladder::rank(
                    Side::Sell,
                    theirs[theirs.len() - 1].0,
                ));
            }
            ladder::lemma_level_absent(rest, price);
        }
        if !agrees(ours, l) {
            assert(changed(ours, theirs).drop_last() =~= changed(ours, rest));
        }
    }
}

/// What the deletions come to.
proof fn lemma_gone(side: Side, ours: Seq<(i32, u32)>, theirs: Map<i32, u32>, price: i32)
    requires
        best_first(side, ours),
    ensures
        run_net(gone(ours, theirs)).contains_key(price) <==> levels(ours).contains_key(price)
            && !theirs.contains_key(price),
        run_net(gone(ours, theirs)).contains_key(price) ==> run_net(gone(ours, theirs))[price] == 0,
    decreases ours.len(),
{
    if ours.len() == 0 {
        ladder::lemma_no_levels(ours);
    } else {
        let rest = ours.drop_last();
        let l = ours.last();
        assert forall|a: int, b: int| 0 <= a < b < rest.len() implies ladder::rank(
            side,
            #[trigger] rest[a].0,
        ) < ladder::rank(side, #[trigger] rest[b].0) by {
            assert(rest[a] == ours[a] && rest[b] == ours[b]);
        }
        lemma_gone(side, rest, theirs, price);
        ladder::lemma_push(side, ours, ours.len() - 1);
        assert(ours.take(ours.len() as int) =~= ours);
        assert(ours.take(ours.len() - 1) =~= rest);
        if !theirs.contains_key(l.0) {
            assert(gone(ours, theirs).drop_last() =~= gone(rest, theirs));
        }
    }
}

/// Whether a run names no price twice.
pub open spec fn once_each(run: Seq<(i32, u32)>) -> bool {
    forall|i: int, j: int| 0 <= i < j < run.len() ==> #[trigger] run[i].0 != #[trigger] run[j].0
}

/// Whether a run names a price.
pub open spec fn names(run: Seq<(i32, u32)>, price: i32) -> bool {
    exists|i: int| 0 <= i < run.len() && #[trigger] run[i].0 == price
}

/// One level more names no price twice if the ones before name none twice and not its own.
proof fn lemma_once_more(run: Seq<(i32, u32)>, level: (i32, u32))
    requires
        once_each(run),
        !names(run, level.0),
    ensures
        once_each(run.push(level)),
{
    let more = run.push(level);
    assert forall|i: int, j: int| 0 <= i < j < more.len() implies #[trigger] more[i].0
        != #[trigger] more[j].0 by {
        assert(more[i] == run[i]);
        if j < run.len() {
            assert(more[j] == run[j]);
        }
    }
}

/// The last of a run that names no price twice is named by none before it.
proof fn lemma_once_less(run: Seq<(i32, u32)>)
    requires
        run.len() > 0,
        once_each(run),
    ensures
        once_each(run.drop_last()),
        !names(run.drop_last(), run.last().0),
{
    let rest = run.drop_last();
    assert forall|i: int, j: int| 0 <= i < j < rest.len() implies #[trigger] rest[i].0
        != #[trigger] rest[j].0 by {
        assert(rest[i] == run[i] && rest[j] == run[j]);
    }
    assert forall|i: int| 0 <= i < rest.len() implies #[trigger] rest[i].0 != run.last().0 by {
        assert(rest[i] == run[i]);
    }
}

/// A sorted side names no price twice.
proof fn lemma_sorted_once(side: Side, s: Seq<(i32, u32)>)
    requires
        best_first(side, s),
    ensures
        once_each(s),
{
    assert forall|i: int, j: int| 0 <= i < j < s.len() implies #[trigger] s[i].0 != #[trigger] s[j].0
        by {
        assert(ladder::rank(side, s[i].0) < ladder::rank(side, s[j].0));
    }
}

/// The net of a sorted side is the side.
proof fn lemma_sorted_net(side: Side, s: Seq<(i32, u32)>)
    requires
        best_first(side, s),
    ensures
        run_net(s) == levels(s),
    decreases s.len(),
{
    if s.len() == 0 {
        ladder::lemma_no_levels(s);
    } else {
        let rest = s.drop_last();
        assert forall|a: int, b: int| 0 <= a < b < rest.len() implies ladder::rank(
            side,
            #[trigger] rest[a].0,
        ) < ladder::rank(side, #[trigger] rest[b].0) by {
            assert(rest[a] == s[a] && rest[b] == s[b]);
        }
        lemma_sorted_net(side, rest);
        ladder::lemma_push(side, s, s.len() - 1);
        assert(s.take(s.len() as int) =~= s);
        assert(s.take(s.len() - 1) =~= rest);
    }
}

/// The changed levels name prices that theirs name.
proof fn lemma_changed_names(ours: Map<i32, u32>, theirs: Seq<(i32, u32)>, price: i32)
    requires
        names(changed(ours, theirs), price),
    ensures
        names(theirs, price),
    decreases theirs.len(),
{
    if theirs.len() > 0 {
        let rest = theirs.drop_last();
        let run = changed(ours, theirs);
        let i = choose|i: int| 0 <= i < run.len() && #[trigger] run[i].0 == price;
        if i < changed(ours, rest).len() {
            assert(changed(ours, rest)[i].0 == price);
            lemma_changed_names(ours, rest, price);
            let k = choose|k: int| 0 <= k < rest.len() && #[trigger] rest[k].0 == price;
            assert(theirs[k].0 == price);
        } else {
            assert(theirs[theirs.len() - 1].0 == price);
        }
    }
}

proof fn lemma_changed_once(ours: Map<i32, u32>, theirs: Seq<(i32, u32)>)
    requires
        once_each(theirs),
    ensures
        once_each(changed(ours, theirs)),
    decreases theirs.len(),
{
    if theirs.len() > 0 {
        let rest = theirs.drop_last();
        lemma_once_less(theirs);
        lemma_changed_once(ours, rest);
        if names(changed(ours, rest), theirs.last().0) {
            lemma_changed_names(ours, rest, theirs.last().0);
        }
        if !agrees(ours, theirs.last()) {
            lemma_once_more(changed(ours, rest), theirs.last());
        }
    }
}

/// The deletions name prices that ours name and theirs do not.
proof fn lemma_gone_names(ours: Seq<(i32, u32)>, theirs: Map<i32, u32>, price: i32)
    requires
        names(gone(ours, theirs), price),
    ensures
        names(ours, price),
        !theirs.contains_key(price),
    decreases ours.len(),
{
    if ours.len() > 0 {
        let rest = ours.drop_last();
        let run = gone(ours, theirs);
        let i = choose|i: int| 0 <= i < run.len() && #[trigger] run[i].0 == price;
        if i < gone(rest, theirs).len() {
            assert(gone(rest, theirs)[i].0 == price);
            lemma_gone_names(rest, theirs, price);
            let k = choose|k: int| 0 <= k < rest.len() && #[trigger] rest[k].0 == price;
            assert(ours[k].0 == price);
        } else {
            assert(ours[ours.len() - 1].0 == price);
        }
    }
}

proof fn lemma_gone_once(ours: Seq<(i32, u32)>, theirs: Map<i32, u32>)
    requires
        once_each(ours),
    ensures
        once_each(gone(ours, theirs)),
    decreases ours.len(),
{
    if ours.len() > 0 {
        let rest = ours.drop_last();
        lemma_once_less(ours);
        lemma_gone_once(rest, theirs);
        if names(gone(rest, theirs), ours.last().0) {
            lemma_gone_names(rest, theirs, ours.last().0);
        }
        if !theirs.contains_key(ours.last().0) {
            lemma_once_more(gone(rest, theirs), (ours.last().0, 0));
        }
    }
}

/// A diff names no price twice.
pub proof fn a_diff_names_no_price_twice(side: Side, ours: Map<i32, u32>, theirs: Map<i32, u32>)
    requires
        listed(side, ours),
        listed(Side::Sell, theirs),
    ensures
        once_each(side_diff(side, ours, theirs)),
{
    let (a, b) = (listing(Side::Sell, theirs), listing(side, ours));
    let (first, then) = (changed(ours, a), gone(b, theirs));
    let run = side_diff(side, ours, theirs);
    lemma_sorted_once(Side::Sell, a);
    lemma_sorted_once(side, b);
    lemma_changed_once(ours, a);
    lemma_gone_once(b, theirs);
    assert forall|i: int, j: int| 0 <= i < j < run.len() implies #[trigger] run[i].0
        != #[trigger] run[j].0 by {
        if j < first.len() {
            assert(run[i] == first[i] && run[j] == first[j]);
        } else if i >= first.len() {
            assert(run[i] == then[i - first.len()] && run[j] == then[j - first.len()]);
        } else {
            assert(run[i] == first[i] && run[j] == then[j - first.len()]);
            assert(names(first, run[i].0) && names(then, run[j].0));
            lemma_changed_names(ours, a, run[i].0);
            lemma_gone_names(b, theirs, run[j].0);
            let k = choose|k: int| 0 <= k < a.len() && #[trigger] a[k].0 == run[i].0;
            ladder::lemma_level_at(Side::Sell, a, k);
        }
    }
}

/// What a run that names no price twice leaves at each price.
proof fn lemma_net_once(run: Seq<(i32, u32)>, price: i32)
    requires
        once_each(run),
    ensures
        run_net(run).contains_key(price) <==> names(run, price),
        forall|i: int| 0 <= i < run.len() && #[trigger] run[i].0 == price ==> run_net(run)[price]
            == run[i].1,
    decreases run.len(),
{
    if run.len() > 0 {
        let rest = run.drop_last();
        lemma_once_less(run);
        lemma_net_once(rest, price);
        assert(run[run.len() - 1] == run.last());
        if names(rest, price) {
            let k = choose|k: int| 0 <= k < rest.len() && #[trigger] rest[k].0 == price;
            assert(run[k].0 == price);
        }
        if names(run, price) && price != run.last().0 {
            let k = choose|k: int| 0 <= k < run.len() && #[trigger] run[k].0 == price;
            assert(rest[k].0 == price);
        }
        assert forall|i: int| 0 <= i < run.len() && #[trigger] run[i].0 == price implies run_net(
            run,
        )[price] == run[i].1 by {
            if i < rest.len() {
                assert(rest[i] == run[i]);
            }
        }
    }
}

/// A run that names no price twice may be set in any order: another order of the same levels leaves
/// the same side.
pub proof fn levels_may_be_set_in_any_order(
    m: Map<i32, u32>,
    run: Seq<(i32, u32)>,
    other: Seq<(i32, u32)>,
)
    requires
        once_each(run),
        other.to_multiset() == run.to_multiset(),
    ensures
        run_set(m, other) == run_set(m, run),
{
    broadcast use vstd::seq_lib::group_to_multiset_ensures;

    assert forall|i: int, j: int| 0 <= i < run.len() && 0 <= j < run.len() && i != j implies run[i]
        != run[j] by {
        let (a, b) = if i < j {
            (i, j)
        } else {
            (j, i)
        };
        assert(run[a].0 != run[b].0);
    }
    run.lemma_multiset_has_no_duplicates();
    other.lemma_multiset_has_no_duplicates_conv();
    assert forall|l: (i32, u32)| #[trigger] other.contains(l) == run.contains(l) by {
        assert(other.contains(l) == (other.to_multiset().count(l) > 0));
        assert(run.contains(l) == (run.to_multiset().count(l) > 0));
    }
    assert forall|i: int, j: int| 0 <= i < j < other.len() implies #[trigger] other[i].0
        != #[trigger] other[j].0 by {
        assert(other.contains(other[i]) && other.contains(other[j]));
        let a = choose|a: int| 0 <= a < run.len() && run[a] == other[i];
        let b = choose|b: int| 0 <= b < run.len() && run[b] == other[j];
        if other[i].0 == other[j].0 {
            assert(run[a].0 == run[b].0);
            assert(a == b);
        }
    }
    assert forall|p: i32|
        #![trigger run_net(other).contains_key(p)]
        run_net(other).contains_key(p) == run_net(run).contains_key(p) && (run_net(
            other,
        ).contains_key(p) ==> run_net(other)[p] == run_net(run)[p]) by {
        lemma_net_once(run, p);
        lemma_net_once(other, p);
        if names(run, p) {
            let k = choose|k: int| 0 <= k < run.len() && #[trigger] run[k].0 == p;
            assert(run.contains(run[k]));
            assert(other.contains(run[k]));
            let l = choose|l: int| 0 <= l < other.len() && other[l] == run[k];
            assert(other[l].0 == p);
        }
        if names(other, p) {
            let k = choose|k: int| 0 <= k < other.len() && #[trigger] other[k].0 == p;
            assert(other.contains(other[k]));
            assert(run.contains(other[k]));
            let l = choose|l: int| 0 <= l < run.len() && run[l] == other[k];
            assert(run[l].0 == p);
        }
    }
    ladder::lemma_same(run_net(other), run_net(run));
    lemma_run(m, run);
    lemma_run(m, other);
}

/// A diff may be set in any order: whatever the order of its levels, they carry ours onto theirs.
pub proof fn a_diff_may_be_set_in_any_order(
    side: Side,
    ours: Map<i32, u32>,
    theirs: Map<i32, u32>,
    other: Seq<(i32, u32)>,
)
    requires
        listed(side, ours),
        listed(Side::Sell, theirs),
        other.to_multiset() == side_diff(side, ours, theirs).to_multiset(),
    ensures
        run_set(ours, other) == run_set(ours, side_diff(side, ours, theirs)),
{
    a_diff_names_no_price_twice(side, ours, theirs);
    levels_may_be_set_in_any_order(ours, side_diff(side, ours, theirs), other);
}

/// A price a run does not name keeps its level.
proof fn lemma_untouched(m: Map<i32, u32>, run: Seq<(i32, u32)>, price: i32)
    requires
        !names(run, price),
    ensures
        run_set(m, run).contains_key(price) == m.contains_key(price),
        m.contains_key(price) ==> run_set(m, run)[price] == m[price],
    decreases run.len(),
{
    if run.len() > 0 {
        let rest = run.drop_last();
        assert forall|i: int| 0 <= i < rest.len() implies #[trigger] rest[i].0 != price by {
            assert(rest[i] == run[i]);
        }
        assert(run[run.len() - 1].0 != price);
        lemma_untouched(m, rest, price);
    }
}

/// Whether some level of a run would change a side.
pub open spec fn any_tells(ours: Map<i32, u32>, run: Seq<(i32, u32)>) -> bool {
    exists|i: int| 0 <= i < run.len() && tells(ours, #[trigger] run[i])
}

/// A run that names no price twice changes a side exactly where some level of it would.
proof fn lemma_run_changes(ours: Map<i32, u32>, run: Seq<(i32, u32)>)
    requires
        once_each(run),
    ensures
        run_set(ours, run) == ours <==> !any_tells(ours, run),
    decreases run.len(),
{
    if run.len() > 0 {
        let (rest, l) = (run.drop_last(), run.last());
        let at = run_set(ours, rest);
        lemma_once_less(run);
        lemma_run_changes(ours, rest);
        lemma_untouched(ours, rest, l.0);
        assert(run[run.len() - 1] == l);
        if any_tells(ours, rest) {
            let i = choose|i: int| 0 <= i < rest.len() && tells(ours, #[trigger] rest[i]);
            let p = rest[i];
            assert(run[i] == p);
            lemma_run(ours, run);
            lemma_net_once(run, p.0);
            assert(names(run, p.0));
            if run_set(ours, run) == ours {
                assert(run_net(run)[p.0] == p.1);
                assert(overlay(ours, run_net(run)).contains_key(p.0) == ours.contains_key(p.0));
            }
        } else if tells(ours, l) {
            if l.1 == 0 {
                assert(!set_level(at, l.0, l.1).contains_key(l.0));
            } else {
                assert(set_level(at, l.0, l.1)[l.0] == l.1);
            }
        } else {
            assert(set_level(at, l.0, l.1) =~= at);
            assert forall|i: int| 0 <= i < run.len() implies !tells(ours, #[trigger] run[i]) by {
                if i < rest.len() {
                    assert(rest[i] == run[i]);
                }
            }
        }
    }
}

/// Whether the levels of an update can be told one by one: those it lists, and of a snapshot those
/// that stand.
pub open spec fn tellable(book: BookView, u: BookUpdate) -> bool {
    &&& listed(Side::Sell, u.spec_shape().bids@)
    &&& listed(Side::Sell, u.spec_shape().asks@)
    &&& listed(Side::Buy, book.bids)
    &&& listed(Side::Sell, book.asks)
}

/// Whether a map is the map of some levels.
pub open spec fn listed(side: Side, m: Map<i32, u32>) -> bool {
    exists|s: Seq<(i32, u32)>| best_first(side, s) && #[trigger] levels(s) == m
}

/// A diff carries one side onto the other: setting its levels on ours gives theirs. A shape that
/// lists a level at quantity zero denies that level rather than stating it, so it is left out.
pub proof fn a_diff_carries_ours_onto_theirs(
    side: Side,
    ours: Map<i32, u32>,
    theirs: Map<i32, u32>,
)
    requires
        listed(side, ours),
        listed(Side::Sell, theirs),
        forall|p: i32| #[trigger] theirs.contains_key(p) ==> theirs[p] != 0,
    ensures
        run_set(ours, side_diff(side, ours, theirs)) == theirs,
{
    let a = listing(Side::Sell, theirs);
    let b = listing(side, ours);
    let run = side_diff(side, ours, theirs);
    lemma_run(ours, run);
    lemma_run_net_adds(changed(ours, a), gone(b, theirs));
    assert forall|p: i32|
        #![trigger overlay(ours, run_net(run)).contains_key(p)]
        overlay(ours, run_net(run)).contains_key(p) == theirs.contains_key(p) && (overlay(
            ours,
            run_net(run),
        ).contains_key(p) ==> overlay(ours, run_net(run))[p] == theirs[p]) by {
        lemma_changed(ours, a, p);
        lemma_gone(side, b, theirs, p);
    }
    ladder::lemma_same(overlay(ours, run_net(run)), theirs);
}

/// A diff names what differs and nothing else: a level of theirs that ours does not hold just so, or,
/// at quantity zero, a level of ours that theirs does not hold; no deletion comes before a level that
/// is set.
pub proof fn a_diff_names_what_differs(
    side: Side,
    ours: Map<i32, u32>,
    theirs: Map<i32, u32>,
    i: int,
    j: int,
)
    requires
        listed(side, ours),
        listed(Side::Sell, theirs),
        0 <= i <= j < side_diff(side, ours, theirs).len(),
    ensures
        ({
            let run = side_diff(side, ours, theirs);
            let (price, qty) = run[i];
            &&& theirs.contains_key(price) ==> qty == theirs[price] && !(ours.contains_key(price)
                && ours[price] == qty)
            &&& !theirs.contains_key(price) ==> qty == 0 && ours.contains_key(price)
            &&& !theirs.contains_key(price) ==> !theirs.contains_key(run[j].0)
        }),
{
    let a = listing(Side::Sell, theirs);
    let b = listing(side, ours);
    let (first, then) = (changed(ours, a), gone(b, theirs));
    let run = side_diff(side, ours, theirs);
    let price = run[i].0;
    a_diff_names_no_price_twice(side, ours, theirs);
    lemma_net_once(run, price);
    lemma_run_net_adds(first, then);
    lemma_changed(ours, a, price);
    lemma_gone(side, b, theirs, price);
    assert(names(run, price));
    if i < first.len() {
        assert(first[i].0 == price);
        assert(names(first, price));
        lemma_changed_names(ours, a, price);
        let k = choose|k: int| 0 <= k < a.len() && #[trigger] a[k].0 == price;
        ladder::lemma_level_at(Side::Sell, a, k);
    } else {
        assert(run[j] == then[j - first.len()]);
        assert(names(then, run[j].0));
        lemma_gone_names(b, theirs, run[j].0);
    }
}

/// A book's diff is that of its bids and, after it, that of its asks, each level with its side.
pub proof fn a_book_s_diff_is_that_of_its_sides(book: BookView, other: BookShape, i: int)
    ensures
        ({
            let (bids, asks) = (
                side_diff(Side::Buy, book.bids, other.bids@),
                side_diff(Side::Sell, book.asks, other.asks@),
            );
            let run = diff_of(book, other);
            &&& run.len() == bids.len() + asks.len()
            &&& 0 <= i < bids.len() ==> run[i] == (Side::Buy, bids[i].0, bids[i].1)
            &&& 0 <= i < asks.len() ==> run[bids.len() + i] == (Side::Sell, asks[i].0, asks[i].1)
        }),
{
}

pub(crate) proof fn lemma_as_many_prices(side: Side, s: Seq<(i32, u32)>)
    requires
        best_first(side, s),
    ensures
        levels(s).dom().finite(),
        levels(s).dom().len() == s.len(),
    decreases s.len(),
{
    if s.len() == 0 {
        ladder::lemma_no_levels(s);
        assert(levels(s).dom() =~= Set::<i32>::empty());
    } else {
        let (rest, l) = (s.drop_last(), s.last());
        assert forall|a: int, b: int| 0 <= a < b < rest.len() implies ladder::rank(
            side,
            #[trigger] rest[a].0,
        ) < ladder::rank(side, #[trigger] rest[b].0) by {
            assert(rest[a] == s[a] && rest[b] == s[b]);
        }
        lemma_as_many_prices(side, rest);
        ladder::lemma_push(side, s, s.len() - 1);
        assert(s.take(s.len() as int) =~= s);
        assert(s.take(s.len() - 1) =~= rest);
        assert forall|k: int| 0 <= k < rest.len() implies #[trigger] rest[k].0 != l.0 by {
            assert(rest[k] == s[k]);
            assert(ladder::rank(side, s[k].0) < ladder::rank(side, s[s.len() - 1].0));
        }
        ladder::lemma_level_absent(rest, l.0);
        assert(levels(s).dom() =~= levels(rest).dom().insert(l.0));
    }
}

/// A book is as deep as it has prices on both its sides.
pub proof fn a_book_is_as_deep_as_it_has_prices(book: BookView)
    requires
        listed(Side::Buy, book.bids),
        listed(Side::Sell, book.asks),
    ensures
        book.depth() == book.bids.dom().len() + book.asks.dom().len(),
{
    lemma_as_many_prices(Side::Buy, listing(Side::Buy, book.bids));
    lemma_as_many_prices(Side::Sell, listing(Side::Sell, book.asks));
}

/// A diff is empty exactly where the two sides hold the same levels: an agreeing snapshot is not an
/// event.
pub proof fn an_agreeing_snapshot_is_not_an_event(
    side: Side,
    ours: Map<i32, u32>,
    theirs: Map<i32, u32>,
)
    requires
        listed(side, ours),
        listed(Side::Sell, theirs),
    ensures
        side_diff(side, ours, theirs).len() == 0 <==> ours == theirs,
{
    let a = listing(Side::Sell, theirs);
    let b = listing(side, ours);
    let run = side_diff(side, ours, theirs);
    lemma_run_net_adds(changed(ours, a), gone(b, theirs));
    if run.len() == 0 {
        assert(run_net(run) =~= Map::empty());
        assert forall|p: i32|
            #![trigger ours.contains_key(p)]
            ours.contains_key(p) == theirs.contains_key(p) && (ours.contains_key(p) ==> ours[p]
                == theirs[p]) by {
            lemma_changed(ours, a, p);
            lemma_gone(side, b, theirs, p);
            assert(!run_net(run).contains_key(p));
        }
        ladder::lemma_same(ours, theirs);
    }
    if ours == theirs && run.len() > 0 {
        let l = run.last();
        assert(run_net(run).contains_key(l.0));
        lemma_changed(ours, a, l.0);
        lemma_gone(side, b, theirs, l.0);
    }
}

/// The rows of one side of a run of levels set that side as the levels do, and leave the other side
/// alone.
proof fn lemma_sided_rows(
    m: Map<i32, u32>,
    list: Seq<(Side, i32, u32)>,
    rows: Seq<BookDelta>,
    side: Side,
    run: Seq<(i32, u32)>,
    other: Seq<(i32, u32)>,
)
    requires
        rows.len() == list.len(),
        forall|i: int|
            0 <= i < rows.len() ==> (#[trigger] rows[i]).side == list[i].0 && rows[i].price
                == list[i].1 && rows[i].qty == list[i].2,
        list == sided(Side::Buy, if side == Side::Buy {
            run
        } else {
            other
        }) + sided(Side::Sell, if side == Side::Buy {
            other
        } else {
            run
        }),
    ensures
        folded(m, rows, side) == run_set(m, run),
    decreases list.len(),
{
    let buys = if side == Side::Buy {
        run
    } else {
        other
    };
    let sells = if side == Side::Buy {
        other
    } else {
        run
    };
    if list.len() > 0 {
        let rest = rows.drop_last();
        assert forall|i: int| 0 <= i < rest.len() implies (#[trigger] rest[i]).side
            == list.drop_last()[i].0 && rest[i].price == list.drop_last()[i].1 && rest[i].qty
            == list.drop_last()[i].2 by {
            assert(rest[i] == rows[i]);
        }
        let n = list.len() - 1;
        assert(rows[n].side == list[n].0);
        if sells.len() > 0 {
            assert(list.last() == (Side::Sell, sells.last().0, sells.last().1));
            assert(list.drop_last() =~= sided(Side::Buy, buys) + sided(
                Side::Sell,
                sells.drop_last(),
            ));
            if side == Side::Sell {
                lemma_sided_rows(m, list.drop_last(), rest, side, run.drop_last(), other);
            } else {
                lemma_sided_rows(m, list.drop_last(), rest, side, run, other.drop_last());
            }
        } else {
            assert(list.last() == (Side::Buy, buys.last().0, buys.last().1));
            assert(list.drop_last() =~= sided(Side::Buy, buys.drop_last()) + sided(
                Side::Sell,
                sells,
            ));
            if side == Side::Buy {
                lemma_sided_rows(m, list.drop_last(), rest, side, run.drop_last(), other);
            } else {
                lemma_sided_rows(m, list.drop_last(), rest, side, run, other.drop_last());
            }
        }
    }
}

/// What an update leaves of either side of a book with a place in the stream.
proof fn lemma_ingested_sides(sv: ShadowView, u: BookUpdate, recv: Ts<Local>)
    requires
        sv.book.synced,
        once_each(listed_levels(sv.book, u, Side::Buy)),
        once_each(listed_levels(sv.book, u, Side::Sell)),
    ensures
        sv.ingested(u, recv).book.bids == run_set(
            sv.book.bids,
            listed_levels(sv.book, u, Side::Buy),
        ),
        sv.ingested(u, recv).book.asks == run_set(
            sv.book.asks,
            listed_levels(sv.book, u, Side::Sell),
        ),
        any_told(sv.book, all_listed(sv.book, u)) <==> any_tells(
            sv.book.bids,
            listed_levels(sv.book, u, Side::Buy),
        ) || any_tells(sv.book.asks, listed_levels(sv.book, u, Side::Sell)),
{
    let (b, a) = (listed_levels(sv.book, u, Side::Buy), listed_levels(sv.book, u, Side::Sell));
    let list = all_listed(sv.book, u);
    let rows = sv.rows(u, recv);
    lemma_run_changes(sv.book.bids, b);
    lemma_run_changes(sv.book.asks, a);
    if any_tells(sv.book.bids, b) {
        let i = choose|i: int| 0 <= i < b.len() && tells(sv.book.bids, #[trigger] b[i]);
        assert(told(sv.book, list[i]));
    }
    if any_tells(sv.book.asks, a) {
        let i = choose|i: int| 0 <= i < a.len() && tells(sv.book.asks, #[trigger] a[i]);
        assert(told(sv.book, list[b.len() + i]));
    }
    if any_told(sv.book, list) {
        let i = choose|i: int| 0 <= i < list.len() && #[trigger] told(sv.book, list[i]);
        if i < b.len() {
            assert(tells(sv.book.bids, b[i]));
        } else {
            assert(tells(sv.book.asks, a[i - b.len()]));
        }
        lemma_sided_rows(sv.book.bids, list, rows, Side::Buy, b, a);
        lemma_sided_rows(sv.book.asks, list, rows, Side::Sell, a, b);
    } else {
        assert(rows =~= Seq::empty());
    }
}

/// The levels an update lists name no price twice.
proof fn lemma_listed_once(book: BookView, u: BookUpdate)
    requires
        tellable(book, u),
    ensures
        once_each(listed_levels(book, u, Side::Buy)),
        once_each(listed_levels(book, u, Side::Sell)),
{
    let s = u.spec_shape();
    match u {
        BookUpdate::Snapshot(_) => {
            a_diff_names_no_price_twice(Side::Buy, book.bids, s.bids@);
            a_diff_names_no_price_twice(Side::Sell, book.asks, s.asks@);
        },
        BookUpdate::BatchDelta { .. } => {
            lemma_sorted_once(Side::Sell, listing(Side::Sell, s.bids@));
            lemma_sorted_once(Side::Sell, listing(Side::Sell, s.asks@));
        },
    }
}

/// A snapshot is carried: whatever we held, after a venue's snapshot we hold the venue's levels.
pub proof fn a_snapshot_is_carried(sv: ShadowView, s: BookShape, recv: Ts<Local>)
    requires
        sv.book.synced,
        listed(Side::Buy, sv.book.bids),
        listed(Side::Sell, sv.book.asks),
        listed(Side::Sell, s.bids@),
        listed(Side::Sell, s.asks@),
        forall|p: i32| #[trigger] s.bids@.contains_key(p) ==> s.bids@[p] != 0,
        forall|p: i32| #[trigger] s.asks@.contains_key(p) ==> s.asks@[p] != 0,
    ensures
        sv.ingested(BookUpdate::Snapshot(s), recv).book.bids == s.bids@,
        sv.ingested(BookUpdate::Snapshot(s), recv).book.asks == s.asks@,
{
    let u = BookUpdate::Snapshot(s);
    lemma_listed_once(sv.book, u);
    lemma_ingested_sides(sv, u, recv);
    a_diff_carries_ours_onto_theirs(Side::Buy, sv.book.bids, s.bids@);
    a_diff_carries_ours_onto_theirs(Side::Sell, sv.book.asks, s.asks@);
}

/// A delta is carried: every level it lists is set on what we held, and one it lists at quantity zero
/// stands no more.
pub proof fn a_delta_is_carried(sv: ShadowView, shape: BookShape, gapped: bool, recv: Ts<Local>)
    requires
        sv.book.synced,
        listed(Side::Sell, shape.bids@),
        listed(Side::Sell, shape.asks@),
    ensures
        ({
            let after = sv.ingested(BookUpdate::BatchDelta { shape, gapped }, recv).book;
            &&& after.bids == overlay(sv.book.bids, shape.bids@)
            &&& after.asks == overlay(sv.book.asks, shape.asks@)
        }),
{
    let u = BookUpdate::BatchDelta { shape, gapped };
    let (b, a) = (listing(Side::Sell, shape.bids@), listing(Side::Sell, shape.asks@));
    lemma_sorted_once(Side::Sell, b);
    lemma_sorted_once(Side::Sell, a);
    lemma_ingested_sides(sv, u, recv);
    lemma_run(sv.book.bids, b);
    lemma_run(sv.book.asks, a);
    lemma_sorted_net(Side::Sell, b);
    lemma_sorted_net(Side::Sell, a);
}

/// An epoch that a delta opens starts from the levels it does not remove: none stands at quantity
/// zero.
pub proof fn a_delta_opens_an_epoch_without_what_it_removes(
    sv: ShadowView,
    shape: BookShape,
    gapped: bool,
    recv: Ts<Local>,
    price: i32,
)
    requires
        !sv.book.synced,
    ensures
        ({
            let after = sv.ingested(BookUpdate::BatchDelta { shape, gapped }, recv).book;
            &&& after.bids.contains_key(price) <==> shape.bids@.contains_key(price)
                && shape.bids@[price] != 0
            &&& after.asks.contains_key(price) <==> shape.asks@.contains_key(price)
                && shape.asks@[price] != 0
            &&& after.bids.contains_key(price) ==> after.bids[price] == shape.bids@[price]
            &&& after.asks.contains_key(price) ==> after.asks[price] == shape.asks@[price]
        }),
{
}

/// An update is an event exactly where it changes the book: on a book with a place in the stream,
/// nothing is emitted where the levels stay what they were, and where they do not, every level that
/// the update lists is.
pub proof fn an_update_is_an_event_where_it_changes_the_book(
    sv: ShadowView,
    u: BookUpdate,
    recv: Ts<Local>,
)
    requires
        sv.book.synced,
        tellable(sv.book, u),
    ensures
        update_levels(sv.book, u).len() == 0 <==> sv.ingested(u, recv).book.bids == sv.book.bids
            && sv.ingested(u, recv).book.asks == sv.book.asks,
        update_levels(sv.book, u).len() == 0 || update_levels(sv.book, u) == all_listed(sv.book, u),
{
    lemma_listed_once(sv.book, u);
    lemma_ingested_sides(sv, u, recv);
    lemma_run_changes(sv.book.bids, listed_levels(sv.book, u, Side::Buy));
    lemma_run_changes(sv.book.asks, listed_levels(sv.book, u, Side::Sell));
}

/// The recollection after a run of updates.
pub open spec fn ingested_all(sv: ShadowView, us: Seq<(BookUpdate, Ts<Local>)>) -> ShadowView
    decreases us.len(),
{
    if us.len() == 0 {
        sv
    } else {
        ingested_all(sv, us.drop_last()).ingested(us.last().0, us.last().1)
    }
}

/// Everything emitted over a run of updates.
pub open spec fn tape(sv: ShadowView, us: Seq<(BookUpdate, Ts<Local>)>) -> Seq<BookDelta>
    decreases us.len(),
{
    if us.len() == 0 {
        Seq::empty()
    } else {
        let before = ingested_all(sv, us.drop_last());
        if before.book.synced {
            tape(sv, us.drop_last()) + before.rows(us.last().0, us.last().1)
        } else {
            tape(sv, us.drop_last())
        }
    }
}

/// The whole point of the layer: the emitted stream is our reconciliation, and folding it from one
/// of our own checkpoints reproduces our book exactly.
pub proof fn the_emitted_stream_replays_exactly(sv: ShadowView, us: Seq<(BookUpdate, Ts<Local>)>)
    requires
        sv.book.synced,
    ensures
        folded(sv.book.bids, tape(sv, us), Side::Buy) == ingested_all(sv, us).book.bids,
        folded(sv.book.asks, tape(sv, us), Side::Sell) == ingested_all(sv, us).book.asks,
        ingested_all(sv, us).book.synced,
        ingested_all(sv, us).book.epoch == sv.book.epoch,
    decreases us.len(),
{
    if us.len() > 0 {
        let rest = us.drop_last();
        the_emitted_stream_replays_exactly(sv, rest);
        let before = ingested_all(sv, rest);
        let rows = before.rows(us.last().0, us.last().1);
        folding_is_sequential(sv.book.bids, tape(sv, rest), rows, Side::Buy);
        folding_is_sequential(sv.book.asks, tape(sv, rest), rows, Side::Sell);
    }
}

/// The emitted stream is gapless: the rows of an update are numbered from where the recollection
/// stands, without a hole, up to where it stands afterwards.
pub proof fn the_emitted_stream_is_gapless(sv: ShadowView, u: BookUpdate, recv: Ts<Local>)
    requires
        sv.book.synced,
        0 <= sv.seq,
        sv.seq + update_levels(sv.book, u).len() <= u64::MAX,
    ensures
        numbered(sv.rows(u, recv)),
        sv.rows(u, recv).len() > 0 ==> sv.rows(u, recv)[0].monotonic_seq == sv.seq + 1,
        sv.rows(u, recv).len() > 0 ==> sv.rows(u, recv).last().monotonic_seq == sv.ingested(
            u,
            recv,
        ).seq,
{
}

/// The recollection once a checkpoint was asked of it.
pub open spec fn checkpointed_at(sv: ShadowView, t: int) -> ShadowView {
    if sv.due(t) {
        ShadowView { checkpointed: Some(sv.period(t)), ..sv }
    } else {
        sv
    }
}

/// A checkpoint is written once per period of the cadence, on the grid that is floored from the
/// epoch: asked at `t` and then at `u`, a synced book writes the second time exactly where the two
/// times lie in different periods. So none is due twice in one, one is due wherever a whole cadence
/// has gone by, and which of the times came first says nothing.
pub proof fn a_checkpoint_is_due_once_per_period(sv: ShadowView, t: int, u: int)
    requires
        sv.book.synced,
        sv.cadence > 0,
    ensures
        checkpointed_at(sv, t).due(u) <==> t / sv.cadence != u / sv.cadence,
        !checkpointed_at(sv, t).due(t),
        u >= t + sv.cadence ==> checkpointed_at(sv, t).due(u),
        u <= t - sv.cadence ==> checkpointed_at(sv, t).due(u),
        forall|k: int|
            k * sv.cadence <= t < (k + 1) * sv.cadence && #[trigger] (k * sv.cadence) <= u < (k + 1)
                * sv.cadence ==> !checkpointed_at(sv, t).due(u),
{
    let c = sv.cadence;
    assert(u >= t + c ==> u / c != t / c) by (nonlinear_arith)
        requires
            c > 0,
    ;
    assert(u <= t - c ==> u / c != t / c) by (nonlinear_arith)
        requires
            c > 0,
    ;
    assert forall|k: int| k * c <= t < (k + 1) * c && #[trigger] (k * c) <= u < (k + 1) * c implies t
        / c == u / c by {
        assert(t / c == k && u / c == k) by (nonlinear_arith)
            requires
                c > 0,
                k * c <= t < (k + 1) * c,
                k * c <= u < (k + 1) * c,
        ;
    }
}

/// A checkpoint is a book's own: none is due before an epoch opens, one is due as soon as it has,
/// whenever that is, and an update that comes in between moves neither when the next is due nor the
/// cadence.
pub proof fn a_checkpoint_follows_its_epoch(sv: ShadowView, u: BookUpdate, recv: Ts<Local>, t: int)
    ensures
        !sv.book.synced ==> !sv.due(t),
        !sv.book.synced ==> sv.ingested(u, recv).due(t),
        !sv.book.synced ==> sv.ingested(u, recv).epoch_start == Some(recv@),
        sv.book.synced ==> sv.ingested(u, recv).due(t) == sv.due(t),
        sv.book.synced ==> sv.ingested(u, recv).epoch_start == sv.epoch_start,
        sv.ingested(u, recv).cadence == sv.cadence,
        sv.ingested(u, recv).book.synced,
{
}

} // verus!
