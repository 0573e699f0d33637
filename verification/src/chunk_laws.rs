//! What a chunk holds of a run of rows, however the run was cut into batches.

use vstd::prelude::*;

use crate::book::{folded, BookShape, BookView};
use crate::book_laws::{folding_is_sequential, in_period, lemma_numbered, numbered};
use crate::book_laws::{the_net_costs_depth, the_net_is_the_rows};
use crate::chunk::{net_of, period_start, unstepped, ChunkView};
use crate::delta::BookDelta;
use crate::ladder;
use crate::ladder::{best_first, levels, listing};
use crate::precision::PrecisionPriceQty;
use crate::side::Side;

verus! {

/// The chunk one batch on.
pub open spec fn advanced(c: ChunkView, batch: Seq<BookDelta>, period: int) -> ChunkView {
    ChunkView { fresh: batch, ..c.taken(batch, period) }
}

/// The chunk after a run of batches.
pub open spec fn advanced_all(c: ChunkView, batches: Seq<Seq<BookDelta>>, period: int) -> ChunkView
    decreases batches.len(),
{
    if batches.len() == 0 {
        c
    } else {
        advanced(advanced_all(c, batches.drop_last(), period), batches.last(), period)
    }
}

/// The rows of a run of batches, one after the other.
pub open spec fn all_rows(batches: Seq<Seq<BookDelta>>) -> Seq<BookDelta>
    decreases batches.len(),
{
    if batches.len() == 0 {
        Seq::empty()
    } else {
        all_rows(batches.drop_last()) + batches.last()
    }
}

/// The rows of the tick say nothing of what is folded.
proof fn lemma_fresh_aside(c: ChunkView, fresh: Seq<BookDelta>, rows: Seq<BookDelta>, period: int)
    ensures
        (ChunkView { fresh, ..c }).taken(rows, period) == (ChunkView {
            fresh,
            ..c.taken(rows, period)
        }),
    decreases rows.len(),
{
    if rows.len() > 0 {
        lemma_fresh_aside(c, fresh, rows.drop_last(), period);
    }
}

/// Taking one run in and then another is taking in both.
pub proof fn taking_is_sequential(
    c: ChunkView,
    a: Seq<BookDelta>,
    b: Seq<BookDelta>,
    period: int,
)
    ensures
        c.taken(a, period).taken(b, period) == c.taken(a + b, period),
    decreases b.len(),
{
    if b.len() == 0 {
        assert(a + b =~= a);
    } else {
        taking_is_sequential(c, a, b.drop_last(), period);
        assert((a + b).drop_last() =~= a + b.drop_last());
        assert((a + b).last() == b.last());
    }
}

/// A chunk holds what its rows come to, however they were cut into batches: only the rows of the
/// tick tell one cut from another.
pub proof fn a_chunk_is_its_rows_however_they_were_cut(
    c: ChunkView,
    batches: Seq<Seq<BookDelta>>,
    period: int,
)
    requires
        batches.len() > 0,
    ensures
        advanced_all(c, batches, period) == (ChunkView {
            fresh: batches.last(),
            ..c.taken(all_rows(batches), period)
        }),
    decreases batches.len(),
{
    let rest = batches.drop_last();
    let batch = batches.last();
    if rest.len() == 0 {
        assert(all_rows(rest) + batch =~= batch);
        assert(advanced_all(c, rest, period) == c);
    } else {
        a_chunk_is_its_rows_however_they_were_cut(c, rest, period);
        let before = c.taken(all_rows(rest), period);
        lemma_fresh_aside(before, rest.last(), batch, period);
        taking_is_sequential(c, all_rows(rest), batch, period);
    }
}

/// Where the last row's period begins in a run.
pub open spec fn turn(rows: Seq<BookDelta>, period: int) -> int
    decreases rows.len(),
{
    if rows.len() <= 1 {
        0
    } else if period_start(rows[rows.len() - 2].ts_venue_exec@, period) == period_start(
        rows.last().ts_venue_exec@,
        period,
    ) {
        turn(rows.drop_last(), period)
    } else {
        rows.len() - 1
    }
}

/// The rows of a run that share the last one's period.
pub open spec fn current(rows: Seq<BookDelta>, period: int) -> Seq<BookDelta> {
    rows.skip(turn(rows, period))
}

/// The rows of the period before.
pub open spec fn previous(rows: Seq<BookDelta>, period: int) -> Seq<BookDelta> {
    current(rows.take(turn(rows, period)), period)
}

/// The numbers of the first and the last of some rows.
pub open spec fn ends(rows: Seq<BookDelta>) -> Option<(int, int)> {
    if rows.len() == 0 {
        None
    } else {
        Some((rows[0].monotonic_seq as int, rows.last().monotonic_seq as int))
    }
}

proof fn lemma_turn(rows: Seq<BookDelta>, period: int)
    ensures
        0 <= turn(rows, period) <= rows.len(),
        rows.len() > 0 ==> turn(rows, period) < rows.len(),
    decreases rows.len(),
{
    if rows.len() > 1 {
        lemma_turn(rows.drop_last(), period);
    }
}

/// What a chunk holds, over every run of rows it can have taken: the net, the numbers and whether
/// they ran unbroken, of the period of the last row and of the period before it.
pub proof fn a_chunk_holds_its_last_two_periods(rows: Seq<BookDelta>, period: int)
    requires
        rows.len() > 0,
    ensures
        ({
            let t = unstepped().taken(rows, period);
            let (now, then) = (current(rows, period), previous(rows, period));
            &&& t.base == period_start(rows.last().ts_venue_exec@, period)
            &&& t.bids == net_of(now, Side::Buy)
            &&& t.asks == net_of(now, Side::Sell)
            &&& t.seq == ends(now)
            &&& t.contiguous == numbered(now)
            &&& t.span == (now[0].ts_venue_exec@, rows.last().ts_venue_exec@)
            &&& t.prev_bids == net_of(then, Side::Buy)
            &&& t.prev_asks == net_of(then, Side::Sell)
            &&& t.prev_seq == ends(then)
            &&& t.prev_contiguous == numbered(then)
        }),
    decreases rows.len(),
{
    let rest = rows.drop_last();
    let d = rows.last();
    let now = current(rows, period);
    lemma_turn(rows, period);
    assert(net_of(Seq::empty(), Side::Buy) =~= Map::<i32, u32>::empty());
    assert(net_of(Seq::empty(), Side::Sell) =~= Map::<i32, u32>::empty());
    if rest.len() == 0 {
        assert(unstepped().taken(rest, period) == unstepped());
        assert(now =~= seq![d]);
        assert(now.drop_last() =~= Seq::empty());
        assert(previous(rows, period) =~= Seq::empty());
        assert(numbered(now));
        assert(unstepped().opened(d, period).bids =~= Map::<i32, u32>::empty());
        assert(unstepped().opened(d, period).asks =~= Map::<i32, u32>::empty());
    } else {
        a_chunk_holds_its_last_two_periods(rest, period);
        lemma_turn(rest, period);
        let t = unstepped().taken(rest, period);
        assert(rest.last() == rows[rows.len() - 2]);
        if turn(rows, period) == rows.len() - 1 && period_start(
            rest.last().ts_venue_exec@,
            period,
        ) != period_start(d.ts_venue_exec@, period) {
            assert(now =~= seq![d]);
            assert(now.drop_last() =~= Seq::empty());
            assert(rows.take(turn(rows, period)) =~= rest);
            assert(numbered(now));
        } else {
            let before = current(rest, period);
            assert(now =~= before.push(d));
            assert(now.drop_last() =~= before);
            assert(rows.take(turn(rows, period)) =~= rest.take(turn(rest, period)));
            assert(t.opened(d, period) == t);
            assert(before.last() == rest.last());
            lemma_numbered(now);
        }
    }
}

/// Two runs one after the other are numbered without a hole exactly where each is and the second
/// goes on from the first.
proof fn lemma_numbered_joins(a: Seq<BookDelta>, b: Seq<BookDelta>)
    requires
        a.len() > 0,
        b.len() > 0,
    ensures
        numbered(a + b) <==> numbered(a) && numbered(b) && a.last().monotonic_seq + 1
            == b[0].monotonic_seq,
    decreases b.len(),
{
    let ab = a + b;
    assert(ab.drop_last() =~= a + b.drop_last());
    assert(ab.last() == b.last());
    lemma_numbered(ab);
    if b.len() == 1 {
        assert(a + b.drop_last() =~= a);
        assert(numbered(b));
    } else {
        lemma_numbered_joins(a, b.drop_last());
        lemma_numbered(b);
        assert((a + b.drop_last()).last() == b.drop_last().last());
        assert(b.drop_last()[0] == b[0]);
    }
}

/// Two nets join, over every run of rows a chunk can have taken, exactly where the period before
/// held a row and the rows of both periods are numbered without a hole; and then they speak for the
/// numbers from the first of them to the last.
pub proof fn two_periods_join_where_their_rows_run_on(rows: Seq<BookDelta>, period: int)
    requires
        rows.len() > 0,
    ensures
        ({
            let (now, then) = (current(rows, period), previous(rows, period));
            unstepped().taken(rows, period).joined() == if then.len() > 0 && numbered(then + now) {
                Some((then[0].monotonic_seq as int, rows.last().monotonic_seq as int))
            } else {
                None
            }
        }),
{
    let (now, then) = (current(rows, period), previous(rows, period));
    a_chunk_holds_its_last_two_periods(rows, period);
    lemma_turn(rows, period);
    assert(now.last() == rows.last());
    if then.len() > 0 {
        lemma_numbered_joins(then, now);
    }
}

/// The prices that rows of one side touch.
pub open spec fn touched(rows: Seq<BookDelta>, side: Side) -> Set<i32> {
    Set::new(
        |price: i32|
            exists|i: int|
                0 <= i < rows.len() && (#[trigger] rows[i]).side == side && rows[i].price == price,
    )
}

/// A side lists a level per price.
proof fn lemma_depth(side: Side, s: Seq<(i32, u32)>)
    requires
        best_first(side, s),
    ensures
        levels(s).dom().finite(),
        levels(s).dom().len() == s.len(),
    decreases s.len(),
{
    if s.len() == 0 {
        ladder::lemma_no_levels(s);
        assert(levels(s).dom() =~= Set::<i32>::empty());
    } else {
        let n = s.len() - 1;
        ladder::lemma_level_at(side, s, n);
        ladder::lemma_remove(side, s, n);
        lemma_depth(side, s.remove(n));
        assert(levels(s).dom() =~= levels(s.remove(n)).dom().insert(s[n].0));
        assert(!levels(s.remove(n)).dom().contains(s[n].0));
    }
}

/// A net is the map of some levels.
proof fn lemma_net_listed(rows: Seq<BookDelta>, side: Side) -> (s: Seq<(i32, u32)>)
    ensures
        best_first(Side::Sell, s),
        levels(s) == net_of(rows, side),
    decreases rows.len(),
{
    if rows.len() == 0 {
        let s = Seq::<(i32, u32)>::empty();
        ladder::lemma_no_levels(s);
        s
    } else {
        let before = lemma_net_listed(rows.drop_last(), side);
        let d = rows.last();
        if d.side == side {
            ladder::lemma_put(before, d.price, d.qty)
        } else {
            before
        }
    }
}

/// What a retention costs is the prices its rows touched, not the rows: over every run of rows a
/// chunk can have taken, it holds a level per price touched in the last two periods, on either side.
pub proof fn a_chunk_costs_the_prices_it_touched(rows: Seq<BookDelta>, period: int)
    requires
        rows.len() > 0,
    ensures
        ({
            let t = unstepped().taken(rows, period);
            let (now, then) = (current(rows, period), previous(rows, period));
            &&& listing(Side::Sell, t.bids).len() == touched(now, Side::Buy).len()
            &&& listing(Side::Sell, t.asks).len() == touched(now, Side::Sell).len()
            &&& listing(Side::Sell, t.prev_bids).len() == touched(then, Side::Buy).len()
            &&& listing(Side::Sell, t.prev_asks).len() == touched(then, Side::Sell).len()
        }),
{
    let (now, then) = (current(rows, period), previous(rows, period));
    a_chunk_holds_its_last_two_periods(rows, period);
    lemma_net_depth(now, Side::Buy);
    lemma_net_depth(now, Side::Sell);
    lemma_net_depth(then, Side::Buy);
    lemma_net_depth(then, Side::Sell);
}

proof fn lemma_net_depth(rows: Seq<BookDelta>, side: Side)
    ensures
        listing(Side::Sell, net_of(rows, side)).len() == touched(rows, side).len(),
{
    let s = lemma_net_listed(rows, side);
    ladder::lemma_listing(Side::Sell, s);
    lemma_depth(Side::Sell, s);
    assert forall|p: i32| net_of(rows, side).dom().contains(p) == #[trigger] touched(
        rows,
        side,
    ).contains(p) by {
        the_net_costs_depth(rows, side, p);
    }
    assert(net_of(rows, side).dom() =~= touched(rows, side));
}

/// A book stepped after each of a run of batches, with the same checkpoint at hand throughout.
pub open spec fn stepped_all(
    book: BookView,
    anchor: BookShape,
    batches: Seq<Seq<BookDelta>>,
    period: int,
) -> BookView
    decreases batches.len(),
{
    if batches.len() == 0 {
        book
    } else {
        stepped_all(book, anchor, batches.drop_last(), period).step(
            Some(anchor),
            advanced_all(unstepped(), batches, period),
        )
    }
}

proof fn lemma_one_turn(rows: Seq<BookDelta>, base: int, period: int)
    requires
        in_period(rows, base, period),
    ensures
        turn(rows, period) == 0,
    decreases rows.len(),
{
    if rows.len() > 1 {
        let rest = rows.drop_last();
        assert forall|i: int| 0 <= i < rest.len() implies period_start(
            (#[trigger] rest[i]).ts_venue_exec@,
            period,
        ) == base by {
            assert(rest[i] == rows[i]);
        }
        lemma_one_turn(rest, base, period);
        assert(period_start(rows[rows.len() - 1].ts_venue_exec@, period) == base);
        assert(period_start(rows[rows.len() - 2].ts_venue_exec@, period) == base);
    }
}

/// A book awake through a period, stepped after each batch, holds what folding every row of it from
/// the checkpoint gives: it is readable after every step, and the last row is its place.
proof fn lemma_awake(
    book: BookView,
    anchor: BookShape,
    batches: Seq<Seq<BookDelta>>,
    base: int,
    period: int,
)
    requires
        !book.synced,
        batches.len() > 0,
        in_period(all_rows(batches), base, period),
        numbered(all_rows(batches)),
    ensures
        ({
            let awake = stepped_all(book, anchor, batches, period);
            let rows = all_rows(batches);
            &&& awake.synced
            &&& awake.bids == folded(anchor.bids@, rows, Side::Buy)
            &&& awake.asks == folded(anchor.asks@, rows, Side::Sell)
            &&& awake.seq == if rows.len() == 0 {
                None
            } else {
                Some(rows.last().monotonic_seq as int)
            }
        }),
    decreases batches.len(),
{
    let rest = batches.drop_last();
    let batch = batches.last();
    let rows = all_rows(batches);
    let before = all_rows(rest);
    let c = advanced_all(unstepped(), batches, period);
    a_chunk_is_its_rows_however_they_were_cut(unstepped(), batches, period);
    lemma_one_turn(rows, base, period);
    if rows.len() > 0 {
        a_chunk_holds_its_last_two_periods(rows, period);
        assert(current(rows, period) =~= rows);
    } else {
        assert(unstepped().taken(rows, period) == unstepped());
    }
    assert(c.contiguous);
    if rest.len() == 0 {
        assert(stepped_all(book, anchor, rest, period) == book);
        the_net_is_the_rows(anchor.bids@, rows, Side::Buy);
        the_net_is_the_rows(anchor.asks@, rows, Side::Sell);
    } else {
        assert forall|i: int| 0 <= i < before.len() implies period_start(
            (#[trigger] before[i]).ts_venue_exec@,
            period,
        ) == base by {
            assert(before[i] == rows[i]);
        }
        assert forall|i: int| 0 <= i < before.len() implies (#[trigger] before[i]).monotonic_seq
            == before[0].monotonic_seq + i by {
            assert(before[i] == rows[i] && before[0] == rows[0]);
        }
        lemma_awake(book, anchor, rest, base, period);
        let at = stepped_all(book, anchor, rest, period);
        if batch.len() > 0 {
            assert(batch[0] == rows[before.len() as int]);
            assert(rows.last() == batch.last());
            if before.len() > 0 {
                assert(before.last() == rows[before.len() - 1]);
            }
        } else {
            assert(rows =~= before);
        }
        assert(at.reach(c) is Fresh);
        folding_is_sequential(anchor.bids@, before, batch, Side::Buy);
        folding_is_sequential(anchor.asks@, before, batch, Side::Sell);
    }
}

/// A period's net is its rows, deletions and corrections included, however the run was cut: a book
/// stepped after each batch is readable after every one of them, and ends at the levels and the
/// place of a book that has none and takes the whole period in one step.
pub proof fn a_period_s_net_is_its_rows_however_they_were_cut(
    book: BookView,
    anchor: BookShape,
    batches: Seq<Seq<BookDelta>>,
    base: int,
    period: int,
)
    requires
        !book.synced,
        batches.len() > 0,
        in_period(all_rows(batches), base, period),
        numbered(all_rows(batches)),
    ensures
        ({
            let awake = stepped_all(book, anchor, batches, period);
            let woken = stepped_all(book, anchor, seq![all_rows(batches)], period);
            &&& awake.bids == woken.bids
            &&& awake.asks == woken.asks
            &&& awake.resume_seq() == woken.resume_seq()
            &&& woken.synced
        }),
        forall|k: int|
            1 <= k <= batches.len() ==> (#[trigger] stepped_all(
                book,
                anchor,
                batches.take(k),
                period,
            )).synced,
{
    let rows = all_rows(batches);
    let whole = seq![rows];
    assert(whole.drop_last() =~= Seq::empty());
    assert(all_rows(whole.drop_last()) =~= Seq::empty());
    assert(all_rows(whole) == all_rows(whole.drop_last()) + whole.last());
    assert(all_rows(whole) =~= rows);
    lemma_awake(book, anchor, batches, base, period);
    lemma_awake(book, anchor, whole, base, period);
    assert forall|k: int| 1 <= k <= batches.len() implies (#[trigger] stepped_all(
        book,
        anchor,
        batches.take(k),
        period,
    )).synced by {
        lemma_rows_prefix(batches, k);
        let part = all_rows(batches.take(k));
        assert forall|i: int| 0 <= i < part.len() implies period_start(
            (#[trigger] part[i]).ts_venue_exec@,
            period,
        ) == base by {
            assert(part[i] == rows[i]);
        }
        assert forall|i: int| 0 <= i < part.len() implies (#[trigger] part[i]).monotonic_seq
            == part[0].monotonic_seq + i by {
            assert(part[i] == rows[i] && part[0] == rows[0]);
        }
        lemma_awake(book, anchor, batches.take(k), base, period);
    }
}

/// The rows of some of the batches lead the rows of all.
proof fn lemma_rows_prefix(batches: Seq<Seq<BookDelta>>, k: int)
    requires
        0 <= k <= batches.len(),
    ensures
        all_rows(batches.take(k)).len() <= all_rows(batches).len(),
        forall|i: int|
            0 <= i < all_rows(batches.take(k)).len() ==> #[trigger] all_rows(batches.take(k))[i]
                == all_rows(batches)[i],
    decreases batches.len(),
{
    if k == batches.len() {
        assert(batches.take(k) =~= batches);
    } else {
        lemma_rows_prefix(batches.drop_last(), k);
        assert(batches.drop_last().take(k) =~= batches.take(k));
    }
}

/// Whether rows come in the order of their venue times.
pub open spec fn in_time(rows: Seq<BookDelta>) -> bool {
    forall|i: int, j: int|
        0 <= i < j < rows.len() ==> #[trigger] rows[i].ts_venue_exec@
            <= #[trigger] rows[j].ts_venue_exec@
}

/// Whether rows are at a precision.
pub open spec fn all_at(rows: Seq<BookDelta>, prec: PrecisionPriceQty) -> bool {
    forall|i: int| 0 <= i < rows.len() ==> prec == #[trigger] rows[i].prec
}

/// Whether some rows are a run of one period as it is recorded: of one period, numbered without a
/// hole, in the order of their times, and at one precision.
pub open spec fn one_run(rows: Seq<BookDelta>, base: int, period: int, prec: PrecisionPriceQty) -> bool {
    &&& in_period(rows, base, period)
    &&& numbered(rows)
    &&& in_time(rows)
    &&& all_at(rows, prec)
}

/// What leads a run is a run.
proof fn lemma_leads(rows: Seq<BookDelta>, n: int, base: int, period: int, prec: PrecisionPriceQty)
    requires
        one_run(rows, base, period, prec),
        0 <= n <= rows.len(),
    ensures
        one_run(rows.take(n), base, period, prec),
{
    let part = rows.take(n);
    assert forall|i: int| 0 <= i < part.len() implies period_start(
        (#[trigger] part[i]).ts_venue_exec@,
        period,
    ) == base && part[i].monotonic_seq == part[0].monotonic_seq + i && prec == part[i].prec by {
        assert(part[i] == rows[i] && part[0] == rows[0]);
    }
}

/// A run of one period can be taken in whole.
proof fn lemma_takes_run(rows: Seq<BookDelta>, base: int, period: int, prec: PrecisionPriceQty)
    requires
        one_run(rows, base, period, prec),
        i64::MIN <= base,
    ensures
        unstepped().takes_all(rows, period),
    decreases rows.len(),
{
    if rows.len() > 0 {
        let rest = rows.drop_last();
        let d = rows.last();
        assert(rest =~= rows.take(rows.len() - 1));
        lemma_leads(rows, rows.len() - 1, base, period, prec);
        lemma_takes_run(rest, base, period, prec);
        assert(d == rows[rows.len() - 1]);
        if rest.len() > 0 {
            lemma_one_turn(rest, base, period);
            a_chunk_holds_its_last_two_periods(rest, period);
            assert(current(rest, period) =~= rest);
            assert(rest[0] == rows[0] && rest.last() == rows[rows.len() - 2]);
        } else {
            assert(unstepped().taken(rest, period) == unstepped());
        }
    }
}

/// What can be taken in can be taken in two parts, whatever the rows of the tick were.
proof fn lemma_takes_parts(
    c: ChunkView,
    fresh: Seq<BookDelta>,
    a: Seq<BookDelta>,
    b: Seq<BookDelta>,
    period: int,
)
    requires
        c.takes_all(a + b, period),
    ensures
        (ChunkView { fresh, ..c.taken(a, period) }).takes_all(b, period),
    decreases b.len(),
{
    if b.len() > 0 {
        let rest = b.drop_last();
        assert((a + b).drop_last() =~= a + rest);
        assert((a + b).last() == b.last());
        lemma_takes_parts(c, fresh, a, rest, period);
        taking_is_sequential(c, a, rest, period);
        lemma_fresh_aside(c.taken(a, period), fresh, rest, period);
    }
}

/// The chunk of the first `k` batches.
pub open spec fn chunk_at(batches: Seq<Seq<BookDelta>>, k: int, period: int) -> ChunkView {
    advanced_all(unstepped(), batches.take(k), period)
}

/// A book stepped through a run can be, and its chunk can take each batch.
proof fn lemma_steps_fit(
    book: BookView,
    anchor: BookShape,
    batches: Seq<Seq<BookDelta>>,
    base: int,
    period: int,
)
    requires
        !book.synced,
        book.epoch < u64::MAX,
        i64::MIN <= base,
        batches.len() > 0,
        one_run(all_rows(batches), base, period, anchor.prec),
    ensures
        advanced_all(unstepped(), batches.drop_last(), period).takes_all(batches.last(), period),
        stepped_all(book, anchor, batches.drop_last(), period).can_step(
            Some(anchor),
            advanced_all(unstepped(), batches, period),
        ),
        stepped_all(book, anchor, batches, period).prec == anchor.prec,
    decreases batches.len(),
{
    let rest = batches.drop_last();
    let batch = batches.last();
    let (rows, before) = (all_rows(batches), all_rows(rest));
    let c = advanced_all(unstepped(), batches, period);
    lemma_takes_run(rows, base, period, anchor.prec);
    if rest.len() > 0 {
        a_chunk_is_its_rows_however_they_were_cut(unstepped(), rest, period);
        lemma_takes_parts(unstepped(), rest.last(), before, batch, period);
    } else {
        assert(before + batch =~= batch);
    }
    a_chunk_is_its_rows_however_they_were_cut(unstepped(), batches, period);
    lemma_one_turn(rows, base, period);
    if rows.len() > 0 {
        a_chunk_holds_its_last_two_periods(rows, period);
        assert(current(rows, period) =~= rows);
        assert(previous(rows, period) =~= Seq::empty());
    } else {
        assert(unstepped().taken(rows, period) == unstepped());
    }
    assert(c.contiguous && c.prev_seq is None);
    assert(before =~= rows.take(before.len() as int));
    lemma_leads(rows, before.len() as int, base, period, anchor.prec);
    if rest.len() > 0 {
        lemma_steps_fit(book, anchor, rest, base, period);
        lemma_awake(book, anchor, rest, base, period);
        let at = stepped_all(book, anchor, rest, period);
        assert forall|i: int| 0 <= i < batch.len() implies anchor.prec == #[trigger] batch[i].prec by {
            assert(batch[i] == rows[before.len() + i]);
        }
        if batch.len() > 0 {
            assert(batch[0] == rows[before.len() as int]);
            assert(batch.last() == rows[rows.len() - 1]);
            if before.len() > 0 {
                assert(before.last() == rows[before.len() - 1]);
            }
        }
        assert(at.reach(c) is Fresh);
    } else {
        assert(stepped_all(book, anchor, rest, period) == book);
    }
}

/// Two books with no place in the chain, run side by side over one period from one checkpoint. The
/// one is stepped after each batch, however the run was cut; the other is woken once, on the whole
/// run. Every chunk can take its batch and every book its step; each step leaves a book that can be
/// read; and at the end both hold the same bids and the same asks, listed alike, at the same place.
pub proof fn a_folded_book_and_a_woken_one_stand_alike(
    folded: BookView,
    woken: BookView,
    anchor: BookShape,
    batches: Seq<Seq<BookDelta>>,
    base: int,
    period: int,
)
    requires
        !folded.synced && folded.epoch < u64::MAX,
        !woken.synced && woken.epoch < u64::MAX,
        i64::MIN <= base,
        batches.len() > 0,
        one_run(all_rows(batches), base, period, anchor.prec),
    ensures
        forall|k: int|
            0 <= k < batches.len() ==> {
                let at = stepped_all(folded, anchor, batches.take(k), period);
                let next = #[trigger] chunk_at(batches, k + 1, period);
                &&& chunk_at(batches, k, period).takes_all(batches[k], period)
                &&& next == advanced(chunk_at(batches, k, period), batches[k], period)
                &&& at.can_step(Some(anchor), next)
                &&& at.step(Some(anchor), next) == stepped_all(
                    folded,
                    anchor,
                    batches.take(k + 1),
                    period,
                )
                &&& at.step(Some(anchor), next).synced
            },
        ({
            let rows = all_rows(batches);
            let whole = advanced(unstepped(), rows, period);
            let ended = stepped_all(folded, anchor, batches, period);
            let once = woken.step(Some(anchor), whole);
            &&& unstepped().takes_all(rows, period)
            &&& woken.can_step(Some(anchor), whole)
            &&& once.synced
            &&& ended.bids == once.bids
            &&& ended.asks == once.asks
            &&& listing(Side::Buy, ended.bids) == listing(Side::Buy, once.bids)
            &&& listing(Side::Sell, ended.asks) == listing(Side::Sell, once.asks)
            &&& ended.resume_seq() == once.resume_seq()
        }),
{
    let rows = all_rows(batches);
    assert forall|k: int| 0 <= k < batches.len() implies {
        let at = stepped_all(folded, anchor, batches.take(k), period);
        let next = #[trigger] chunk_at(batches, k + 1, period);
        &&& chunk_at(batches, k, period).takes_all(batches[k], period)
        &&& next == advanced(chunk_at(batches, k, period), batches[k], period)
        &&& at.can_step(Some(anchor), next)
        &&& at.step(Some(anchor), next) == stepped_all(
            folded,
            anchor,
            batches.take(k + 1),
            period,
        )
        &&& at.step(Some(anchor), next).synced
    } by {
        let part = batches.take(k + 1);
        assert(part.drop_last() =~= batches.take(k));
        assert(part.last() == batches[k]);
        lemma_rows_prefix(batches, k + 1);
        assert(all_rows(part) =~= rows.take(all_rows(part).len() as int));
        lemma_leads(rows, all_rows(part).len() as int, base, period, anchor.prec);
        lemma_steps_fit(folded, anchor, part, base, period);
        lemma_awake(folded, anchor, part, base, period);
    }
    let whole = seq![rows];
    assert(whole.drop_last() =~= Seq::empty());
    assert(all_rows(whole.drop_last()) =~= Seq::empty());
    assert(all_rows(whole) == all_rows(whole.drop_last()) + whole.last());
    assert(all_rows(whole) =~= rows);
    assert(advanced_all(unstepped(), whole.drop_last(), period) == unstepped());
    assert(advanced_all(unstepped(), whole, period) == advanced(unstepped(), rows, period));
    assert(stepped_all(woken, anchor, whole.drop_last(), period) == woken);
    lemma_steps_fit(woken, anchor, whole, base, period);
    lemma_awake(woken, anchor, whole, base, period);
    lemma_awake(folded, anchor, batches, base, period);
}

} // verus!
