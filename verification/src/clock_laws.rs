//! What holds of instants, of reaches and of clocks, told in the times themselves.

use vstd::prelude::*;

use crate::cell::Facts;
use crate::cols::{recv_window, window};
use crate::deps::retains;
use crate::emit::{admits, offered, tells};
use crate::horizon::{Horizon, Timeframe, TimeframeDesignator};
use crate::manifest::{delivered, tiles};
use crate::ts::{cover, half, half_up, twice_ahead, wire_time, Local, Ts, Venue};
use crate::want::Want;

verus! {

/// A trip that takes as long there as back tells the venue's clock exactly: how far ahead it runs is
/// the estimate, and the time of one way is what the estimate may be off by.
pub proof fn an_even_trip_tells_the_offset(sent: int, ahead: int, way: int, dwell: int)
    requires
        way >= 0,
    ensures
        ({
            let t2 = sent + way + ahead;
            let t3 = t2 + dwell;
            let t4 = t3 - ahead + way;
            &&& half(twice_ahead(sent, t2, t3, t4)) == ahead
            &&& half_up(wire_time(sent, t2, t3, t4)) == way
        }),
{
}

/// The uncertainty of an offset is no more than it has to be: half of what the wire took, with what an
/// odd nanosecond leaves over.
pub proof fn an_offset_is_no_less_sure_than_the_wire(t1: int, t2: int, t3: int, t4: int)
    ensures
        2 * half_up(wire_time(t1, t2, t3, t4)) - ((t4 - t1) - (t3 - t2)) == 0 || 2 * half_up(
            wire_time(t1, t2, t3, t4),
        ) - ((t4 - t1) - (t3 - t2)) == 1,
        -1 <= 2 * half(twice_ahead(t1, t2, t3, t4)) - ((t2 - t1) + (t3 - t4)) <= 1,
{
}

/// A span that covers two others starts with the earlier and ends with the later, and so lies within
/// every span that covers both.
pub proof fn a_cover_holds_both_and_no_more(a: (int, int), b: (int, int), c: (int, int))
    ensures
        cover(a, b).0 <= a.0 && cover(a, b).0 <= b.0,
        cover(a, b).1 >= a.1 && cover(a, b).1 >= b.1,
        c.0 <= a.0 && c.0 <= b.0 ==> c.0 <= cover(a, b).0,
        c.1 >= a.1 && c.1 >= b.1 ==> c.1 >= cover(a, b).1,
        cover(a, b) == cover(b, a),
        cover(a, cover(b, c)) == cover(cover(a, b), c),
        cover(a, a) == a,
{
}

/// The window of trades in order holds each of them, and starts and ends with one.
pub proof fn a_window_holds_every_trade(execs: Seq<Ts<Venue>>, i: int)
    requires
        forall|a: int, b: int| 0 <= a <= b < execs.len() ==> execs[a]@ <= execs[b]@,
        0 <= i < execs.len(),
    ensures
        window(execs).0 <= execs[i]@ <= window(execs).1,
        window(execs).0 == execs.first()@,
        window(execs).1 == execs.last()@,
{
}

/// What was received of a run of rows is known where every one of them was: a single row that was not
/// leaves the whole of it unknown.
pub proof fn one_unreceived_row_leaves_the_window_unknown(
    recv: Seq<Option<Ts<Local>>>,
    from: int,
    to: int,
    i: int,
)
    requires
        0 <= from <= i < to <= recv.len(),
    ensures
        recv[i] is None ==> recv_window(recv, from, to) is None,
        (forall|k: int| from <= k < to ==> (#[trigger] recv[k]) is Some) ==> recv_window(recv, from, to)
            == Some((recv[from]->Some_0@, recv[to - 1]->Some_0@)),
        recv_window(recv, from, from) is None,
{
}

/// The units of a timeframe are each so many of the one below it; a month is thirty days, a quarter
/// three months and a year three hundred and sixty-five days.
pub proof fn units_are_made_of_one_another()
    ensures
        TimeframeDesignator::Milliseconds.millis() == 1,
        TimeframeDesignator::Seconds.millis() == 1_000 * TimeframeDesignator::Milliseconds.millis(),
        TimeframeDesignator::Minutes.millis() == 60 * TimeframeDesignator::Seconds.millis(),
        TimeframeDesignator::Hours.millis() == 60 * TimeframeDesignator::Minutes.millis(),
        TimeframeDesignator::Days.millis() == 24 * TimeframeDesignator::Hours.millis(),
        TimeframeDesignator::Weeks.millis() == 7 * TimeframeDesignator::Days.millis(),
        TimeframeDesignator::Months.millis() == 30 * TimeframeDesignator::Days.millis(),
        TimeframeDesignator::Quarters.millis() == 3 * TimeframeDesignator::Months.millis(),
        TimeframeDesignator::Years.millis() == 365 * TimeframeDesignator::Days.millis(),
{
}

/// Reaches join to the wider of the two: any number of elements reaches past this one, any window of
/// time past any number of elements, and everything past any window; of two alike it is the longer.
pub proof fn the_wider_reach_wins(h: Horizon, n: usize, m: usize, a: Timeframe, b: Timeframe)
    ensures
        Horizon::Unit.spec_join(h) == h,
        h.spec_join(Horizon::Unit) == h,
        Horizon::Unbounded.spec_join(h) == Horizon::Unbounded,
        h.spec_join(Horizon::Unbounded) == Horizon::Unbounded,
        Horizon::Elems(n).spec_join(Horizon::Over(a)) == Horizon::Over(a),
        Horizon::Over(a).spec_join(Horizon::Elems(n)) == Horizon::Over(a),
        n <= m ==> Horizon::Elems(n).spec_join(Horizon::Elems(m)) == Horizon::Elems(m),
        n <= m ==> Horizon::Elems(m).spec_join(Horizon::Elems(n)) == Horizon::Elems(m),
        a.0 <= b.0 ==> Horizon::Over(a).spec_join(Horizon::Over(b)) == Horizon::Over(b),
        a.0 <= b.0 ==> Horizon::Over(b).spec_join(Horizon::Over(a)) == Horizon::Over(b),
{
}

/// A retained reach serves what asks for no more: as many elements or fewer, as long a window or a
/// shorter one, and a window any number of elements; but a number of elements no window, and neither
/// this element alone nor everything is a reach that is retained or asked of what is.
pub proof fn a_reach_serves_what_asks_for_no_more(
    h: Horizon,
    n: usize,
    m: usize,
    a: Timeframe,
    b: Timeframe,
)
    ensures
        Horizon::Elems(n).spec_serves(Horizon::Elems(m)) <==> m <= n,
        Horizon::Over(a).spec_serves(Horizon::Over(b)) <==> b.0 <= a.0,
        Horizon::Over(a).spec_serves(Horizon::Elems(n)),
        !Horizon::Elems(n).spec_serves(Horizon::Over(a)),
        !Horizon::Unit.spec_serves(h) && !h.spec_serves(Horizon::Unit),
        !Horizon::Unbounded.spec_serves(h) && !h.spec_serves(Horizon::Unbounded),
{
}

/// What is wanted of a node deepens from nothing over its values and its slopes to its exact ones, and
/// two that want something of it get the deeper.
pub proof fn the_deeper_want_wins(w: Want)
    ensures
        Want::Nothing.deeper(w) == w && w.deeper(Want::Nothing) == w,
        Want::Exact.deeper(w) == Want::Exact && w.deeper(Want::Exact) == Want::Exact,
        Want::Vals.deeper(Want::Jac) == Want::Jac && Want::Jac.deeper(Want::Vals) == Want::Jac,
        w.deeper(w) == w,
        Want::Nothing.rank() < Want::Vals.rank() < Want::Jac.rank() < Want::Exact.rank(),
{
}

/// A clocked node whose every dep is kept runs once in each of its periods: after a tick at `ts` it
/// runs at `next` exactly where another period of its clock has begun, and always once a whole one has
/// passed.
pub proof fn a_clocked_node_runs_once_per_period(
    clock: Option<Timeframe>,
    facts: Seq<Facts>,
    last: int,
    ts: int,
    next: int,
)
    requires
        tells(clock),
        clock is Some,
        forall|i: int| 0 <= i < facts.len() ==> (#[trigger] facts[i]).retained,
    ensures
        ({
            let ns = clock->Some_0.0 * 1_000_000;
            let runs = admits(clock, facts, offered(clock, facts, last, ts), next);
            &&& runs <==> ts / ns != next / ns
            &&& next >= ts + ns ==> runs
            &&& !(admits(clock, facts, offered(clock, facts, last, ts), ts))
            &&& ts % ns == 0 && ts <= next < ts + ns ==> !runs
        }),
{
    let ns = clock->Some_0.0 * 1_000_000;
    assert forall|i: int| 0 <= i < retains(facts).len() implies (#[trigger] retains(
        facts,
    )[i]) by {
        assert(facts[i].retained);
    }
    if next >= ts + ns {
        assert(next / ns > ts / ns) by (nonlinear_arith)
            requires
                next >= ts + ns,
                ns > 0,
        ;
    }
    if ts % ns == 0 && ts <= next < ts + ns {
        assert(next / ns == ts / ns) by (nonlinear_arith)
            requires
                ts % ns == 0,
                ts <= next < ts + ns,
                ns > 0,
        ;
    }
}

/// A node without a clock is never withheld a tick.
pub proof fn an_unclocked_node_runs_every_tick(facts: Seq<Facts>, last: int, ts: int)
    ensures
        admits(None, facts, last, ts),
        offered(None, facts, last, ts) == last,
{
}

/// A clock is delivered where its period is a whole number of each of its deps' periods, and only
/// there.
pub proof fn a_clock_is_a_whole_number_of_its_deps(
    tf: Timeframe,
    deps: Seq<Option<Timeframe>>,
    times: Seq<int>,
    i: int,
)
    requires
        0 <= i < deps.len() == times.len(),
    ensures
        delivered(None, deps),
        delivered(Some(tf), deps) ==> tf.0 > 0 && (deps[i] matches Some(d) ==> d.0 > 0 && (tf.0 / d.0)
            * d.0 == tf.0),
        tf.0 > 0 && (forall|k: int|
            0 <= k < deps.len() ==> (#[trigger] deps[k] matches Some(d) ==> d.0 > 0 && times[k] * d.0
                == tf.0)) ==> delivered(Some(tf), deps),
{
    if delivered(Some(tf), deps) {
        if let Some(d) = deps[i] {
            vstd::arithmetic::div_mod::lemma_fundamental_div_mod(tf.0 as int, d.0 as int);
            assert((tf.0 / d.0) * d.0 == d.0 * (tf.0 / d.0)) by (nonlinear_arith);
        }
    }
    if tf.0 > 0 && (forall|k: int|
        0 <= k < deps.len() ==> (#[trigger] deps[k] matches Some(d) ==> d.0 > 0 && times[k] * d.0
            == tf.0)) {
        assert forall|k: int| 0 <= k < deps.len() implies (#[trigger] deps[k] matches Some(d)
            ==> tiles(d, tf)) by {
            if let Some(d) = deps[k] {
                vstd::arithmetic::div_mod::lemma_mod_multiples_basic(times[k], d.0 as int);
            }
        }
    }
}

} // verus!
