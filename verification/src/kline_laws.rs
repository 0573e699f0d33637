//! What the candles of a price series are of the prices themselves.

use vstd::prelude::*;

use crate::instant::nanos_of;
use crate::klines::{candle, gathered, highest, lowest, periods, run_of, Ohlc};
use crate::order::{lemma_between, lemma_rank, ranks};
use crate::scalar::Scalar;
use crate::slope_laws::measures;

verus! {

/// When the period that starts at the `k`-th of `starts` begins: the first with the series itself, and
/// every other one on a boundary of its own length.
pub open spec fn begins<V>(p: Seq<(V, jiff::Timestamp)>, dur: int, starts: Seq<int>, k: int) -> int {
    let at = nanos_of(p[starts[k]].1);
    if k == 0 {
        at
    } else {
        at - at % dur
    }
}

/// Where the period that starts at the `k`-th of `starts` is over, of the first `n` prices.
pub open spec fn ends(starts: Seq<int>, k: int, n: int) -> int {
    if k + 1 < starts.len() {
        starts[k + 1]
    } else {
        n
    }
}

/// Whether `starts` are where the periods of the first `n` prices start: one after the other, every
/// price within the length of its own, and the first price past that starting the next.
pub open spec fn parted<V>(p: Seq<(V, jiff::Timestamp)>, n: int, dur: int, starts: Seq<int>) -> bool {
    &&& starts.len() > 0
    &&& starts[0] == 0
    &&& forall|k: int| 0 <= k < starts.len() ==> 0 <= #[trigger] starts[k]
    &&& forall|k: int|
        0 <= k < starts.len() ==> starts[k] < #[trigger] ends(starts, k, n) && ends(starts, k, n) <= n
    &&& forall|k: int, i: int|
        0 <= k < starts.len() && starts[k] < i && i < #[trigger] ends(starts, k, n) ==> nanos_of(
            (#[trigger] p[i]).1,
        ) < begins(p, dur, starts, k) + dur
    &&& forall|k: int|
        0 <= k && k + 1 < starts.len() ==> nanos_of(p[#[trigger] ends(starts, k, n)].1) >= begins(
            p,
            dur,
            starts,
            k,
        ) + dur
}

/// Whether the prices of a series stand in one line.
pub open spec fn in_line<V: Scalar>(prices: Seq<V>) -> bool {
    &&& ranks::<V>()
    &&& measures::<V>()
    &&& forall|i: int| 0 <= i < prices.len() ==> !(#[trigger] prices[i]).absent()
}

/// Whether a candle is what some prices did: it opens at the first and closes at the last of them, and,
/// where they stand in one line, its high and its low are two of them, with none above and none below.
pub open spec fn spans<V: Scalar>(c: Ohlc<V>, prices: Seq<V>) -> bool {
    &&& c.open == prices.first()
    &&& c.close == prices.last()
    &&& in_line(prices) ==> {
        &&& exists|i: int| 0 <= i < prices.len() && #[trigger] prices[i] == c.high
        &&& exists|i: int| 0 <= i < prices.len() && #[trigger] prices[i] == c.low
        &&& forall|i: int| 0 <= i < prices.len() ==> !c.high.below(#[trigger] prices[i])
        &&& forall|i: int| 0 <= i < prices.len() ==> !(#[trigger] prices[i]).below(c.low)
    }
}

/// The prices from `a` on before `b`.
pub open spec fn prices<V>(p: Seq<(V, jiff::Timestamp)>, a: int, b: int) -> Seq<V> {
    Seq::new((b - a) as nat, |i: int| p[a + i].0)
}

/// A candle over some prices, one price further.
pub(crate) proof fn lemma_further<V: Scalar>(c: Ohlc<V>, s: Seq<V>, x: V)
    requires
        s.len() > 0,
        spans(c, s),
    ensures
        spans(
            Ohlc { open: c.open, high: c.high.greater(x), low: c.low.lesser(x), close: x },
            s.push(x),
        ),
{
    let t = s.push(x);
    if in_line(t) {
        assert forall|i: int| 0 <= i < s.len() implies !(#[trigger] s[i]).absent() by {
            assert(t[i] == s[i]);
        }
        let h = choose|i: int| 0 <= i < s.len() && #[trigger] s[i] == c.high;
        let l = choose|i: int| 0 <= i < s.len() && #[trigger] s[i] == c.low;
        assert(t[s.len() as int] == x);
        assert(t[h] == c.high && t[l] == c.low);
        let (high, low) = (c.high.greater(x), c.low.lesser(x));
        assert(high == if x.below(c.high) {
            c.high
        } else {
            x
        }) by {
            reveal(measures);
        }
        assert(low == if c.low.below(x) {
            c.low
        } else {
            x
        }) by {
            reveal(measures);
        }
        lemma_rank(x, x);
        lemma_rank(x, c.high);
        lemma_rank(x, c.low);
        assert forall|i: int| 0 <= i < t.len() implies !high.below(#[trigger] t[i]) && !t[i].below(low) by {
            if i < s.len() {
                assert(t[i] == s[i]);
                lemma_between(s[i], c.high, x);
                lemma_between(x, c.low, s[i]);
            }
        }
    }
}

/// Where the periods of the first `n` prices start, and what has been gathered of them.
proof fn lemma_gathered<V: Scalar>(p: Seq<(V, jiff::Timestamp)>, n: nat, dur: int) -> (starts: Seq<int>)
    requires
        0 < n <= p.len(),
        dur > 0,
    ensures
        parted(p, n as int, dur, starts),
        ({
            let g = gathered(p, n, dur);
            &&& g.done.len() + 1 == starts.len()
            &&& g.start == begins(p, dur, starts, starts.len() - 1)
            &&& spans(g.running, prices(p, starts.last(), n as int))
            &&& forall|k: int|
                0 <= k < g.done.len() ==> spans(
                    #[trigger] g.done[k],
                    prices(p, starts[k], ends(starts, k, n as int)),
                )
        }),
    decreases n,
{
    reveal_with_fuel(gathered, 2);
    let (x, at) = (p[n - 1].0, nanos_of(p[n - 1].1));
    if n == 1 {
        let starts = seq![0int];
        let s = prices(p, 0, 1);
        assert(s =~= seq![x]);
        assert(s[0] == x);
        if in_line(s) {
            reveal(measures);
            lemma_rank(x, x);
        }
        assert(spans(gathered(p, 1, dur).running, s));
        assert(parted(p, 1, dur, starts));
        starts
    } else {
        let was = lemma_gathered(p, (n - 1) as nat, dur);
        assert(parted(p, n - 1, dur, was));
        let g = gathered(p, (n - 1) as nat, dur);
        let after = gathered(p, n, dur);
        let m = was.len() as int;
        if g.over(at, dur) {
            let starts = was.push(n - 1);
            assert forall|k: int| 0 <= k < starts.len() implies starts[k]
                < #[trigger] ends(starts, k, n as int) && ends(starts, k, n as int) <= n by {
                if k < m {
                    assert(was[k] < ends(was, k, n - 1));
                }
            }
            assert forall|k: int, i: int|
                0 <= k < starts.len() && starts[k] < i && i < #[trigger] ends(starts, k, n as int) implies nanos_of(
                (#[trigger] p[i]).1,
            ) < begins(p, dur, starts, k) + dur by {
                if k < m {
                    assert(was[k] < i < ends(was, k, n - 1));
                    assert(begins(p, dur, was, k) == begins(p, dur, starts, k));
                }
            }
            assert forall|k: int| 0 <= k && k + 1 < starts.len() implies nanos_of(
                p[#[trigger] ends(starts, k, n as int)].1,
            ) >= begins(p, dur, starts, k) + dur by {
                assert(begins(p, dur, was, k) == begins(p, dur, starts, k));
                assert(ends(was, k, n - 1) == ends(starts, k, n as int));
            }
            assert(parted(p, n as int, dur, starts));
            let s = prices(p, n - 1, n as int);
            assert(s =~= seq![x]);
            assert(s[0] == x);
            if in_line(s) {
                lemma_rank(x, x);
            }
            assert forall|k: int| 0 <= k < after.done.len() implies spans(
                #[trigger] after.done[k],
                prices(p, starts[k], ends(starts, k, n as int)),
            ) by {
                if k < g.done.len() {
                    assert(g.done[k] == after.done[k]);
                    assert(ends(was, k, n - 1) == ends(starts, k, n as int));
                } else {
                    assert(after.done[k] == g.running);
                }
            }
            starts
        } else {
            let s = prices(p, was.last(), n - 1);
            assert(was[m - 1] < ends(was, m - 1, n - 1));
            lemma_further(g.running, s, x);
            assert(prices(p, was.last(), n as int) =~= s.push(x));
            assert forall|k: int| 0 <= k < was.len() implies was[k]
                < #[trigger] ends(was, k, n as int) && ends(was, k, n as int) <= n by {
                assert(was[k] < ends(was, k, n - 1));
            }
            assert forall|k: int, i: int|
                0 <= k < was.len() && was[k] < i && i < #[trigger] ends(was, k, n as int) implies nanos_of(
                (#[trigger] p[i]).1,
            ) < begins(p, dur, was, k) + dur by {
                if i < n - 1 {
                    assert(was[k] < i < ends(was, k, n - 1));
                } else if k + 1 < m {
                    assert(was[k + 1] < ends(was, k + 1, n - 1));
                }
            }
            assert forall|k: int| 0 <= k && k + 1 < was.len() implies nanos_of(
                p[#[trigger] ends(was, k, n as int)].1,
            ) >= begins(p, dur, was, k) + dur by {
                assert(ends(was, k, n as int) == ends(was, k, n - 1));
            }
            assert(parted(p, n as int, dur, was));
            assert(after.done == g.done);
            assert forall|k: int| 0 <= k < after.done.len() implies spans(
                #[trigger] after.done[k],
                prices(p, was[k], ends(was, k, n as int)),
            ) by {
                assert(ends(was, k, n as int) == ends(was, k, n - 1));
                assert(g.done[k] == after.done[k]);
            }
            was
        }
    }
}

/// A series falls into periods in one way only.
pub proof fn periods_start_in_one_place<V>(
    p: Seq<(V, jiff::Timestamp)>,
    n: int,
    dur: int,
    a: Seq<int>,
    b: Seq<int>,
)
    requires
        parted(p, n, dur, a),
        parted(p, n, dur, b),
    ensures
        a == b,
{
    let least = if a.len() <= b.len() {
        a.len() as int
    } else {
        b.len() as int
    };
    lemma_same_starts(p, n, dur, a, b, least);
    lemma_no_more(p, n, dur, a, b);
    lemma_no_more(p, n, dur, b, a);
    assert(a =~= b);
}

proof fn lemma_same_starts<V>(
    p: Seq<(V, jiff::Timestamp)>,
    n: int,
    dur: int,
    a: Seq<int>,
    b: Seq<int>,
    m: int,
)
    requires
        parted(p, n, dur, a),
        parted(p, n, dur, b),
        0 <= m <= a.len(),
        m <= b.len(),
    ensures
        forall|k: int| 0 <= k < m ==> a[k] == b[k],
    decreases m,
{
    if m > 1 {
        lemma_same_starts(p, n, dur, a, b, m - 1);
        let k = m - 2;
        assert(a[k] == b[k]);
        assert(begins(p, dur, a, k) == begins(p, dur, b, k));
        assert(a[k] < ends(a, k, n) && ends(a, k, n) == a[k + 1]);
        assert(b[k] < ends(b, k, n) && ends(b, k, n) == b[k + 1]);
        assert(ends(a, k + 1, n) <= n && ends(b, k + 1, n) <= n);
        if a[k + 1] < b[k + 1] {
            let i = a[k + 1];
            assert(b[k] < i < ends(b, k, n));
            assert(nanos_of(p[i].1) < begins(p, dur, b, k) + dur);
        }
        if b[k + 1] < a[k + 1] {
            let i = b[k + 1];
            assert(a[k] < i < ends(a, k, n));
            assert(nanos_of(p[i].1) < begins(p, dur, a, k) + dur);
        }
    }
}

proof fn lemma_no_more<V>(p: Seq<(V, jiff::Timestamp)>, n: int, dur: int, a: Seq<int>, b: Seq<int>)
    requires
        parted(p, n, dur, a),
        parted(p, n, dur, b),
        forall|k: int| 0 <= k < a.len() && k < b.len() ==> a[k] == b[k],
    ensures
        a.len() >= b.len(),
{
    if a.len() < b.len() {
        let k = a.len() - 1;
        assert(a[k] == b[k]);
        assert(begins(p, dur, a, k) == begins(p, dur, b, k));
        assert(b[k] < ends(b, k, n));
        let i = b[k + 1];
        assert(b[k + 1] < ends(b, k + 1, n) <= n);
        assert(a[k] < i < ends(a, k, n));
        assert(nanos_of(p[i].1) < begins(p, dur, a, k) + dur);
    }
}

/// The candles of a price series: one for each period it fell into, which opens at the period's first
/// price, closes at its last, and is as high and as low as the prices in between. The period still
/// running has one where it opened at another price than the one before it; a series that never outran
/// a period has none.
pub proof fn each_period_is_a_candle<V: Scalar>(
    p: Seq<(V, jiff::Timestamp)>,
    dur: int,
    starts: Seq<int>,
)
    requires
        p.len() > 0,
        dur > 0,
        parted(p, p.len() as int, dur, starts),
    ensures
        ({
            let (r, m, n) = (periods(p, dur), starts.len() as int, p.len() as int);
            &&& m == 1 ==> r.len() == 0
            &&& m > 1 ==> r.len() == if p[starts[m - 1]].0.equals(p[starts[m - 2]].0) {
                m - 1
            } else {
                m
            }
            &&& forall|k: int|
                0 <= k < r.len() ==> spans(#[trigger] r[k], prices(p, starts[k], ends(starts, k, n)))
        }),
{
    let n = p.len() as int;
    let found = lemma_gathered(p, p.len(), dur);
    periods_start_in_one_place(p, n, dur, starts, found);
    let g = gathered(p, p.len(), dur);
    let m = starts.len() as int;
    assert(starts[m - 1] < ends(starts, m - 1, n));
    if m > 1 {
        assert(starts[m - 2] < ends(starts, m - 2, n));
        assert(spans(g.done[m - 2], prices(p, starts[m - 2], ends(starts, m - 2, n))));
    }
    let r = periods(p, dur);
    assert forall|k: int| 0 <= k < r.len() implies spans(
        #[trigger] r[k],
        prices(p, starts[k], ends(starts, k, n)),
    ) by {
        if k < g.done.len() {
            assert(r[k] == g.done[k]);
        }
    }
}

/// Every series falls into periods.
pub proof fn every_series_falls_into_periods<V: Scalar>(p: Seq<(V, jiff::Timestamp)>, dur: int) -> (starts:
    Seq<int>)
    requires
        p.len() > 0,
        dur > 0,
    ensures
        parted(p, p.len() as int, dur, starts),
{
    lemma_gathered(p, p.len(), dur)
}

/// Where a series outran a period, and the last one it fell into opened at another price than the one
/// before it, the last candle closes at the last price.
pub proof fn the_last_candle_closes_at_the_last_price<V: Scalar>(
    p: Seq<(V, jiff::Timestamp)>,
    dur: int,
    starts: Seq<int>,
)
    requires
        p.len() > 0,
        dur > 0,
        parted(p, p.len() as int, dur, starts),
        starts.len() > 1,
        !p[starts.last()].0.equals(p[starts[starts.len() - 2]].0),
    ensures
        periods(p, dur).len() == starts.len(),
        periods(p, dur).last().open == p[starts.last()].0,
        periods(p, dur).last().close == p.last().0,
{
    each_period_is_a_candle(p, dur, starts);
    let m = starts.len() - 1;
    let r = periods(p, dur);
    assert(starts[m] < ends(starts, m, p.len() as int));
    assert(spans(r[m], prices(p, starts[m], p.len() as int)));
}

/// The extremes of a run of prices that stand in one line: two of them, with none above and none
/// below.
proof fn lemma_extremes<V: Scalar>(run: Seq<V>)
    requires
        run.len() > 0,
        in_line(run),
    ensures
        exists|i: int| 0 <= i < run.len() && #[trigger] run[i] == highest(run),
        exists|i: int| 0 <= i < run.len() && #[trigger] run[i] == lowest(run),
        forall|i: int| 0 <= i < run.len() ==> !highest(run).below(#[trigger] run[i]),
        forall|i: int| 0 <= i < run.len() ==> !(#[trigger] run[i]).below(lowest(run)),
    decreases run.len(),
{
    let x = run.last();
    lemma_rank(x, x);
    if run.len() == 1 {
        assert(run[0] == x);
    } else {
        let s = run.drop_last();
        assert forall|i: int| 0 <= i < s.len() implies !(#[trigger] s[i]).absent() by {
            assert(s[i] == run[i]);
        }
        lemma_extremes(s);
        let (h, l) = (highest(s), lowest(s));
        let i = choose|i: int| 0 <= i < s.len() && #[trigger] s[i] == h;
        let j = choose|j: int| 0 <= j < s.len() && #[trigger] s[j] == l;
        assert(run[i] == h && run[j] == l);
        assert(run[run.len() - 1] == x);
        assert forall|k: int| 0 <= k < run.len() implies !highest(run).below(#[trigger] run[k])
            && !run[k].below(lowest(run)) by {
            lemma_rank(x, h);
            lemma_rank(x, l);
            if k < s.len() {
                assert(s[k] == run[k]);
                lemma_between(s[k], h, x);
                lemma_between(x, l, s[k]);
                lemma_rank(l, s[k]);
                if x.below(l) {
                    lemma_between(x, l, s[k]);
                    lemma_rank(x, s[k]);
                }
            }
        }
    }
}

/// A candle of a run of prices is what they did.
pub proof fn a_candle_spans_its_run<V: Scalar>(run: Seq<V>)
    requires
        run.len() > 0,
    ensures
        spans(candle(run), run),
{
    if in_line(run) {
        lemma_extremes(run);
    }
}

/// The runs of evenly spaced prices are so many prices each, one after the other, and the last one what
/// is left.
pub proof fn runs_are_evenly_long<V>(p: Seq<V>, step: int, k: int, i: int)
    requires
        step > 0,
        k >= 0,
        k * step < p.len(),
        0 <= i < step,
    ensures
        (k + 1) * step <= p.len() ==> run_of(p, step, k).len() == step,
        (k + 1) * step > p.len() ==> run_of(p, step, k).len() == p.len() - k * step,
        k * step + i < p.len() ==> run_of(p, step, k)[i] == p[k * step + i],
{
    assert(0 <= k * step && (k + 1) * step == k * step + step) by (nonlinear_arith)
        requires
            k >= 0,
            step > 0,
    ;
}

} // verus!
