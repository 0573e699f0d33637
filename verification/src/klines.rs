//! Prices gathered into periods.

use vstd::prelude::*;

use crate::horizon::Timeframe;
use crate::instant;
use crate::instant::{first_nano, last_nano, nanos_of};
use crate::scalar::Scalar;

verus! {

/// What a period's price did.
#[derive(Clone, Copy, Debug)]
pub struct Ohlc<V> {
    pub open: V,
    pub high: V,
    pub low: V,
    pub close: V,
}

impl<V> Ohlc<V> {
    pub fn new(open: V, high: V, low: V, close: V) -> (r: Self)
        ensures
            r == (Ohlc { open, high, low, close }),
    {
        Ohlc { open, high, low, close }
    }
}

/// Periods gathered so far: the ones that are over, and the one running since `start`.
#[verifier::ext_equal]
pub struct Gathered<V> {
    pub done: Seq<Ohlc<V>>,
    pub running: Ohlc<V>,
    pub start: int,
}

pub open spec fn flat<V>(price: V) -> Ohlc<V> {
    Ohlc { open: price, high: price, low: price, close: price }
}

/// A timeframe's length in nanoseconds.
pub open spec fn length(tf: Timeframe) -> int {
    tf.0 * 1_000_000
}

impl<V: Scalar> Gathered<V> {
    /// Whether an instant falls past the running period.
    pub open spec fn over(self, at: int, dur: int) -> bool {
        at >= self.start + dur
    }

    /// Whether the instant a period runs to can be told, and, past it, the boundary the next one is
    /// counted from: only from the epoch on are instants counted forwards from one.
    pub open spec fn tellable(self, at: int, dur: int) -> bool {
        &&& self.start + dur <= last_nano()
        &&& self.over(at, dur) ==> (at >= 0 || at % dur == 0) && at % dur <= u64::MAX
    }

    /// A price taken in: the running period is over at its length, and the next one starts on a
    /// boundary of its own length.
    pub open spec fn take(self, price: V, at: int, dur: int) -> Self {
        if self.over(at, dur) {
            Gathered {
                done: self.done.push(self.running),
                running: flat(price),
                start: at - at % dur,
            }
        } else {
            Gathered {
                running: Ohlc {
                    open: self.running.open,
                    high: self.running.high.greater(price),
                    low: self.running.low.lesser(price),
                    close: price,
                },
                ..self
            }
        }
    }
}

/// The first `n` prices, gathered.
pub open spec fn gathered<V: Scalar>(p: Seq<(V, jiff::Timestamp)>, n: nat, dur: int) -> Gathered<V>
    decreases n,
{
    if n == 0 {
        Gathered { done: Seq::empty(), running: flat(p[0].0), start: nanos_of(p[0].1) }
    } else {
        gathered(p, (n - 1) as nat, dur).take(p[n - 1].0, nanos_of(p[n - 1].1), dur)
    }
}

/// The periods of a price series: those that were over before it was, and the one still running, where
/// it opened somewhere else than the one before it. A series that never outran a period has none.
pub open spec fn periods<V: Scalar>(p: Seq<(V, jiff::Timestamp)>, dur: int) -> Seq<Ohlc<V>> {
    if p.len() == 0 {
        Seq::empty()
    } else {
        let g = gathered(p, p.len(), dur);
        if g.done.len() > 0 && !g.running.open.equals(g.done.last().open) {
            g.done.push(g.running)
        } else {
            g.done
        }
    }
}

pub fn p_to_ohlc<V: Scalar>(p: &[(V, jiff::Timestamp)], timeframe: &Timeframe) -> (r: Vec<Ohlc<V>>)
    requires
        timeframe.0 > 0,
        forall|i: nat|
            i < p@.len() ==> (#[trigger] gathered(p@, i, length(*timeframe))).tellable(
                nanos_of(p@[i as int].1),
                length(*timeframe),
            ),
    ensures
        r@ == periods(p@, length(*timeframe)),
{
    let mut done: Vec<Ohlc<V>> = Vec::new();
    if p.len() == 0 {
        return done;
    }
    let dur: i128 = timeframe.0 as i128 * 1_000_000;
    let first: V = p[0].0;
    let mut running: Ohlc<V> = Ohlc::new(first, first, first, first);
    let mut start: i128 = instant::nanos(p[0].1);
    let mut i: usize = 0;
    while i < p.len()
        invariant
            0 < p@.len(),
            i <= p@.len(),
            dur == length(*timeframe) > 0,
            first_nano() <= start <= last_nano(),
            gathered(p@, i as nat, dur as int) == (Gathered {
                done: done@,
                running,
                start: start as int,
            }),
            forall|i: nat|
                i < p@.len() ==> (#[trigger] gathered(p@, i, length(*timeframe))).tellable(
                    nanos_of(p@[i as int].1),
                    length(*timeframe),
                ),
        decreases p@.len() - i,
    {
        let ghost g = gathered(p@, i as nat, dur as int);
        let (price, instant): (V, jiff::Timestamp) = p[i];
        let at: i128 = instant::nanos(instant);
        assert(g.tellable(at as int, dur as int));
        if at >= start + dur {
            done.push(running);
            start = if at < 0 { at } else { at - at % dur };
            running = Ohlc::new(price, price, price, price);
        } else {
            running = Ohlc {
                open: running.open,
                high: running.high.max(price),
                low: running.low.min(price),
                close: price,
            };
        }
        i += 1;
        assert(gathered(p@, i as nat, dur as int) == g.take(price, at as int, dur as int));
    }
    let n: usize = done.len();
    if n > 0 && !running.open.same(done[n - 1].open) {
        done.push(running);
    }
    done
}

/// The highest of a run so far, the later of two that compare alike.
pub open spec fn highest<V: Scalar>(run: Seq<V>) -> V
    decreases run.len(),
{
    if run.len() <= 1 {
        run[0]
    } else {
        let best = highest(run.drop_last());
        if run.last().below(best) {
            best
        } else {
            run.last()
        }
    }
}

/// The lowest of a run so far, the earlier of two that compare alike.
pub open spec fn lowest<V: Scalar>(run: Seq<V>) -> V
    decreases run.len(),
{
    if run.len() <= 1 {
        run[0]
    } else {
        let best = lowest(run.drop_last());
        if run.last().below(best) {
            run.last()
        } else {
            best
        }
    }
}

/// The `k`-th run of `step` prices, the last one what is left.
pub open spec fn run_of<V>(p: Seq<V>, step: int, k: int) -> Seq<V> {
    p.subrange(
        k * step,
        if (k + 1) * step <= p.len() {
            (k + 1) * step
        } else {
            p.len() as int
        },
    )
}

/// What a run of prices did.
pub open spec fn candle<V: Scalar>(run: Seq<V>) -> Ohlc<V> {
    Ohlc { open: run[0], high: highest(run), low: lowest(run), close: run.last() }
}

/// Whether the prices of a run can be told apart: a lone one has nothing to be told from.
pub open spec fn comparable<V: Scalar>(run: Seq<V>) -> bool {
    run.len() <= 1 || forall|i: int| 0 <= i < run.len() ==> !(#[trigger] run[i]).absent()
}

/// take a price-series, and imagine that entries are constantly spaced
pub fn mock_p_to_ohlc<V: Scalar>(p: &[V], step: usize) -> (r: Vec<Ohlc<V>>)
    requires
        step > 0,
        forall|k: int|
            0 <= k && k * step < p@.len() ==> comparable(#[trigger] run_of(p@, step as int, k)),
    ensures
        (r@.len() - 1) * step < p@.len() <= r@.len() * step,
        forall|k: int|
            0 <= k < r@.len() ==> #[trigger] r@[k] == candle(run_of(p@, step as int, k)),
{
    let mut r: Vec<Ohlc<V>> = Vec::new();
    let size: usize = p.len();
    let mut from: usize = 0;
    assert(r@.len() * step == 0) by (nonlinear_arith)
        requires
            r@.len() == 0,
    ;
    while from < size
        invariant
            size == p@.len(),
            step > 0,
            from <= size,
            from == size || from == r@.len() * step,
            (r@.len() - 1) * step < p@.len(),
            from == size ==> p@.len() <= r@.len() * step,
            forall|k: int|
                0 <= k < r@.len() ==> #[trigger] r@[k] == candle(run_of(p@, step as int, k)),
        decreases size - from,
    {
        let to: usize = if step <= size - from { from + step } else { size };
        let ghost n = r@.len() as int;
        let ghost run = run_of(p@, step as int, n);
        assert((n + 1) * step == n * step + step) by (nonlinear_arith);
        assert(run =~= p@.subrange(from as int, to as int));
        let mut high: V = p[from];
        let mut low: V = p[from];
        let mut i: usize = from + 1;
        while i < to
            invariant
                from < i <= to <= p@.len(),
                high == highest(p@.subrange(from as int, i as int)),
                low == lowest(p@.subrange(from as int, i as int)),
            decreases to - i,
        {
            let x: V = p[i];
            assert(p@.subrange(from as int, i + 1).drop_last() =~= p@.subrange(from as int, i as int));
            if !x.lt(high) {
                high = x;
            }
            if x.lt(low) {
                low = x;
            }
            i += 1;
        }
        let c: Ohlc<V> = Ohlc { open: p[from], high, low, close: p[to - 1] };
        assert(c == candle(run));
        r.push(c);
        from = to;
    }
    r
}

/// Standard candlestick data unit. Can only ever be full: where an exchange returns partial data for
/// an ongoing candle, or trading is down leading to the associated data being cut, none is created.
#[derive(Debug)]
pub struct Kline<V> {
    pub open_time: jiff::Timestamp,
    pub ohlc: Ohlc<V>,
    /// Explicitly `quote`-denominated.
    pub volume_quote: V,
    pub trades: Option<usize>,
    pub taker_buy_volume_quote: Option<V>,
}

impl<V: Copy> Copy for Kline<V> {

}

impl<V: Copy> Clone for Kline<V> {
    fn clone(&self) -> (r: Self)
        ensures
            r == *self,
    {
        *self
    }
}

/// Unlike [`Kline`], the timestamp signifies the end of the period, not the start. As another
/// difference, a run of these can have uneven spacing between measured points.
#[derive(Debug)]
pub struct Close<V> {
    pub close: V,
    pub timestamp: jiff::Timestamp,
}

impl<V: Copy> Copy for Close<V> {

}

impl<V: Copy> Clone for Close<V> {
    fn clone(&self) -> (r: Self)
        ensures
            r == *self,
    {
        *self
    }
}

} // verus!
