//! What the bars of a run of trades are of the trades themselves.

use vstd::prelude::*;

use crate::algebra::Slots;
use crate::bar::{joined, trade_reading, Ohlc, Ohlcs, Volume, Volumes};
use crate::close::{Close, Closes};
use crate::cols::TradeCols;
use crate::expr::Expr;
use crate::kline_laws::{in_line, lemma_further, spans};
use crate::klines;
use crate::order::lemma_rank;
use crate::scalar::{raised, Scalar};

verus! {

/// Where the run of trades that starts at the `k`-th of `starts` ends, of the first `n`.
pub open spec fn run_end(starts: Seq<int>, k: int, n: int) -> int {
    if k + 1 < starts.len() {
        starts[k + 1]
    } else {
        n
    }
}

/// Whether `starts` are where the first `n` trades go from one period to another: the trades from one
/// to the next fall between the same two boundaries, and the next does not.
pub open spec fn fall_into<'t>(trades: TradeCols<'t>, n: int, step: int, starts: Seq<int>) -> bool {
    &&& starts.len() > 0
    &&& starts[0] == 0
    &&& forall|k: int| 0 <= k < starts.len() ==> 0 <= #[trigger] starts[k]
    &&& forall|k: int|
        0 <= k < starts.len() ==> starts[k] < #[trigger] run_end(starts, k, n) && run_end(starts, k, n)
            <= n
    &&& forall|k: int, i: int|
        0 <= k < starts.len() && starts[k] <= i && i < #[trigger] run_end(starts, k, n)
            ==> (#[trigger] trades.exec_times()[i])@ / step == trades.exec_times()[starts[k]]@ / step
    &&& forall|k: int|
        0 < k < starts.len() ==> trades.exec_times()[#[trigger] starts[k]]@ / step
            != trades.exec_times()[starts[k] - 1]@ / step
}

/// The prices of the trades from `a` on before `b`.
pub open spec fn traded<'t, V: Scalar>(trades: TradeCols<'t>, a: int, b: int) -> Seq<V> {
    Seq::new(
        (b - a) as nat,
        |i: int|
            V::whole(trades.price@[a + i] as int).over(
                raised(V::whole(10), trades.prec.price.0 as int),
            ),
    )
}

/// What the trades from `a` on before `b` came to.
pub open spec fn amounted<'t, V: Scalar>(trades: TradeCols<'t>, a: int, b: int) -> V
    decreases b - a,
{
    let qty = V::whole(trades.qty@[b - 1] as int).over(
        raised(V::whole(10), trades.prec.qty.0 as int),
    );
    if b <= a + 1 {
        qty
    } else {
        amounted::<V>(trades, a, b - 1).plus(qty)
    }
}

/// A bar's prices, as a candle's.
pub open spec fn as_candle<V>(o: Ohlc<V>) -> klines::Ohlc<V> {
    klines::Ohlc { open: o.open, high: o.high, low: o.low, close: o.close }
}

/// Where the boundary behind a time stands.
proof fn lemma_boundary(ts: int, at: int, step: int)
    requires
        step > 0,
    ensures
        ts - ts % step + step == (ts / step + 1) * step,
        ts < (ts / step + 1) * step <= ts + step,
        (ts / step == at / step) <==> (ts / step + 1) * step == (at / step + 1) * step,
{
    vstd::arithmetic::div_mod::lemma_fundamental_div_mod(ts, step);
    vstd::arithmetic::div_mod::lemma_mod_bound(ts, step);
    assert((ts / step + 1) * step == step * (ts / step) + step) by (nonlinear_arith);
    let (a, b) = (ts / step + 1, at / step + 1);
    if a * step == b * step {
        assert(a == b) by (nonlinear_arith)
            requires
                a * step == b * step,
                step > 0,
        ;
    }
}

/// The trades but the last: the same runs, one trade shorter, or one run fewer.
proof fn lemma_one_fewer<'t>(trades: TradeCols<'t>, n: int, step: int, starts: Seq<int>)
    requires
        n > 1,
        fall_into(trades, n, step, starts),
    ensures
        starts.last() == n - 1 ==> starts.len() > 1 && fall_into(trades, n - 1, step, starts.drop_last()),
        starts.last() < n - 1 ==> fall_into(trades, n - 1, step, starts),
        starts.last() <= n - 1,
{
    let m = starts.len() - 1;
    assert(starts[m] < run_end(starts, m, n));
    if starts.last() == n - 1 {
        let less = starts.drop_last();
        assert(starts.len() > 1);
        assert forall|k: int| 0 <= k < less.len() implies less[k] < #[trigger] run_end(less, k, n - 1)
            && run_end(less, k, n - 1) <= n - 1 by {
            assert(run_end(less, k, n - 1) == run_end(starts, k, n));
            if k + 1 < less.len() {
                assert(starts[k + 1] < run_end(starts, k + 1, n));
                lemma_increasing(trades, n, step, starts, k + 1, m);
            }
        }
        assert forall|k: int, i: int|
            0 <= k < less.len() && less[k] <= i && i < #[trigger] run_end(less, k, n - 1) implies (
        #[trigger] trades.exec_times()[i])@ / step == trades.exec_times()[less[k]]@ / step by {
            assert(run_end(less, k, n - 1) == run_end(starts, k, n));
        }
        assert forall|k: int| 0 < k < less.len() implies trades.exec_times()[#[trigger] less[k]]@ / step
            != trades.exec_times()[less[k] - 1]@ / step by {
            assert(less[k] == starts[k]);
        }
    } else {
        assert forall|k: int| 0 <= k < starts.len() implies starts[k] < #[trigger] run_end(
            starts,
            k,
            n - 1,
        ) && run_end(starts, k, n - 1) <= n - 1 by {
            assert(starts[k] < run_end(starts, k, n));
            if k < m {
                lemma_increasing(trades, n, step, starts, k + 1, m);
            }
        }
        assert forall|k: int, i: int|
            0 <= k < starts.len() && starts[k] <= i && i < #[trigger] run_end(
                starts,
                k,
                n - 1,
            ) implies (#[trigger] trades.exec_times()[i])@ / step == trades.exec_times()[starts[k]]@
            / step by {
            assert(run_end(starts, k, n - 1) <= run_end(starts, k, n));
        }
    }
}

proof fn lemma_increasing<'t>(
    trades: TradeCols<'t>,
    n: int,
    step: int,
    starts: Seq<int>,
    a: int,
    b: int,
)
    requires
        fall_into(trades, n, step, starts),
        0 <= a <= b < starts.len(),
    ensures
        starts[a] <= starts[b],
    decreases b - a,
{
    if a < b {
        assert(starts[a] < run_end(starts, a, n));
        lemma_increasing(trades, n, step, starts, a + 1, b);
    }
}

/// Where a fresh accumulator of prices stands after the first `n` trades.
proof fn lemma_ohlcs<'t, const MS: u64, V: Scalar>(
    e: Ohlcs<MS, V>,
    trades: TradeCols<'t>,
    n: nat,
    starts: Seq<int>,
)
    requires
        !e.pending@.live,
        e.closable(trades),
        0 < n <= trades.monotonic_seq@.len(),
        fall_into(trades, n as int, MS * 1_000_000, starts),
    ensures
        ({
            let w = Close::walk::<V, (TradeCols<'t>, ()), Ohlcs<MS, V>>(e, (trades, ()), n);
            let (p, step, m) = (w.pending, MS * 1_000_000, starts.len() - 1);
            &&& p.live
            &&& p.slots.len() == 4
            &&& p.ts_close == (trades.exec_times()[starts[m]]@ / step + 1) * step
            &&& spans(
                klines::Ohlc { open: p.slots[0], high: p.slots[1], low: p.slots[2], close: p.slots[3] },
                traded::<V>(trades, starts[m], n as int),
            )
            &&& w.closed.len() == m
            &&& forall|k: int|
                0 <= k < m ==> {
                    &&& spans(
                        as_candle(#[trigger] w.closed[k]),
                        traded::<V>(trades, starts[k], starts[k + 1]),
                    )
                    &&& w.closed[k].ts_close@ == (trades.exec_times()[starts[k]]@ / step + 1) * step
                }
        }),
    decreases n,
{
    let deps = (trades, ());
    let step = MS * 1_000_000;
    let m = starts.len() - 1;
    let was = Close::walk::<V, (TradeCols<'t>, ()), Ohlcs<MS, V>>(e, deps, (n - 1) as nat);
    let w = Close::walk::<V, (TradeCols<'t>, ()), Ohlcs<MS, V>>(e, deps, n);
    let x = trade_reading::<V>(trades, n - 1);
    let price = x.slots[0];
    let ts = trades.exec_times()[n - 1]@;
    let open = <Ohlcs<MS, V> as Closes<V, (TradeCols<'t>, ())>>::open_spec(&e);
    let fold = <Ohlcs<MS, V> as Closes<V, (TradeCols<'t>, ())>>::fold_spec(&e);
    assert(open.slot_values(x.slots) =~= seq![price, price, price, price]);
    lemma_boundary(ts, ts, step);
    assert(starts[m] < run_end(starts, m, n as int));
    if n == 1 {
        assert(starts.len() == 1) by {
            if starts.len() > 1 {
                lemma_increasing(trades, 1, step, starts, 1, m);
                assert(starts[0] < run_end(starts, 0, 1));
            }
        }
        lemma_alone::<V>(traded::<V>(trades, 0, 1), price);
    } else {
        lemma_one_fewer(trades, n as int, step, starts);
        if starts.last() == n - 1 {
            let less = starts.drop_last();
            lemma_ohlcs(e, trades, (n - 1) as nat, less);
            let l = less.len() - 1;
            let at = trades.exec_times()[less[l]]@;
            assert(less[l] < run_end(less, l, n - 1));
            assert(trades.exec_times()[n - 2]@ / step == at / step) by {
                assert(less[l] <= n - 2 && n - 2 < run_end(less, l, n - 1));
            }
            assert(trades.exec_times()[starts[m]]@ / step != trades.exec_times()[starts[m] - 1]@ / step);
            lemma_boundary(ts, at, step);
            lemma_alone::<V>(traded::<V>(trades, n - 1, n as int), price);
            assert(was.pending.ts_close <= i64::MAX) by {
                let t = trades.exec_times()[less[l]];
                assert(crate::close::closes_at(t@, step) <= i64::MAX);
                lemma_boundary(t@, t@, step);
            }
            lemma_boundary(at, at, step);
            assert(w.closed.last().ts_close@ == was.pending.ts_close);
            assert forall|k: int| 0 <= k < m implies {
                &&& spans(
                    as_candle(#[trigger] w.closed[k]),
                    traded::<V>(trades, starts[k], starts[k + 1]),
                )
                &&& w.closed[k].ts_close@ == (trades.exec_times()[starts[k]]@ / step + 1) * step
            } by {
                if k < l {
                    assert(w.closed[k] == was.closed[k]);
                } else {
                    assert(w.closed[k] == w.closed.last());
                }
            }
        } else {
            lemma_ohlcs(e, trades, (n - 1) as nat, starts);
            let at = trades.exec_times()[starts[m]]@;
            assert(ts / step == at / step) by {
                assert(starts[m] <= n - 1 && n - 1 < run_end(starts, m, n as int));
            }
            lemma_boundary(ts, at, step);
            let p = was.pending;
            let env = x.slots + p.slots;
            assert(env[0] == price && env[2] == p.slots[0] && env[3] == p.slots[1] && env[4] == p.slots[2]);
            assert(fold.slot_values(env) =~= seq![
                p.slots[0],
                p.slots[1].greater(price),
                p.slots[2].lesser(price),
                price,
            ]);
            let s = traded::<V>(trades, starts[m], n - 1);
            lemma_further(
                klines::Ohlc { open: p.slots[0], high: p.slots[1], low: p.slots[2], close: p.slots[3] },
                s,
                price,
            );
            assert(traded::<V>(trades, starts[m], n as int) =~= s.push(price));
            assert(w.closed == was.closed);
        }
    }
}

/// One price is its own candle.
proof fn lemma_alone<V: Scalar>(s: Seq<V>, price: V)
    requires
        s.len() == 1,
        s[0] == price,
    ensures
        spans(klines::Ohlc { open: price, high: price, low: price, close: price }, s),
{
    if in_line(s) {
        lemma_rank(price, price);
    }
}

/// The bars of a run of trades: one for each period that another followed, which opens at the price of
/// the period's first trade, closes at that of its last, is as high and as low as the prices in
/// between, and is stamped with the boundary that the period runs up to.
pub proof fn each_period_traded_is_a_bar<'t, const MS: u64, V: Scalar>(
    e: Ohlcs<MS, V>,
    trades: TradeCols<'t>,
    starts: Seq<int>,
    k: int,
)
    requires
        !e.pending@.live,
        e.closable(trades),
        trades.monotonic_seq@.len() > 0,
        fall_into(trades, trades.monotonic_seq@.len() as int, MS * 1_000_000, starts),
        0 <= k < starts.len() - 1,
    ensures
        ({
            let closed = Close::walk::<V, (TradeCols<'t>, ()), Ohlcs<MS, V>>(
                e,
                (trades, ()),
                trades.monotonic_seq@.len(),
            ).closed;
            let (ts, step) = (trades.exec_times()[starts[k]]@, MS * 1_000_000);
            &&& closed.len() == starts.len() - 1
            &&& spans(as_candle(closed[k]), traded::<V>(trades, starts[k], starts[k + 1]))
            &&& closed[k].ts_close@ % step == 0
            &&& ts < closed[k].ts_close@ <= ts + step
        }),
{
    lemma_ohlcs(e, trades, trades.monotonic_seq@.len(), starts);
    let (ts, step) = (trades.exec_times()[starts[k]]@, MS * 1_000_000);
    lemma_boundary(ts, ts, step);
    vstd::arithmetic::div_mod::lemma_mod_multiples_basic(ts / step + 1, step);
}

/// Where a fresh accumulator of volumes stands after the first `n` trades.
proof fn lemma_volumes<'t, const MS: u64, V: Scalar>(
    e: Volumes<MS, V>,
    trades: TradeCols<'t>,
    n: nat,
    starts: Seq<int>,
)
    requires
        !e.pending@.live,
        e.closable(trades),
        0 < n <= trades.monotonic_seq@.len(),
        fall_into(trades, n as int, MS * 1_000_000, starts),
    ensures
        ({
            let w = Close::walk::<V, (TradeCols<'t>, ()), Volumes<MS, V>>(e, (trades, ()), n);
            let (p, step, m) = (w.pending, MS * 1_000_000, starts.len() - 1);
            &&& p.live
            &&& p.slots == seq![amounted::<V>(trades, starts[m], n as int)]
            &&& p.ts_close == (trades.exec_times()[starts[m]]@ / step + 1) * step
            &&& w.closed.len() == m
            &&& forall|k: int|
                0 <= k < m ==> {
                    &&& (#[trigger] w.closed[k]).base == amounted::<V>(trades, starts[k], starts[k + 1])
                    &&& w.closed[k].ts_close@ == (trades.exec_times()[starts[k]]@ / step + 1) * step
                }
        }),
    decreases n,
{
    let deps = (trades, ());
    let step = MS * 1_000_000;
    let m = starts.len() - 1;
    let was = Close::walk::<V, (TradeCols<'t>, ()), Volumes<MS, V>>(e, deps, (n - 1) as nat);
    let w = Close::walk::<V, (TradeCols<'t>, ()), Volumes<MS, V>>(e, deps, n);
    let x = trade_reading::<V>(trades, n - 1);
    let qty = x.slots[1];
    let ts = trades.exec_times()[n - 1]@;
    let open = <Volumes<MS, V> as Closes<V, (TradeCols<'t>, ())>>::open_spec(&e);
    let fold = <Volumes<MS, V> as Closes<V, (TradeCols<'t>, ())>>::fold_spec(&e);
    assert(open.slot_values(x.slots) =~= seq![qty]);
    lemma_boundary(ts, ts, step);
    assert(starts[m] < run_end(starts, m, n as int));
    if n == 1 {
        assert(starts.len() == 1) by {
            if starts.len() > 1 {
                lemma_increasing(trades, 1, step, starts, 1, m);
                assert(starts[0] < run_end(starts, 0, 1));
            }
        }
    } else {
        lemma_one_fewer(trades, n as int, step, starts);
        if starts.last() == n - 1 {
            let less = starts.drop_last();
            lemma_volumes(e, trades, (n - 1) as nat, less);
            let l = less.len() - 1;
            let at = trades.exec_times()[less[l]]@;
            assert(less[l] < run_end(less, l, n - 1));
            assert(trades.exec_times()[n - 2]@ / step == at / step) by {
                assert(less[l] <= n - 2 && n - 2 < run_end(less, l, n - 1));
            }
            assert(trades.exec_times()[starts[m]]@ / step != trades.exec_times()[starts[m] - 1]@ / step);
            lemma_boundary(ts, at, step);
            assert(was.pending.ts_close <= i64::MAX) by {
                let t = trades.exec_times()[less[l]];
                assert(crate::close::closes_at(t@, step) <= i64::MAX);
                lemma_boundary(t@, t@, step);
            }
            lemma_boundary(at, at, step);
            assert(w.closed.last().ts_close@ == was.pending.ts_close);
            assert forall|k: int| 0 <= k < m implies {
                &&& (#[trigger] w.closed[k]).base == amounted::<V>(trades, starts[k], starts[k + 1])
                &&& w.closed[k].ts_close@ == (trades.exec_times()[starts[k]]@ / step + 1) * step
            } by {
                if k < l {
                    assert(w.closed[k] == was.closed[k]);
                } else {
                    assert(w.closed[k] == w.closed.last());
                }
            }
        } else {
            lemma_volumes(e, trades, (n - 1) as nat, starts);
            let at = trades.exec_times()[starts[m]]@;
            assert(ts / step == at / step) by {
                assert(starts[m] <= n - 1 && n - 1 < run_end(starts, m, n as int));
            }
            lemma_boundary(ts, at, step);
            let p = was.pending;
            let env = x.slots + p.slots;
            assert(env[1] == qty && env[2] == p.slots[0]);
            assert(fold.slot_values(env) =~= seq![p.slots[0].plus(qty)]);
            assert(w.closed == was.closed);
        }
    }
}

/// The volumes of a run of trades: one for each period that another followed, which is what its trades
/// came to, and is stamped with the boundary that the period runs up to.
pub proof fn each_period_s_volume_is_what_it_traded<'t, const MS: u64, V: Scalar>(
    e: Volumes<MS, V>,
    trades: TradeCols<'t>,
    starts: Seq<int>,
    k: int,
)
    requires
        !e.pending@.live,
        e.closable(trades),
        trades.monotonic_seq@.len() > 0,
        fall_into(trades, trades.monotonic_seq@.len() as int, MS * 1_000_000, starts),
        0 <= k < starts.len() - 1,
    ensures
        ({
            let closed = Close::walk::<V, (TradeCols<'t>, ()), Volumes<MS, V>>(
                e,
                (trades, ()),
                trades.monotonic_seq@.len(),
            ).closed;
            let (ts, step) = (trades.exec_times()[starts[k]]@, MS * 1_000_000);
            &&& closed.len() == starts.len() - 1
            &&& closed[k].base == amounted::<V>(trades, starts[k], starts[k + 1])
            &&& closed[k].ts_close@ % step == 0
            &&& ts < closed[k].ts_close@ <= ts + step
        }),
{
    lemma_volumes(e, trades, trades.monotonic_seq@.len(), starts);
    let (ts, step) = (trades.exec_times()[starts[k]]@, MS * 1_000_000);
    lemma_boundary(ts, ts, step);
    vstd::arithmetic::div_mod::lemma_mod_multiples_basic(ts / step + 1, step);
}

/// A bar is its two halves: the prices of the one, the volume of the other, and the time both closed.
pub proof fn a_bar_is_its_prices_and_its_volume<V>(o: Ohlc<V>, v: Volume<V>)
    ensures
        joined(o, v).ts_close == o.ts_close,
        joined(o, v).open == o.open && joined(o, v).high == o.high,
        joined(o, v).low == o.low && joined(o, v).close == o.close,
        joined(o, v).vol_base == v.base,
{
}

} // verus!
