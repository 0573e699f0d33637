//! Where the slots of a reading come from, and which slot of an out stands for what.

use vstd::prelude::*;

use crate::bar::{join_reading, trade_reading, Bar, Ohlc, Volume};
use crate::book::{Book, BookShape};
use crate::chunk::BookChunk;
use crate::cols::{unscaled, TradeCols};
use crate::delta::BookDelta;
use crate::env::Source;
use crate::flat::{Flat, Number};
use crate::lanes::top_price;
use crate::rows::Hist;
use crate::rsi::{change_reading, pair_reading, sample_reading, RsiValues, Sample};
use crate::scalar::Scalar;
use crate::side::Side;

verus! {

/// A trade is read at its own price and quantity, at the run's precision and the time it was executed,
/// and the slots are those of the element as far behind the newest as the trade is.
pub proof fn a_trade_is_read_where_it_stands<'t, V: Scalar>(trades: TradeCols<'t>, i: int, k: int)
    requires
        0 <= i < trades.monotonic_seq@.len() <= usize::MAX,
        0 <= k < 2,
    ensures
        ({
            let r = trade_reading::<V>(trades, i);
            &&& r.ts == trades.exec_times()[i].0
            &&& r.slots.len() == 2 && r.sources.len() == 2
            &&& r.slots[0] == unscaled::<V>(trades.price@[i] as int, trades.prec.price.0 as int)
            &&& r.slots[1] == unscaled::<V>(trades.qty@[i] as int, trades.prec.qty.0 as int)
            &&& r.sources[k] matches Source::Dep { dep, lag, slot } && dep == 0 && slot == k && lag
                == trades.monotonic_seq@.len() - 1 - i
        }),
{
}

/// A bar is read off the prices and the volume of one period: each slot is the one its source names, of
/// the element its source names.
pub proof fn a_bar_s_slots_are_what_their_sources_hold<V: Scalar>(
    ohlc: Seq<Ohlc<V>>,
    vol: Seq<Volume<V>>,
    i: int,
    k: int,
)
    requires
        ohlc.len() == vol.len() <= usize::MAX,
        0 <= i < ohlc.len(),
        0 <= k < 5,
    ensures
        ({
            let r = join_reading(ohlc, vol, i);
            &&& r.ts == ohlc[i].ts_close.0
            &&& r.slots.len() == 5 && r.sources.len() == 5
            &&& r.sources[k] matches Source::Dep { dep, lag, slot } && ({
                let from = ohlc.len() - 1 - lag;
                &&& from == i
                &&& k < 4 ==> dep == 0 && slot < 4 && r.slots[k] == ohlc[from].slots()[slot as int]
                &&& k == 4 ==> dep == 1 && slot == 0 && r.slots[k] == vol[from].slots()[slot as int]
            })
        }),
{
}

/// A change is read off a bar and the close of the one before it: each slot is the one its source names,
/// of the bar its source names, counted back from the newest.
pub proof fn a_change_s_slots_are_what_their_sources_hold<'t, V: Scalar>(bars: Hist<'t, Bar<V>>, i: int, k: int)
    requires
        0 <= i < bars.fresh <= bars.declared().len() <= usize::MAX,
        0 <= k < 6,
    ensures
        change_reading(bars, i) is None <==> bars.declared().len() - bars.fresh + i < 1,
        change_reading(bars, i) matches Some(r) ==> ({
            let newest = bars.declared().len() - 1;
            &&& r.slots.len() == 6 && r.sources.len() == 6
            &&& r.ts == bars.declared()[newest - (bars.fresh - 1 - i)].ts_close.0
            &&& r.sources[k] matches Source::Dep { dep, lag, slot } && ({
                &&& dep == 0
                &&& 0 <= newest - lag
                &&& slot < 5
                &&& r.slots[k] == bars.declared()[newest - lag].slots()[slot as int]
                &&& k < 5 ==> lag == bars.fresh - 1 - i && slot == k
                &&& k == 5 ==> lag == bars.fresh - i && slot == 3
            })
        }),
{
}

/// A sample is read where there is one, off the element as far behind the newest as it is; and a pair of
/// averages where there are both, the gain before the loss.
pub proof fn a_sample_is_read_where_it_stands<V: Scalar>(
    gain: Seq<Sample<V>>,
    loss: Seq<Sample<V>>,
    i: int,
)
    requires
        gain.len() == loss.len() <= usize::MAX,
        0 <= i < gain.len(),
    ensures
        sample_reading(gain, i) is None <==> gain[i] is None,
        sample_reading(gain, i) matches Some(r) ==> ({
            &&& r.slots.len() == 1 && r.sources.len() == 1
            &&& gain[i] == Some(Number(r.slots[0]))
            &&& r.sources[0] matches Source::Dep { dep, lag, slot } && dep == 0 && slot == 0 && lag
                == gain.len() - 1 - i
        }),
        pair_reading(gain, loss, i) is None <==> gain[i] is None || loss[i] is None,
        pair_reading(gain, loss, i) matches Some(r) ==> ({
            &&& r.slots.len() == 2 && r.sources.len() == 2
            &&& gain[i] == Some(Number(r.slots[0])) && loss[i] == Some(Number(r.slots[1]))
            &&& r.sources[0] matches Source::Dep { dep, lag, slot } && dep == 0 && slot == 0 && lag
                == gain.len() - 1 - i
            &&& r.sources[1] matches Source::Dep { dep, lag, slot } && dep == 1 && slot == 0 && lag
                == gain.len() - 1 - i
        }),
{
}

/// The slots of a bar are its open, its high, its low and its close, and behind them its volume; an index
/// is its value and its mean, and shows neither unless it has both.
pub proof fn each_slot_of_a_bar_has_its_place<V: Scalar>(o: Ohlc<V>, v: Volume<V>, b: Bar<V>, r: RsiValues<V>)
    ensures
        o.slots().len() == 4,
        o.slots()[0] == o.open && o.slots()[1] == o.high && o.slots()[2] == o.low && o.slots()[3] == o.close,
        v.slots().len() == 1 && v.slots()[0] == v.base,
        b.slots().len() == 5 && b.slots()[4] == b.vol_base,
        b.slots()[0] == b.open && b.slots()[1] == b.high && b.slots()[2] == b.low && b.slots()[3] == b.close,
        !r.actual.absent() && !r.smooth.absent() ==> r.slots() == seq![r.actual, r.smooth] && r.fired(),
        r.actual.absent() || r.smooth.absent() ==> r.slots() == seq![V::none(), V::none()] && !r.fired(),
        o.fired() && v.fired() && b.fired(),
{
    assert(r.actual.absent() || r.smooth.absent() ==> r.slots() =~= seq![V::none(), V::none()]);
}

/// A flag is one where it holds and zero where it does not; a number is itself; what is not there
/// flattens to no numbers and did not fire; and a run counts its elements.
pub proof fn each_out_flattens_to_what_it_holds<V: Scalar, T: Flat<V>>(x: V, t: T, run: &[T], i: int)
    ensures
        <bool as Flat<V>>::slots(&true) == seq![V::whole(1)],
        <bool as Flat<V>>::slots(&false) == seq![V::whole(0)],
        Number(x).slots() == seq![x],
        <Option<T> as Flat<V>>::slots(&Some(t)) == t.slots(),
        <Option<T> as Flat<V>>::fired(&Some(t)) == t.fired(),
        !<Option<T> as Flat<V>>::fired(&None::<T>),
        <Option<T> as Flat<V>>::slots(&None::<T>).len() == T::len_spec(),
        0 <= i < T::len_spec() ==> <Option<T> as Flat<V>>::slots(&None::<T>)[i] == V::none(),
        <Option<T> as Flat<V>>::count(&Some(t)) == 1,
        <Option<T> as Flat<V>>::count(&None::<T>) == 0,
        <&[T] as Flat<V>>::count(&run) == run@.len(),
{
}

/// A row of a book flattens to its price and its quantity, trades to those of the last, and a book to the
/// best price of its bids and that of its asks.
pub proof fn each_side_of_a_book_has_its_slot<'a, V: Scalar>(
    d: BookDelta,
    trades: TradeCols<'a>,
    book: &'a Book,
    shape: &'a BookShape,
    chunk: &'a BookChunk,
)
    ensures
        <BookDelta as Flat<V>>::slots(&d) == seq![
            unscaled::<V>(d.price as int, d.prec.price.0 as int),
            unscaled::<V>(d.qty as int, d.prec.qty.0 as int),
        ],
        trades.price@.len() > 0 ==> <TradeCols<'a> as Flat<V>>::slots(&trades) == seq![
            unscaled::<V>(trades.price@.last() as int, trades.prec.price.0 as int),
            unscaled::<V>(trades.qty@.last() as int, trades.prec.qty.0 as int),
        ],
        trades.price@.len() == 0 ==> <TradeCols<'a> as Flat<V>>::slots(&trades) == seq![V::none(), V::none()],
        <&'a Book as Flat<V>>::slots(&book) == seq![
            top_price::<V>(Side::Buy, book@.bids, book@.prec),
            top_price::<V>(Side::Sell, book@.asks, book@.prec),
        ],
        <&'a BookShape as Flat<V>>::slots(&shape) == seq![
            top_price::<V>(Side::Buy, shape.bids@, shape.prec),
            top_price::<V>(Side::Sell, shape.asks@, shape.prec),
        ],
        <&'a BookChunk as Flat<V>>::count(&chunk) == chunk@.fresh.len(),
{
    assert(trades.price@.len() == 0 ==> <TradeCols<'a> as Flat<V>>::slots(&trades) =~= seq![V::none(), V::none()]);
}

} // verus!
