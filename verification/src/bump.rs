//! Perturbing one slot of an out, for the finite-difference witness.

use vstd::prelude::*;

use crate::bar::{Bar, Ohlc, Volume};
use crate::cols::{scaled_down, TradeBuf, TradeColumns};
use crate::cols::unscaled;
use crate::delta::BookDelta;
use crate::flat::{Flat, Number, Unflat};
use crate::precision::PrecisionPriceQty;
use crate::rsi::RsiValues;
use crate::scalar::{powi, Scalar};
use crate::scalar::raised;

verus! {

/// Typed-space perturbation of one flattened element. Returns the perturbation **actually applied**,
/// in the element's own units: a quantized column can only move in whole ticks, and pretending
/// otherwise divides the difference by a step never taken. Zero means this slot cannot be perturbed
/// (discrete, structural), so its Jacobian column stays absent rather than a fabricated zero.
pub trait Bump<V: Scalar>: Flat<V> + Copy {
    open spec fn bumped(self, slot: int, h: V) -> (Self, V) {
        arbitrary()
    }

    fn bump(self, slot: usize, h: V) -> (r: (Self, V))
        requires
            slot < Self::len_spec(),
        ensures
            r == self.bumped(slot as int, h),
    ;
}

impl<V: Scalar> Bump<V> for Number<V> {
    open spec fn bumped(self, slot: int, h: V) -> (Self, V) {
        (Number(self.0.plus(h)), h)
    }

    fn bump(self, slot: usize, h: V) -> (r: (Self, V)) {
        (Number(self.0.add(h)), h)
    }
}

/// A bit has no nearby bit.
impl<V: Scalar> Bump<V> for bool {
    open spec fn bumped(self, slot: int, h: V) -> (Self, V) {
        (self, V::whole(0))
    }

    fn bump(self, slot: usize, h: V) -> (r: (Self, V)) {
        (self, V::of(0))
    }
}

impl<V: Scalar, const N: usize> Bump<V> for [V; N] {
    open spec fn bumped(self, slot: int, h: V) -> (Self, V) {
        (<Self as Unflat<V>>::item(0, self@.update(slot, self@[slot].plus(h))), h)
    }

    fn bump(self, slot: usize, h: V) -> (r: (Self, V)) {
        let mut a: [V; N] = self;
        let v: V = a[slot].add(h);
        a[slot] = v;
        proof {
            let b = <Self as Unflat<V>>::item(0, a@);
            assert(b@ == a@);
            assert(b =~= a);
        }
        (a, h)
    }
}

impl<V: Scalar, T: Bump<V>> Bump<V> for Option<T> {
    open spec fn bumped(self, slot: int, h: V) -> (Self, V) {
        match self {
            Some(t) => (Some(t.bumped(slot, h).0), t.bumped(slot, h).1),
            None => (None, V::whole(0)),
        }
    }

    fn bump(self, slot: usize, h: V) -> (r: (Self, V)) {
        match self {
            Some(t) => {
                let (t, dh) = t.bump(slot, h);
                (Some(t), dh)
            },
            None => (None, V::of(0)),
        }
    }
}

/// Structural: perturbing a level makes it a different book, not a nearby one.
impl<V: Scalar> Bump<V> for BookDelta {
    open spec fn bumped(self, slot: int, h: V) -> (Self, V) {
        (self, V::whole(0))
    }

    fn bump(self, slot: usize, h: V) -> (r: (Self, V)) {
        (self, V::of(0))
    }
}

/// One leg is perturbed, and where it is no number it has nothing to move.
impl<V: Scalar> Bump<V> for RsiValues<V> {
    open spec fn bumped(self, slot: int, h: V) -> (Self, V) {
        if slot == 0 {
            (RsiValues { actual: self.actual.plus(h), ..self }, h)
        } else {
            (RsiValues { smooth: self.smooth.plus(h), ..self }, h)
        }
    }

    fn bump(self, slot: usize, h: V) -> (r: (Self, V)) {
        if slot == 0 {
            (RsiValues { actual: self.actual.add(h), ..self }, h)
        } else {
            (RsiValues { smooth: self.smooth.add(h), ..self }, h)
        }
    }
}

impl<V: Scalar> Bump<V> for Ohlc<V> {
    open spec fn bumped(self, slot: int, h: V) -> (Self, V) {
        if slot == 0 {
            (Ohlc { open: self.open.plus(h), ..self }, h)
        } else if slot == 1 {
            (Ohlc { high: self.high.plus(h), ..self }, h)
        } else if slot == 2 {
            (Ohlc { low: self.low.plus(h), ..self }, h)
        } else {
            (Ohlc { close: self.close.plus(h), ..self }, h)
        }
    }

    fn bump(self, slot: usize, h: V) -> (r: (Self, V)) {
        if slot == 0 {
            (Ohlc { open: self.open.add(h), ..self }, h)
        } else if slot == 1 {
            (Ohlc { high: self.high.add(h), ..self }, h)
        } else if slot == 2 {
            (Ohlc { low: self.low.add(h), ..self }, h)
        } else {
            (Ohlc { close: self.close.add(h), ..self }, h)
        }
    }
}

impl<V: Scalar> Bump<V> for Volume<V> {
    open spec fn bumped(self, slot: int, h: V) -> (Self, V) {
        (Volume { base: self.base.plus(h), ..self }, h)
    }

    fn bump(self, slot: usize, h: V) -> (r: (Self, V)) {
        (Volume { base: self.base.add(h), ..self }, h)
    }
}

impl<V: Scalar> Bump<V> for Bar<V> {
    open spec fn bumped(self, slot: int, h: V) -> (Self, V) {
        if slot == 0 {
            (Bar { open: self.open.plus(h), ..self }, h)
        } else if slot == 1 {
            (Bar { high: self.high.plus(h), ..self }, h)
        } else if slot == 2 {
            (Bar { low: self.low.plus(h), ..self }, h)
        } else if slot == 3 {
            (Bar { close: self.close.plus(h), ..self }, h)
        } else {
            (Bar { vol_base: self.vol_base.plus(h), ..self }, h)
        }
    }

    fn bump(self, slot: usize, h: V) -> (r: (Self, V)) {
        if slot == 0 {
            (Bar { open: self.open.add(h), ..self }, h)
        } else if slot == 1 {
            (Bar { high: self.high.add(h), ..self }, h)
        } else if slot == 2 {
            (Bar { low: self.low.add(h), ..self }, h)
        } else if slot == 3 {
            (Bar { close: self.close.add(h), ..self }, h)
        } else {
            (Bar { vol_base: self.vol_base.add(h), ..self }, h)
        }
    }
}

/// How many ticks a step of `h` is on a grid of `10^-prec`: one at the least, and no more than so
/// many.
pub open spec fn ticks_of<V: Scalar>(h: V, prec: int, most: int) -> int {
    let n = h.times(raised(V::whole(10), prec)).nearest() as int;
    if n < 1 {
        1
    } else if n > most {
        most
    } else {
        n
    }
}

fn count_ticks<V: Scalar>(h: V, prec: i8, most: i64) -> (r: i64)
    requires
        1 <= most,
    ensures
        r == ticks_of(h, prec as int, most as int),
{
    let n: i64 = h.mul(powi(V::of(10), prec as i32)).round();
    if n < 1 {
        1
    } else if n > most {
        most
    } else {
        n
    }
}

impl TradeColumns {
    /// The columns with one slot of the last element moved by whole ticks.
    pub open spec fn bumped<V: Scalar>(self, slot: int, h: V) -> Self {
        let last = self.seq.len() - 1;
        if self.seq.len() == 0 {
            self
        } else if slot == 0 {
            let n = ticks_of(h, self.prec.price.0 as int, i32::MAX as int);
            TradeColumns { price: self.price.update(last, (self.price[last] + n) as i32), ..self }
        } else {
            let n = ticks_of(h, self.prec.qty.0 as int, u32::MAX as int);
            TradeColumns { qty: self.qty.update(last, (self.qty[last] + n) as u32), ..self }
        }
    }

    /// The perturbation applied, in the column's own units.
    pub open spec fn applied<V: Scalar>(self, slot: int, h: V) -> V {
        if self.seq.len() == 0 {
            V::whole(0)
        } else if slot == 0 {
            unscaled(ticks_of(h, self.prec.price.0 as int, i32::MAX as int), self.prec.price.0 as int)
        } else {
            unscaled(ticks_of(h, self.prec.qty.0 as int, u32::MAX as int), self.prec.qty.0 as int)
        }
    }

    /// Whether the last element can be moved so far.
    pub open spec fn movable<V: Scalar>(self, slot: int, h: V) -> bool {
        self.seq.len() > 0 ==> if slot == 0 {
            self.price.last() + ticks_of(h, self.prec.price.0 as int, i32::MAX as int) <= i32::MAX
        } else {
            self.qty.last() + ticks_of(h, self.prec.qty.0 as int, u32::MAX as int) <= u32::MAX
        }
    }
}

impl TradeBuf {
    /// Bump one flattened slot of the *last* element, in whole ticks. Returns the perturbation
    /// actually applied in the column's own units; a tick grid cannot represent anything finer.
    pub fn bump_last<V: Scalar>(&mut self, slot: usize, h: V) -> (dh: V)
        requires
            old(self)@.wf(),
            slot < 2,
            old(self)@.movable(slot as int, h),
        ensures
            final(self)@ == old(self)@.bumped(slot as int, h),
            final(self)@.wf(),
            dh == old(self)@.applied(slot as int, h),
    {
        let n: usize = self.len();
        if n == 0 {
            return V::of(0);
        }
        let prec: PrecisionPriceQty = self.precision();
        if slot == 0 {
            let ticks: i64 = count_ticks(h, prec.price.0, i32::MAX as i64);
            self.move_price(n - 1, ticks as i32);
            scaled_down(ticks, prec.price.0)
        } else {
            let ticks: i64 = count_ticks(h, prec.qty.0, u32::MAX as i64);
            self.move_qty(n - 1, ticks as u32);
            scaled_down(ticks, prec.qty.0)
        }
    }
}

/// A bump moves the one slot it names, by as much as it says that it did, and leaves every other slot
/// and the time where they were.
pub proof fn a_bump_moves_its_slot_alone<V: Scalar>(
    number: Number<V>,
    pair: RsiValues<V>,
    ohlc: Ohlc<V>,
    volume: Volume<V>,
    bar: Bar<V>,
    slot: int,
    h: V,
)
    ensures
        slot == 0 ==> number.bumped(slot, h).0.0 == number.0.plus(h) && number.bumped(slot, h).1 == h,
        slot == 0 ==> volume.bumped(slot, h).0.base == volume.base.plus(h) && volume.bumped(slot, h).0.ts_close
            == volume.ts_close && volume.bumped(slot, h).1 == h,
        pair.whole() && pair.bumped(slot, h).0.whole() && 0 <= slot < 2 ==> pair.bumped(slot, h).0.slots()
            == pair.slots().update(slot, pair.slots()[slot].plus(h)) && pair.bumped(slot, h).1 == h,
        0 <= slot < 4 ==> ohlc.bumped(slot, h).0.slots() == ohlc.slots().update(
            slot,
            ohlc.slots()[slot].plus(h),
        ) && ohlc.bumped(slot, h).0.ts_close == ohlc.ts_close && ohlc.bumped(slot, h).1 == h,
        0 <= slot < 5 ==> bar.bumped(slot, h).0.slots() == bar.slots().update(
            slot,
            bar.slots()[slot].plus(h),
        ) && bar.bumped(slot, h).0.ts_close == bar.ts_close && bar.bumped(slot, h).1 == h,
{
    assert(0 <= slot < 4 ==> ohlc.bumped(slot, h).0.slots() =~= ohlc.slots().update(
        slot,
        ohlc.slots()[slot].plus(h),
    ));
    assert(0 <= slot < 5 ==> bar.bumped(slot, h).0.slots() =~= bar.slots().update(
        slot,
        bar.slots()[slot].plus(h),
    ));
    assert(pair.whole() && pair.bumped(slot, h).0.whole() && 0 <= slot < 2 ==> pair.bumped(
        slot,
        h,
    ).0.slots() =~= pair.slots().update(slot, pair.slots()[slot].plus(h)));
}

/// What cannot be moved says so: a truth and a book's row stay what they are, and so does an absence,
/// and none of them moved at all.
pub proof fn what_cannot_move_moves_by_nothing<V: Scalar>(
    truth: bool,
    row: BookDelta,
    some: Number<V>,
    slot: int,
    h: V,
)
    ensures
        <bool as Bump<V>>::bumped(truth, slot, h) == (truth, V::whole(0)),
        <BookDelta as Bump<V>>::bumped(row, slot, h) == (row, V::whole(0)),
        <Option<Number<V>> as Bump<V>>::bumped(None, slot, h) == (None::<Number<V>>, V::whole(0)),
        <Option<Number<V>> as Bump<V>>::bumped(Some(some), slot, h) == (
            Some(Number(some.0.plus(h))),
            h,
        ),
{
}

/// A trade is moved by whole ticks, at least one, and no more than there is room to count: the last
/// row's price, or its size, and nothing else; what it moved by is what so many ticks are worth.
pub proof fn a_trade_moves_by_whole_ticks<V: Scalar>(cols: TradeColumns, slot: int, h: V)
    requires
        cols.wf(),
        cols.seq.len() > 0,
        0 <= slot < 2,
        cols.movable(slot, h),
    ensures
        ({
            let last = cols.seq.len() - 1;
            let after = cols.bumped(slot, h);
            let prec = if slot == 0 {
                cols.prec.price.0 as int
            } else {
                cols.prec.qty.0 as int
            };
            let moved = if slot == 0 {
                after.price[last] - cols.price[last]
            } else {
                after.qty[last] - cols.qty[last]
            };
            let asked = h.times(raised(V::whole(10), prec)).nearest();
            &&& moved >= 1
            &&& asked <= 1 ==> moved == 1
            &&& 1 <= asked <= i32::MAX ==> moved == asked
            &&& cols.applied(slot, h) == V::whole(moved).over(raised(V::whole(10), prec))
            &&& after.execs == cols.execs && after.send == cols.send && after.recv == cols.recv
            &&& after.seq == cols.seq && after.side == cols.side && after.prec == cols.prec
            &&& slot == 0 ==> after.qty == cols.qty && after.price.take(last) == cols.price.take(last)
            &&& slot == 1 ==> after.price == cols.price && after.qty.take(last) == cols.qty.take(last)
        }),
{
    let last = cols.seq.len() - 1;
    let after = cols.bumped(slot, h);
    assert(after.price.take(last) =~= cols.price.take(last));
    assert(after.qty.take(last) =~= cols.qty.take(last));
}

} // verus!
