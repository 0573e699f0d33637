//! Trades accumulated into bars.

use core::marker::PhantomData;

use trading_data::bar::{closed_by, Bar, Bars, Ohlcs, Volumes};
use trading_data::cell::{Cell, Cons, Nil};
use trading_data::cells::Trades;
use trading_data::cols::TradeBuf;
use trading_data::emit::{step_emit, Emitter};
use trading_data::flat::Flat;
use trading_data::glance::Glance;
use trading_data::precision::{Precision, PrecisionPriceQty};
use trading_data::scalar::Scalar;
use trading_data::side::Side;
use trading_data::ts::Ts;

/// A machine float as a scalar.
#[derive(Clone, Copy, Debug, PartialEq, PartialOrd)]
struct F64(f64);

impl Scalar for F64 {
    fn zero_equals_zero() {}

    fn one_is_not_zero() {}

    fn none_is_absent() {}

    fn of(n: i64) -> Self {
        F64(n as f64)
    }

    fn nan() -> Self {
        F64(f64::NAN)
    }

    fn is_nan(self) -> bool {
        self.0.is_nan()
    }

    fn add(self, other: Self) -> Self {
        F64(self.0 + other.0)
    }

    fn sub(self, other: Self) -> Self {
        F64(self.0 - other.0)
    }

    fn mul(self, other: Self) -> Self {
        F64(self.0 * other.0)
    }

    fn div(self, other: Self) -> Self {
        F64(self.0 / other.0)
    }

    fn neg(self) -> Self {
        F64(-self.0)
    }

    fn abs(self) -> Self {
        F64(self.0.abs())
    }

    fn sqrt(self) -> Self {
        F64(self.0.sqrt())
    }

    fn exp(self) -> Self {
        F64(self.0.exp())
    }

    fn min(self, other: Self) -> Self {
        F64(self.0.min(other.0))
    }

    fn max(self, other: Self) -> Self {
        F64(self.0.max(other.0))
    }

    fn lt(self, other: Self) -> bool {
        self.0 < other.0
    }

    fn same(self, other: Self) -> bool {
        self.0 == other.0
    }

    fn round(self) -> i64 {
        self.0.round() as i64
    }

    fn is_broken(self) -> bool {
        self.0.fract() != 0.0
    }

    fn text(self) -> String {
        format!("{}", self.0)
    }

    fn text_to(self, places: usize) -> String {
        format!("{:.*}", places, self.0)
    }
}

const SECOND: i64 = 1_000_000_000;

struct G {
    ohlcs: Emitter<Ohlcs<60_000, F64>>,
    volumes: Emitter<Volumes<60_000, F64>>,
    bars: Emitter<Bars<60_000, F64>>,
}

impl G {
    fn new() -> Self {
        G {
            ohlcs: Emitter::new(Ohlcs::new()),
            volumes: Emitter::new(Volumes::new()),
            bars: Emitter::new(Bars(PhantomData)),
        }
    }

    /// One tick over trades of `(second, price, qty)`.
    fn tick(&mut self, trades: &[(i64, i32, u32)]) -> Vec<Bar<F64>> {
        let mut buf = TradeBuf::new(PrecisionPriceQty::new(Precision(2), Precision(1)));
        for (i, (s, price, qty)) in trades.iter().enumerate() {
            buf.push(Ts::from_nanos(s * SECOND), None, None, i as u64, Side::Buy, *price, *qty);
        }
        let f = Cons::<Trades, Nil> { out: buf.cols(0..trades.len()), tail: Nil };
        let f = step_emit(f, &mut self.ohlcs, true, 0);
        let f = step_emit(f, &mut self.volumes, true, 0);
        let f = step_emit(f, &mut self.bars, true, 0);
        f.head().to_vec()
    }
}

fn read(b: &Bar<F64>) -> (i64, [f64; 5]) {
    (b.ts_close.as_nanos() / SECOND, [b.open.0, b.high.0, b.low.0, b.close.0, b.vol_base.0])
}

#[test]
fn a_trade_past_the_boundary_closes_the_bar() {
    let mut g = G::new();
    assert!(g.tick(&[(0, 10_000, 10), (30, 10_150, 5)]).is_empty(), "nothing closes within a period");
    let closed = g.tick(&[(59, 9_900, 20), (61, 10_000, 10)]);
    assert_eq!(closed.iter().map(read).collect::<Vec<_>>(), [(60, [100.0, 101.5, 99.0, 99.0, 3.5])]);
    let closed = g.tick(&[(185, 10_000, 30)]);
    assert_eq!(closed.iter().map(read).collect::<Vec<_>>(), [(120, [100.0, 100.0, 100.0, 100.0, 1.0])]);
}

/// A batch cut anywhere closes the same bars.
#[test]
fn the_bars_do_not_depend_on_the_batches() {
    let trades = [(0, 100, 1), (10, 130, 2), (61, 90, 3), (70, 95, 4), (130, 80, 5), (200, 81, 6)];
    let whole: Vec<_> = G::new().tick(&trades).iter().map(read).collect();
    for cut in 0..=trades.len() {
        let mut g = G::new();
        let mut parts: Vec<_> = g.tick(&trades[..cut]).iter().map(read).collect();
        parts.extend(g.tick(&trades[cut..]).iter().map(read));
        assert_eq!(parts, whole, "cut at {cut}");
    }
    assert_eq!(whole.len(), 3);
}

#[test]
fn a_bar_is_named_read_and_shown() {
    assert_eq!(Bars::<60_000, F64>::name(), "Bar:1m");
    let mut g = G::new();
    let closed = g.tick(&[(0, 10_000, 10), (61, 10_000, 10), (130, 10_000, 1)]);
    let mut out = [F64(0.0); 5];
    assert!(closed[0].flat(&mut out));
    assert_eq!(out.map(|x| x.0), [100.0, 100.0, 100.0, 100.0, 1.0]);
    assert!(!closed[0].glance().is_empty());
    assert_eq!(closed_by(&closed, Ts::from_nanos(60 * SECOND)).as_slice().len(), 1);
    assert_eq!(closed_by(&closed, Ts::from_nanos(59 * SECOND)).as_slice().len(), 0);
    assert_eq!(closed_by(&closed, Ts::from_nanos(120 * SECOND)).as_slice().len(), 2);
}
