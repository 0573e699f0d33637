//! What a value looks like at a glance, and what it flattens to.

use trading_data::book::{Book, BookShape};
use trading_data::chunk::BookChunk;
use trading_data::delta::{BookDelta, FrameKind};
use trading_data::flat::{Flat, Number};
use trading_data::glance::Glance;
use trading_data::horizon::{Horizon, Timeframe};
use trading_data::precision::{Precision, PrecisionPriceQty};
use trading_data::retain::Batch;
use trading_data::rsi::RsiValues;
use trading_data::scalar::Scalar;
use trading_data::side::Side;
use trading_data::ts::{Aggregate, Ts};

/// A machine float as a scalar.
#[derive(Clone, Copy, Debug, PartialEq, PartialOrd)]
struct F64(f64);

impl Scalar for F64 {
    fn zero_equals_zero() {}

    fn one_is_not_zero() {}

    fn none_is_absent() {}

    fn of(n: i64) -> Self {
        F64(n as f64)
    }

    fn nan() -> Self {
        F64(f64::NAN)
    }

    fn is_nan(self) -> bool {
        self.0.is_nan()
    }

    fn add(self, other: Self) -> Self {
        F64(self.0 + other.0)
    }

    fn sub(self, other: Self) -> Self {
        F64(self.0 - other.0)
    }

    fn mul(self, other: Self) -> Self {
        F64(self.0 * other.0)
    }

    fn div(self, other: Self) -> Self {
        F64(self.0 / other.0)
    }

    fn neg(self) -> Self {
        F64(-self.0)
    }

    fn abs(self) -> Self {
        F64(self.0.abs())
    }

    fn sqrt(self) -> Self {
        F64(self.0.sqrt())
    }

    fn exp(self) -> Self {
        F64(self.0.exp())
    }

    fn min(self, other: Self) -> Self {
        F64(self.0.min(other.0))
    }

    fn max(self, other: Self) -> Self {
        F64(self.0.max(other.0))
    }

    fn lt(self, other: Self) -> bool {
        self.0 < other.0
    }

    fn same(self, other: Self) -> bool {
        self.0 == other.0
    }

    fn round(self) -> i64 {
        self.0.round() as i64
    }

    fn is_broken(self) -> bool {
        self.0.fract() != 0.0
    }

    fn text(self) -> String {
        format!("{}", self.0)
    }

    fn text_to(self, places: usize) -> String {
        format!("{:.*}", places, self.0)
    }
}

fn prec() -> PrecisionPriceQty {
    PrecisionPriceQty::new(Precision(2), Precision(3))
}

fn anchor() -> BookShape {
    BookShape {
        ts: Aggregate::default(),
        prec: prec(),
        bids: [(9_900, 5), (9_850, 2)].into_iter().collect(),
        asks: [(10_100, 7)].into_iter().collect(),
    }
}

fn row(seq: u64, kind: FrameKind, side: Side, price: i32, qty: u32) -> BookDelta {
    BookDelta {
        prec: prec(),
        ts_venue_exec: Ts::from_nanos(0),
        ts_local_recv: Ts::from_nanos(0),
        monotonic_seq: seq,
        kind,
        side,
        price,
        qty,
    }
}

#[test]
fn a_number_an_absence_and_a_run() {
    let n = |x: f64| Number(F64(x));
    assert_eq!(n(2.5).glance(), "2.5");
    assert_eq!(true.glance(), "true");
    assert_eq!(Some(n(1.0)).glance(), "1");
    assert_eq!(None::<Number<F64>>.glance(), "None");
    assert_eq!((&[n(1.0), n(3.0)][..]).glance(), "3");
    assert_eq!((&[] as &[Number<F64>]).glance(), "[]");
}

#[test]
fn an_index_is_shown_to_a_tenth() {
    let v = RsiValues { actual: F64(70.5328), smooth: F64(60.0) };
    assert_eq!(v.glance(), "70.5");
    let cold = RsiValues { actual: F64(f64::NAN), smooth: F64(f64::NAN) };
    assert_eq!(cold.glance(), "None");
}

/// A reading that is warm on its own says nothing until the pair does.
#[test]
fn a_half_warm_index_fills_no_slot() {
    let half = RsiValues { actual: F64(70.5328), smooth: F64(f64::NAN) };
    let mut out = [F64(0.0); 2];
    assert!(!half.flat(&mut out));
    assert!(out[0].0.is_nan() && out[1].0.is_nan());
    assert_eq!(Flat::<F64>::fires(&half), 0);
    let whole = RsiValues { actual: F64(70.5328), smooth: F64(60.0) };
    assert!(whole.flat(&mut out));
    assert_eq!([out[0].0, out[1].0], [70.5328, 60.0]);
}

#[test]
fn a_level_says_what_it_is() {
    let d = row(1, FrameKind::Correction, Side::Sell, 10_150, 2_500);
    assert_eq!(d.glance(), "Correction Sell 2.5@101.5");
    let mut out = [F64(0.0); 2];
    assert!(d.flat(&mut out));
    assert_eq!([out[0].0, out[1].0], [101.5, 2.5]);
}

#[test]
fn a_book_shows_its_tops() {
    let (mut book, mut chunk) = (Book::default(), BookChunk::default());
    assert_eq!((&book).glance(), "empty (0 lvls)");
    chunk.advance(&[row(1, FrameKind::Update, Side::Buy, 9_950, 4)], Horizon::Over(Timeframe(900_000)));
    assert!(book.step(Some(&anchor()), &chunk));
    assert_eq!((&book).glance(), "99.50/101.00 (4 lvls)");
    assert_eq!((&chunk).glance(), "1 lvls net");
    assert_eq!((&anchor()).glance(), "checkpoint 2b/1a");
    let mut out = [F64(0.0); 2];
    assert!((&book).flat(&mut out));
    assert_eq!([out[0].0, out[1].0], [99.5, 101.0]);
}
