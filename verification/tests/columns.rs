//! Trades in columns and in batches.

use trading_data::batch::{BatchTrades, InnerTrade};
use trading_data::cols::{scaled_down, span, TradeBuf};
use trading_data::flat::Flat;
use trading_data::glance::Glance;
use trading_data::precision::{Precision, PrecisionPriceQty};
use trading_data::scalar::Scalar;
use trading_data::side::Side;
use trading_data::ts::{Local, Timestamped, Timestamps, Ts, Venue};

/// A machine float as a scalar.
#[derive(Clone, Copy, Debug, PartialEq, PartialOrd)]
struct F64(f64);

impl Scalar for F64 {
    fn zero_equals_zero() {}

    fn one_is_not_zero() {}

    fn none_is_absent() {}

    fn of(n: i64) -> Self {
        F64(n as f64)
    }

    fn nan() -> Self {
        F64(f64::NAN)
    }

    fn is_nan(self) -> bool {
        self.0.is_nan()
    }

    fn add(self, other: Self) -> Self {
        F64(self.0 + other.0)
    }

    fn sub(self, other: Self) -> Self {
        F64(self.0 - other.0)
    }

    fn mul(self, other: Self) -> Self {
        F64(self.0 * other.0)
    }

    fn div(self, other: Self) -> Self {
        F64(self.0 / other.0)
    }

    fn neg(self) -> Self {
        F64(-self.0)
    }

    fn abs(self) -> Self {
        F64(self.0.abs())
    }

    fn sqrt(self) -> Self {
        F64(self.0.sqrt())
    }

    fn exp(self) -> Self {
        F64(self.0.exp())
    }

    fn min(self, other: Self) -> Self {
        F64(self.0.min(other.0))
    }

    fn max(self, other: Self) -> Self {
        F64(self.0.max(other.0))
    }

    fn lt(self, other: Self) -> bool {
        self.0 < other.0
    }

    fn same(self, other: Self) -> bool {
        self.0 == other.0
    }

    fn round(self) -> i64 {
        self.0.round() as i64
    }

    fn is_broken(self) -> bool {
        self.0.fract() != 0.0
    }

    fn text(self) -> String {
        format!("{}", self.0)
    }

    fn text_to(self, places: usize) -> String {
        format!("{:.*}", places, self.0)
    }
}

fn prec() -> PrecisionPriceQty {
    PrecisionPriceQty::new(Precision(2), Precision(3))
}

fn venue(ns: i64) -> Ts<Venue> {
    Ts::from_nanos(ns)
}

fn local(ns: i64) -> Ts<Local> {
    Ts::from_nanos(ns)
}

fn buf() -> TradeBuf {
    let mut b = TradeBuf::new(prec());
    b.push(venue(10), Some(venue(11)), Some(local(20)), 1, Side::Buy, 10_050, 1_500);
    b.push(venue(12), Some(venue(13)), Some(local(22)), 2, Side::Sell, 10_051, 250);
    b.push(venue(15), Some(venue(16)), None, 3, Side::Buy, -7, 3_000);
    b
}

#[test]
fn a_window_of_a_buffer_is_its_elements() {
    let b = buf();
    assert_eq!((b.len(), b.is_empty(), b.exec_at(1)), (3, false, venue(12)));
    let c = b.cols(0..2);
    assert_eq!((c.len(), c.is_empty()), (2, false));
    assert_eq!(c.execs(), [venue(10), venue(12)]);
    assert_eq!(c.ts.send, Some(&[venue(11), venue(13)][..]));
    assert_eq!((c.monotonic_seq, c.price, c.qty), (&[1, 2][..], &[10_050, 10_051][..], &[1_500, 250][..]));
    assert_eq!(c.side, [Side::Buy, Side::Sell]);
    let recv = c.ts.recv.expect("both were received");
    assert_eq!((recv.first, recv.last), (local(20), local(22)));
    assert!(b.cols(1..3).ts.recv.is_none());
    assert!(b.cols(1..1).is_empty());
}

#[test]
fn what_was_appended_reads_back() {
    let b = buf();
    let mut out = TradeBuf::new(prec());
    out.extend(b.cols(0..3));
    let c = out.cols(0..3);
    assert_eq!(c.execs(), b.cols(0..3).execs());
    assert_eq!((c.monotonic_seq, c.price, c.qty), (&[1, 2, 3][..], &[10_050, 10_051, -7][..], &[1_500, 250, 3_000][..]));
    assert_eq!(c.ts.send, b.cols(0..3).ts.send);
    assert!(c.ts.recv.is_none(), "the run's window was not known");
    let mut live = TradeBuf::new(prec());
    live.extend(b.cols(0..2));
    let recv = live.cols(0..2).ts.recv.expect("both were received");
    assert_eq!((recv.first, recv.last), (local(22), local(22)), "the window collapses onto its end");
}

#[test]
fn a_buffer_copied_is_its_own() {
    let mut first = buf();
    let copy = first.clone();
    first.clear();
    assert_eq!((first.len(), copy.len()), (0, buf().len()));
    let whole = buf();
    let (a, b) = (copy.cols(0..3), whole.cols(0..3));
    assert_eq!((a.ts.send, a.ts.recv.is_none()), (b.ts.send, b.ts.recv.is_none()));
    assert_eq!((a.prec, a.price, a.qty, a.monotonic_seq), (b.prec, b.price, b.qty, b.monotonic_seq));
    assert_eq!(a.execs(), b.execs());
    let none = TradeBuf::default();
    assert!(none.is_empty());
    assert_eq!(none.prec, PrecisionPriceQty::new(Precision(0), Precision(0)));
}

#[test]
fn a_drained_prefix_is_gone_and_a_cleared_buffer_is_empty() {
    let mut b = buf();
    b.drain_prefix(2);
    assert_eq!((b.len(), b.exec_at(0)), (1, venue(15)));
    b.clear();
    assert!(b.is_empty());
    // a venue without a wire time may follow once nothing stands in the way of it.
    b.push(venue(1), None, None, 9, Side::Buy, 1, 1);
    assert!(b.cols(0..1).ts.send.is_none());
}

#[test]
fn a_run_flattens_to_its_last_trade() {
    let b = buf();
    let mut out = [F64(0.0); 2];
    assert!(b.cols(0..2).flat(&mut out));
    assert_eq!([out[0].0, out[1].0], [100.51, 0.25]);
    assert!(!b.cols(0..0).flat(&mut out));
    assert!(out[0].0.is_nan() && out[1].0.is_nan());
    assert_eq!(<trading_data::cols::TradeCols<'_> as Flat<F64>>::fires(&b.cols(0..3)), 3);
}

#[test]
fn a_run_is_glanced_at_by_its_last_trade() {
    let b = buf();
    assert_eq!(b.cols(0..2).glance(), "Sell 0.25@100.51");
    assert_eq!(b.cols(0..0).glance(), "[]");
}

#[test]
fn a_run_knows_its_window() {
    assert_eq!(span(&[]).last, venue(0));
    let b = buf();
    let Timestamps::Accumulator(a) = b.cols(0..3).timestamps() else {
        panic!("columns accumulate");
    };
    assert_eq!((a.venue.first, a.venue.last), (venue(10), venue(15)));
    assert!(a.local.is_none());
}

#[test]
fn a_bump_moves_whole_ticks() {
    let mut b = buf();
    let moved = b.bump_last(0, F64(0.0251));
    assert_eq!(b.cols(0..3).price, [10_050, 10_051, -4]);
    assert!((moved.0 - 0.03).abs() < 1e-12, "{moved:?}");
    assert_eq!(b.bump_last(1, F64(0.0)).0, 0.001);
    assert_eq!(TradeBuf::new(prec()).bump_last(1, F64(1.0)).0, 0.0);
}

#[test]
fn a_raw_integer_is_worth_its_ticks() {
    assert_eq!(scaled_down::<F64>(12_345, 2).0, 123.45);
    assert_eq!(scaled_down::<F64>(12, -2).0, 1_200.0);
}

#[test]
fn a_batch_is_stamped_once_on_reception() {
    let t = |ns: i64| InnerTrade { time: venue(ns), ..InnerTrade::default() };
    let b = BatchTrades::new(prec(), vec![t(3), t(5), t(9)], local(40));
    assert_eq!((b.len(), b.is_empty(), b.prec()), (3, false, prec()));
    assert_eq!((b.span().first, b.span().last), (venue(3), venue(9)));
    assert_eq!(b.iter().iter().map(|t| t.time).collect::<Vec<_>>(), [venue(3), venue(5), venue(9)]);
    let Timestamps::Accumulator(a) = b.timestamps() else {
        panic!("a batch accumulates");
    };
    assert_eq!((a.venue.first, a.venue.last), (venue(3), venue(9)));
    assert_eq!(a.local.map(|s| (s.first, s.last)), Some((local(40), local(40))));
    assert!(BatchTrades::new(prec(), vec![], local(0)).is_empty());
}

/// A window of reception is there only when every element of the run was recorded live.
#[test]
fn a_run_recorded_in_part_has_no_reception_window() {
    let mut b = TradeBuf::new(prec());
    for (i, recv) in [Some(1), None, Some(3), Some(4)].into_iter().enumerate() {
        b.push(venue(i as i64), None, recv.map(local), i as u64, Side::Buy, 1, 1);
    }
    assert!(b.cols(0..3).ts.recv.is_none(), "the one in between was not");
    assert!(b.cols(0..2).ts.recv.is_none() && b.cols(1..2).ts.recv.is_none());
    let recv = b.cols(2..4).ts.recv.expect("both were");
    assert_eq!((recv.first, recv.last), (local(3), local(4)));
    assert!(b.cols(0..1).ts.recv.is_some());
    assert!(b.cols(2..2).ts.recv.is_none(), "no element, no window");
}
