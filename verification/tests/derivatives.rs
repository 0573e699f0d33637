//! The Jacobians of the derivations, read under observation and held against what the same
//! perturbation makes of the out.

use core::marker::PhantomData;

use trading_data::bar::{Bar, Bars, Ohlcs, Volumes};
use trading_data::cell::{Cell, Cons, Facts, Nil, No};
use trading_data::cells::Trades;
use trading_data::cols::TradeBuf;
use trading_data::emit::{step_emit, Emitter};
use trading_data::flat::Number;
use trading_data::horizon::Elems;
use trading_data::node::step;
use trading_data::observe::{Fire, Observer, Sweep};
use trading_data::precision::{Precision, PrecisionPriceQty};
use trading_data::rows::Rows;
use trading_data::rsi::{AvgGain, AvgLoss, Rsi, RsiDelta, RsiSpec};
use trading_data::scalar::Scalar;
use trading_data::series::{Buffer, Series};
use trading_data::shape::Fidelity;
use trading_data::side::Side;
use trading_data::sweep::{observe_root, step_emit_obs};
use trading_data::ts::Ts;
use trading_data::want::Want;

/// A machine float as a scalar.
#[derive(Clone, Copy, Debug, PartialEq, PartialOrd)]
struct F64(f64);

impl Scalar for F64 {
    fn zero_equals_zero() {}

    fn one_is_not_zero() {}

    fn none_is_absent() {}

    fn of(n: i64) -> Self {
        F64(n as f64)
    }

    fn nan() -> Self {
        F64(f64::NAN)
    }

    fn is_nan(self) -> bool {
        self.0.is_nan()
    }

    fn add(self, other: Self) -> Self {
        F64(self.0 + other.0)
    }

    fn sub(self, other: Self) -> Self {
        F64(self.0 - other.0)
    }

    fn mul(self, other: Self) -> Self {
        F64(self.0 * other.0)
    }

    fn div(self, other: Self) -> Self {
        F64(self.0 / other.0)
    }

    fn neg(self) -> Self {
        F64(-self.0)
    }

    fn abs(self) -> Self {
        F64(self.0.abs())
    }

    fn sqrt(self) -> Self {
        F64(self.0.sqrt())
    }

    fn exp(self) -> Self {
        F64(self.0.exp())
    }

    fn min(self, other: Self) -> Self {
        F64(self.0.min(other.0))
    }

    fn max(self, other: Self) -> Self {
        F64(self.0.max(other.0))
    }

    fn lt(self, other: Self) -> bool {
        self.0 < other.0
    }

    fn same(self, other: Self) -> bool {
        self.0 == other.0
    }

    fn round(self) -> i64 {
        self.0.round() as i64
    }

    fn is_broken(self) -> bool {
        self.0.fract() != 0.0
    }

    fn text(self) -> String {
        format!("{}", self.0)
    }

    fn text_to(self, places: usize) -> String {
        format!("{:.*}", places, self.0)
    }
}

/// What one fire said.
#[derive(Clone, Debug)]
struct Said {
    node: String,
    vals: Option<Vec<f64>>,
    jac: Option<Vec<f64>>,
    block: Option<(Vec<f64>, Vec<usize>)>,
    exact: bool,
    fidelity: Fidelity,
    fires: usize,
}

struct Rec(Want, Vec<Said>);

impl Observer<F64> for Rec {
    fn want(&self, _: &str) -> Want {
        self.0
    }

    fn on(&mut self, node: &str, _: &[String], _: &[bool], fire: Fire<'_, F64>) {
        let read = |v: &[F64]| v.iter().map(|x| x.0).collect::<Vec<f64>>();
        self.1.push(Said {
            node: String::from(node),
            vals: fire.vals.map(read),
            jac: fire.jac.map(read),
            block: fire.exact_block.map(|(b, w)| (read(b), w.to_vec())),
            exact: fire.exact,
            fidelity: fire.fidelity,
            fires: fire.fires,
        });
    }
}

const SECOND: i64 = 1_000_000_000;

fn trades(of: &[(i64, i32, u32)]) -> TradeBuf {
    let mut buf = TradeBuf::new(PrecisionPriceQty::new(Precision(2), Precision(1)));
    for (i, (s, price, qty)) in of.iter().enumerate() {
        buf.push(Ts::from_nanos(s * SECOND), None, None, i as u64, Side::Buy, *price, *qty);
    }
    buf
}

/// The column stands for the trade that *closed* the reported bar's numbers, not for the batch's
/// newest.
#[test]
fn a_closed_period_is_differentiated_at_the_element_it_was_last_folded_from() {
    let (mut rec, mut sweep) = (Rec(Want::Exact, Vec::new()), Sweep::new());
    let mut ohlcs: Emitter<Ohlcs<60_000, F64>> = Emitter::new(Ohlcs::new());
    let mut volumes: Emitter<Volumes<60_000, F64>> = Emitter::new(Volumes::new());
    let mut bars: Emitter<Bars<60_000, F64>> = Emitter::new(Bars(PhantomData));
    let buf = trades(&[(0, 10_000, 10), (30, 10_200, 20), (61, 9_000, 10)]);
    let f = Cons::<Trades, Nil> { out: buf.cols(0..3), tail: Nil };
    observe_root::<F64, Trades, _>(f.head(), &mut sweep, &mut rec);
    let f = step_emit_obs(f, &mut ohlcs, true, 0, &mut sweep, &mut rec);
    let f = step_emit_obs(f, &mut volumes, true, 0, &mut sweep, &mut rec);
    step_emit_obs(f, &mut bars, true, 0, &mut sweep, &mut rec);

    let root = &rec.1[0];
    assert_eq!((root.node.as_str(), root.fires), ("Trades", 3));
    assert_eq!(root.vals.as_deref(), Some(&[90.0, 1.0][..]));
    assert!(root.jac.is_none());

    let o = &rec.1[1];
    assert_eq!(o.vals.as_deref(), Some(&[100.0, 102.0, 100.0, 102.0][..]));
    // open, high, low, close over (price, qty): the second trade made the high and the close.
    assert_eq!(o.jac.as_deref(), Some(&[0.0, 0.0, 1.0, 0.0, 0.0, 0.0, 1.0, 0.0][..]));
    assert_eq!(o.block, Some((vec![0.0, 0.0, 1.0, 0.0, 0.0, 0.0, 1.0, 0.0], vec![2])));
    assert!(o.exact && matches!(o.fidelity, Fidelity::Partial(_)));

    let v = &rec.1[2];
    assert_eq!((v.vals.as_deref(), v.jac.as_deref()), (Some(&[3.0][..]), Some(&[0.0, 1.0][..])));

    let b = &rec.1[3];
    assert_eq!(b.vals.as_deref(), Some(&[100.0, 102.0, 100.0, 102.0, 3.0][..]));
    // a bar is its two halves, slot for slot.
    let identity: Vec<f64> = (0..25).map(|i| if i % 6 == 0 { 1.0 } else { 0.0 }).collect();
    assert_eq!(b.jac.as_ref(), Some(&identity));
    assert!(b.exact && matches!(b.fidelity, Fidelity::Exact));
}

#[test]
fn a_batch_that_closed_nothing_has_nothing_to_differentiate() {
    let (mut rec, mut sweep) = (Rec(Want::Exact, Vec::new()), Sweep::new());
    let mut ohlcs: Emitter<Ohlcs<60_000, F64>> = Emitter::new(Ohlcs::new());
    let buf = trades(&[(0, 10_000, 10), (30, 10_200, 20)]);
    let f = Cons::<Trades, Nil> { out: buf.cols(0..2), tail: Nil };
    step_emit_obs(f, &mut ohlcs, true, 0, &mut sweep, &mut rec);
    assert_eq!((rec.1[0].fires, rec.1[0].vals.is_none(), rec.1[0].jac.is_none()), (0, true, true));
}

struct Closes;

impl Cell for Closes {
    type Out<'t> = &'t [Bar<F64>];
    type Gates = No;

    fn name() -> String {
        String::from("Closes")
    }

    fn facts() -> Facts {
        Facts::bare()
    }

    fn opens<'t>(_: &'t [Bar<F64>]) -> bool {
        true
    }
}

impl Series for Closes {
    type Item = Bar<F64>;
    type Batch = Rows<Bar<F64>>;
}

struct Tiny;

impl RsiSpec for Tiny {
    fn name() -> String {
        String::from("3/2")
    }

    fn base_len() -> usize {
        3
    }

    fn smooth_len() -> usize {
        2
    }
}

fn bar(i: i64, close: f64) -> Bar<F64> {
    let close = F64(close);
    Bar {
        ts_close: Ts::from_nanos((i + 1) * 60 * SECOND),
        open: close,
        high: close,
        low: close,
        close,
        vol_base: F64(1.0),
    }
}

/// A change reads this close and the one before it: the reading the point column cannot show, and the
/// block over the dep's own reach does.
#[test]
fn a_change_is_this_close_less_the_one_before() {
    let (mut rec, mut sweep) = (Rec(Want::Exact, Vec::new()), Sweep::new());
    let mut hist: Buffer<Closes, Elems<1>> = Buffer { batch: Rows::default(), reach: PhantomData };
    let mut delta: Emitter<RsiDelta<Closes, F64>> = Emitter::new(RsiDelta(PhantomData));
    for bars in [[bar(0, 10.0)], [bar(1, 12.5)]] {
        let f = Cons::<Closes, Nil> { out: &bars, tail: Nil };
        let f = step(f, &mut hist);
        step_emit_obs(f, &mut delta, true, 0, &mut sweep, &mut rec);
    }
    let said = &rec.1[1];
    assert_eq!(said.vals.as_deref(), Some(&[2.5][..]));
    assert_eq!(said.jac.as_deref(), Some(&[0.0, 0.0, 0.0, 1.0, 0.0][..]));
    let want = vec![0.0, 0.0, 0.0, -1.0, 0.0, 0.0, 0.0, 0.0, 1.0, 0.0];
    assert_eq!(said.block, Some((want, vec![10])));
}

type Gain = AvgGain<Closes, Tiny, F64>;
type Loss = AvgLoss<Closes, Tiny, F64>;
type Index = Rsi<Closes, Tiny, F64>;

fn averages(of: &[f64]) -> Vec<Option<Number<F64>>> {
    of.iter().map(|x| Some(Number(F64(*x)))).collect()
}

/// An index warmed by two pairs of averages.
fn warm() -> Emitter<Index> {
    let mut rsi = Emitter::new(Rsi::new());
    let (g, l) = (averages(&[1.0, 1.2]), averages(&[0.8, 0.5]));
    let f = Cons::<Gain, Nil> { out: &g, tail: Nil };
    let f = Cons::<Loss, _> { out: &l, tail: f };
    step_emit(f, &mut rsi, true, 0);
    rsi
}

fn last(gain: f64, loss: f64) -> [f64; 2] {
    let mut rsi = warm();
    let (g, l) = (averages(&[gain]), averages(&[loss]));
    let f = Cons::<Gain, Nil> { out: &g, tail: Nil };
    let f = Cons::<Loss, _> { out: &l, tail: f };
    let f = step_emit(f, &mut rsi, true, 0);
    let v = f.head()[0];
    [v.actual.0, v.smooth.0]
}

#[test]
fn the_index_s_columns_are_the_difference_they_make() {
    let (mut rec, mut sweep) = (Rec(Want::Jac, Vec::new()), Sweep::new());
    let mut rsi = warm();
    let (gain, loss) = (1.3, 0.7);
    let (g, l) = (averages(&[gain]), averages(&[loss]));
    let f = Cons::<Gain, Nil> { out: &g, tail: Nil };
    let f = Cons::<Loss, _> { out: &l, tail: f };
    step_emit_obs(f, &mut rsi, true, 0, &mut sweep, &mut rec);
    let said = rec.1[0].clone();
    let jac = said.jac.expect("a warm index fired");
    assert_eq!(said.vals, Some(last(gain, loss).to_vec()));
    let h = 1e-6;
    for row in 0..2 {
        let by_gain = (last(gain + h, loss)[row] - last(gain - h, loss)[row]) / (2.0 * h);
        let by_loss = (last(gain, loss + h)[row] - last(gain, loss - h)[row]) / (2.0 * h);
        assert!((jac[2 * row] - by_gain).abs() < 1e-4, "{row}: {jac:?} against {by_gain}");
        assert!((jac[2 * row + 1] - by_loss).abs() < 1e-4, "{row}: {jac:?} against {by_loss}");
    }
    assert!(said.exact && said.block.is_none(), "nobody asked for the block");
    assert!(matches!(said.fidelity, Fidelity::Partial("state history, by design")));
}

/// Whether anybody looks, and how deep, changes nothing of what is computed.
#[test]
fn observing_moves_nothing() {
    let bare = last(1.3, 0.7);
    for want in [Want::Nothing, Want::Vals, Want::Jac, Want::Exact] {
        let (mut rec, mut sweep) = (Rec(want, Vec::new()), Sweep::new());
        let mut rsi = warm();
        let (g, l) = (averages(&[1.3]), averages(&[0.7]));
        let f = Cons::<Gain, Nil> { out: &g, tail: Nil };
        let f = Cons::<Loss, _> { out: &l, tail: f };
        let f = step_emit_obs(f, &mut rsi, true, 0, &mut sweep, &mut rec);
        let v = f.head()[0];
        assert_eq!([v.actual.0, v.smooth.0], bare);
        assert_eq!(rec.1.is_empty(), want == Want::Nothing);
    }
}
