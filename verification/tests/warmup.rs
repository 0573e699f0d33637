//! Where a Wilder chain starts having a number, read off the nodes, and the numbers it has: absent for
//! exactly the cold elements, a number from the first warm one, and a half-warm index wholly absent.

use core::marker::PhantomData;

use trading_data::algebra::{constant, max, Vars};
use trading_data::bar::Bar;
use trading_data::cell::{Cell, Cons, Facts, Nil, No};
use trading_data::emit::{step_emit, Emitter};
use trading_data::expr::Expr;
use trading_data::flat::Number;
use trading_data::horizon::Elems;
use trading_data::node::step;
use trading_data::rows::{Present, Rows};
use trading_data::rsi::{rsi, wilder, AvgGain, AvgLoss, Rsi, RsiDelta, RsiSpec};
use trading_data::scalar::Scalar;
use trading_data::series::{Buffer, Series};
use trading_data::ts::Ts;

/// A machine float as a scalar.
#[derive(Clone, Copy, Debug, PartialEq, PartialOrd)]
struct F64(f64);

impl Scalar for F64 {
    fn zero_equals_zero() {}

    fn one_is_not_zero() {}

    fn none_is_absent() {}

    fn of(n: i64) -> Self {
        F64(n as f64)
    }

    fn nan() -> Self {
        F64(f64::NAN)
    }

    fn is_nan(self) -> bool {
        self.0.is_nan()
    }

    fn add(self, other: Self) -> Self {
        F64(self.0 + other.0)
    }

    fn sub(self, other: Self) -> Self {
        F64(self.0 - other.0)
    }

    fn mul(self, other: Self) -> Self {
        F64(self.0 * other.0)
    }

    fn div(self, other: Self) -> Self {
        F64(self.0 / other.0)
    }

    fn neg(self) -> Self {
        F64(-self.0)
    }

    fn abs(self) -> Self {
        F64(self.0.abs())
    }

    fn sqrt(self) -> Self {
        F64(self.0.sqrt())
    }

    fn exp(self) -> Self {
        F64(self.0.exp())
    }

    fn min(self, other: Self) -> Self {
        F64(self.0.min(other.0))
    }

    fn max(self, other: Self) -> Self {
        F64(self.0.max(other.0))
    }

    fn lt(self, other: Self) -> bool {
        self.0 < other.0
    }

    fn same(self, other: Self) -> bool {
        self.0 == other.0
    }

    fn round(self) -> i64 {
        self.0.round() as i64
    }

    fn is_broken(self) -> bool {
        self.0.fract() != 0.0
    }

    fn text(self) -> String {
        format!("{}", self.0)
    }

    fn text_to(self, places: usize) -> String {
        format!("{:.*}", places, self.0)
    }
}

/// One state step of an average, driven the way the node drives it: the two expressions [`wilder`]
/// returns, over the change, the value and how warm it is.
fn warm(sign: f64, state: (f64, f64), delta: f64, n: f64) -> (f64, f64) {
    let v = Vars;
    let half = max(constant(F64(sign)) * v.get::<0>(), constant(F64(0.0)));
    let (value, warmed) = wilder(v.get::<1>(), v.get::<2>(), half, F64(n));
    let env = [F64(delta), F64(state.0), F64(state.1)];
    (value.lower().eval(&env).0, warmed.lower().eval(&env).0)
}

/// The classic worked example of a fourteen-period index.
#[test]
fn rsi14_golden_sequence() {
    let closes = [
        44.3389, 44.0902, 44.1497, 43.6124, 44.3278, 44.8264, 45.0955, 45.4245, 45.8433, 46.0826, 45.8931, 46.0328, 45.6140, 46.2820, 46.2820, 46.0028, 46.0328, 46.4116, 46.2222,
        45.6439, 46.2122, 46.2521, 45.7137, 46.4515, 45.7835, 45.3548, 44.0288, 44.1783, 44.2181, 44.5672, 43.4205, 42.6628, 43.1314,
    ];
    let golden = [
        70.5328, 66.3186, 66.5498, 69.4063, 66.3552, 57.9749, 62.9296, 63.2571, 56.0593, 62.3771, 54.7076, 50.4228, 39.9898, 41.4605, 41.8689, 45.4632, 37.3040, 33.0795, 37.7730,
    ];
    let (mut gain, mut loss) = ((0.0, 0.0), (0.0, 0.0));
    let outs: Vec<Option<f64>> = closes
        .windows(2)
        .map(|w| {
            let delta = w[1] - w[0];
            gain = warm(1.0, gain, delta, 14.0);
            loss = warm(-1.0, loss, delta, 14.0);
            // the node's own value reads cold below its base, so it is the same cut here.
            if gain.1 >= 14.0 {
                Some(rsi(F64(gain.0), F64(loss.0)).0)
            } else {
                None
            }
        })
        .collect();

    assert!(outs[..13].iter().all(Option::is_none), "warm only after period deltas");
    for (got, want) in outs[13..].iter().zip(golden) {
        let got = got.expect("warm from the 14th delta on");
        assert!((got - want).abs() < 5e-4, "{got} vs {want}");
        assert!((0.0..=100.0).contains(&got));
    }
}

#[test]
fn an_index_without_losses_is_a_hundred() {
    assert_eq!(rsi(F64(2.0), F64(0.0)).0, 100.0);
    assert_eq!(rsi(F64(1.0), F64(1.0)).0, 50.0);
}

/// The bars arrive from the test: what is under test is the chain above them, and a root series is the
/// shortest thing that feeds it.
struct Closes;

impl Cell for Closes {
    type Out<'t> = &'t [Bar<F64>];
    type Gates = No;

    fn name() -> String {
        String::from("Closes")
    }

    fn facts() -> Facts {
        Facts::bare()
    }

    fn opens<'t>(_: &'t [Bar<F64>]) -> bool {
        true
    }
}

impl Series for Closes {
    type Item = Bar<F64>;
    type Batch = Rows<Bar<F64>>;
}

/// Short on purpose: the boundary is the base's changes and then the smoothing's values.
struct Tiny;

impl RsiSpec for Tiny {
    fn name() -> String {
        String::from("3/2")
    }

    fn base_len() -> usize {
        3
    }

    fn smooth_len() -> usize {
        2
    }
}

fn bar(i: i64, close: f64) -> Bar<F64> {
    let close = F64(close);
    Bar {
        ts_close: Ts::from_nanos((i + 1) * 60_000_000_000),
        open: close,
        high: close,
        low: close,
        close,
        vol_base: F64(1.0),
    }
}

/// A rising-then-falling walk, so both averages see samples and neither ratio is degenerate.
fn walk(n: usize) -> Vec<Bar<F64>> {
    (0..n).map(|i| bar(i as i64, 100.0 + (i as f64 * 0.7).sin() * 5.0)).collect()
}

/// One bar per tick, and every out concatenated back into the run the chain published.
#[derive(Default)]
struct Runs {
    delta: Vec<Option<f64>>,
    gain: Vec<Option<f64>>,
    loss: Vec<Option<f64>>,
    rsi: Vec<Option<f64>>,
}

fn value(x: &Option<Number<F64>>) -> Option<f64> {
    x.map(|n| n.0 .0)
}

fn drive(bars: &[Bar<F64>]) -> Runs {
    let mut delta: Emitter<RsiDelta<Closes, F64>> = Emitter::new(RsiDelta(PhantomData));
    let mut gain: Emitter<AvgGain<Closes, Tiny, F64>> = Emitter::new(AvgGain::new());
    let mut loss: Emitter<AvgLoss<Closes, Tiny, F64>> = Emitter::new(AvgLoss::new());
    let mut rsi: Emitter<Rsi<Closes, Tiny, F64>> = Emitter::new(Rsi::new());
    let mut hist: Buffer<Closes, Elems<1>> = Buffer { batch: Rows::default(), reach: PhantomData };
    let mut r = Runs::default();
    for b in bars {
        let f = Cons::<Closes, Nil> { out: core::slice::from_ref(b), tail: Nil };
        let f = step(f, &mut hist);
        let f = step_emit(f, &mut delta, true, 0);
        r.delta.extend(f.head().iter().map(value));
        let f = step_emit(f, &mut gain, true, 0);
        r.gain.extend(f.head().iter().map(value));
        let f = step_emit(f, &mut loss, true, 0);
        r.loss.extend(f.head().iter().map(value));
        let f = step_emit(f, &mut rsi, true, 0);
        r.rsi.extend(f.head().iter().map(|v| v.present().map(|x| x.actual.0)));
    }
    r
}

/// The index of the first element carrying a number, and the claim that everything before it carries
/// none: a single `position` would pass on a run that came back absent afterwards.
fn boundary(run: &[Option<f64>]) -> usize {
    let first = run.iter().position(Option::is_some).unwrap_or_else(|| panic!("never warmed over {} elements", run.len()));
    assert!(run[..first].iter().all(Option::is_none), "absence is a prefix, not a scatter: {run:?}");
    assert!(run[first..].iter().all(Option::is_some), "warm is forever: {run:?}");
    assert!(run[first..].iter().flatten().all(|v| v.is_finite()), "a warm element is a number: {run:?}");
    first
}

/// Rate-preserving throughout: every stage publishes one element per bar, cold ones included. That is
/// what makes "absent for exactly the cold elements" a statement about *which* elements rather than
/// about how many there are.
#[test]
fn every_stage_publishes_one_element_per_bar() {
    let bars = walk(12);
    let r = drive(&bars);
    assert_eq!((r.delta.len(), r.gain.len(), r.loss.len(), r.rsi.len()), (12, 12, 12, 12));
}

/// A change needs two closes, so the first bar of the run carries nothing and every bar after it
/// carries a number.
#[test]
fn a_delta_is_absent_only_for_the_bar_that_has_nothing_behind_it() {
    assert_eq!(boundary(&drive(&walk(12)).delta), 1);
}

/// `base_len` deltas warm a Wilder average, and the first bar contributed none: so the first three
/// deltas land on bars 1..=3 and bar 3 is the one that has a value.
#[test]
fn a_wilder_average_is_absent_for_exactly_its_cold_bars() {
    let r = drive(&walk(12));
    assert_eq!(boundary(&r.gain), Tiny::base_len());
    assert_eq!(boundary(&r.loss), Tiny::base_len());
}

/// The smoothing leg sees its first value where the averages warm, and needs `smooth_len` of them. Both slots
/// of the item are one reading: while the smoothing leg is cold the whole element is absent, even
/// though `actual` is already a number the body computed.
#[test]
fn a_half_warm_rsi_is_wholly_absent() {
    let r = drive(&walk(12));
    assert_eq!(boundary(&r.rsi), Tiny::base_len() + Tiny::smooth_len() - 1);
    assert!(r.rsi[..Tiny::base_len() + Tiny::smooth_len() - 1].iter().all(Option::is_none));
}
