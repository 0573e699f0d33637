//! The engine's own cells in an observed sweep: a retention, a level and a contact are stepped like
//! any node, so what is observed is the whole of the topology.

use core::marker::PhantomData;

use trading_data::bar::{Bar, Bars};
use trading_data::cell::{Cell, Cons, Facts, Nil, No};
use trading_data::horizon::Elems;
use trading_data::latch::{Armed, Episodic, Latch};
use trading_data::observe::{Fire, Observer, Sweep};
use trading_data::rows::Rows;
use trading_data::scalar::Scalar;
use trading_data::series::{Buffer, Latest};
use trading_data::shape::Fidelity;
use trading_data::sweep::{observe_root, step_obs};
use trading_data::ts::Ts;
use trading_data::want::Want;

/// A machine float as a scalar.
#[derive(Clone, Copy, Debug, PartialEq, PartialOrd)]
struct F64(f64);

impl Scalar for F64 {
    fn zero_equals_zero() {}

    fn one_is_not_zero() {}

    fn none_is_absent() {}

    fn of(n: i64) -> Self {
        F64(n as f64)
    }

    fn nan() -> Self {
        F64(f64::NAN)
    }

    fn is_nan(self) -> bool {
        self.0.is_nan()
    }

    fn add(self, other: Self) -> Self {
        F64(self.0 + other.0)
    }

    fn sub(self, other: Self) -> Self {
        F64(self.0 - other.0)
    }

    fn mul(self, other: Self) -> Self {
        F64(self.0 * other.0)
    }

    fn div(self, other: Self) -> Self {
        F64(self.0 / other.0)
    }

    fn neg(self) -> Self {
        F64(-self.0)
    }

    fn abs(self) -> Self {
        F64(self.0.abs())
    }

    fn sqrt(self) -> Self {
        F64(self.0.sqrt())
    }

    fn exp(self) -> Self {
        F64(self.0.exp())
    }

    fn min(self, other: Self) -> Self {
        F64(self.0.min(other.0))
    }

    fn max(self, other: Self) -> Self {
        F64(self.0.max(other.0))
    }

    fn lt(self, other: Self) -> bool {
        self.0 < other.0
    }

    fn same(self, other: Self) -> bool {
        self.0 == other.0
    }

    fn round(self) -> i64 {
        self.0.round() as i64
    }

    fn is_broken(self) -> bool {
        self.0.fract() != 0.0
    }

    fn text(self) -> String {
        format!("{}", self.0)
    }

    fn text_to(self, places: usize) -> String {
        format!("{:.*}", places, self.0)
    }
}

/// What one fire said.
#[derive(Clone, Debug)]
struct Said {
    node: String,
    vals: Option<Vec<f64>>,
    jac: Option<Vec<f64>>,
    block: Option<(Vec<f64>, Vec<usize>)>,
    exact: bool,
    fidelity: Fidelity,
    fires: usize,
}

struct Rec(Want, Vec<Said>);

impl Observer<F64> for Rec {
    fn want(&self, _: &str) -> Want {
        self.0
    }

    fn on(&mut self, node: &str, _: &[String], _: &[bool], fire: Fire<'_, F64>) {
        let read = |v: &[F64]| v.iter().map(|x| x.0).collect::<Vec<f64>>();
        self.1.push(Said {
            node: String::from(node),
            vals: fire.vals.map(read),
            jac: fire.jac.map(read),
            block: fire.exact_block.map(|(b, w)| (read(b), w.to_vec())),
            exact: fire.exact,
            fidelity: fire.fidelity,
            fires: fire.fires,
        });
    }
}

type Minutes = Bars<60_000, F64>;
type Hist = Buffer<Minutes, Elems<2>>;

fn bar(i: i64, close: f64) -> Bar<F64> {
    let close = F64(close);
    Bar {
        ts_close: Ts::from_nanos((i + 1) * 60_000_000_000),
        open: close,
        high: close,
        low: close,
        close,
        vol_base: F64(1.0),
    }
}

fn hist() -> Hist {
    Buffer { batch: Rows::default(), reach: PhantomData }
}

/// An episode a bar arms.
struct Run;

impl Cell for Run {
    type Out<'t> = Option<bool>;
    type Gates = No;

    fn name() -> String {
        String::from("Run")
    }

    fn facts() -> Facts {
        Facts::bare()
    }

    fn opens<'t>(_: Option<bool>) -> bool {
        true
    }
}

impl Episodic for Run {
    type Trigger = Minutes;

    fn arms<'t>(bars: &'t [Bar<F64>]) -> bool {
        bars.iter().any(|b| b.close.0 > 100.0)
    }
}

fn near(jac: &[f64], want: &[f64]) {
    assert_eq!(jac.len(), want.len());
    for (a, b) in jac.iter().zip(want) {
        assert!((a - b).abs() < 1e-6, "{jac:?} against {want:?}");
    }
}

fn identity() -> Vec<f64> {
    (0..25).map(|i| if i % 6 == 0 { 1.0 } else { 0.0 }).collect()
}

/// One tick of bars through the three of them.
fn tick(
    bars: &[Bar<F64>],
    hist: &mut Hist,
    level: &mut Latest<Minutes>,
    armed: &mut Armed<Run>,
    sweep: &mut Sweep<F64>,
    rec: &mut Rec,
) -> (usize, Option<f64>, bool) {
    let f = Cons::<Minutes, Nil> { out: bars, tail: Nil };
    observe_root::<F64, Minutes, _>(f.head(), sweep, rec);
    let f = step_obs(f, hist, sweep, rec);
    let kept = f.head().all.len();
    let f = step_obs(f, level, sweep, rec);
    let held = f.head().map(|b| b.close.0);
    let f = step_obs(f, armed, sweep, rec);
    (kept, held, f.head())
}

#[test]
fn the_engine_s_cells_are_observed_in_order() {
    let (mut rec, mut sweep) = (Rec(Want::Exact, Vec::new()), Sweep::new());
    let (mut kept, mut level, mut armed) = (hist(), Latest { held: None }, Armed::<Run>::default());
    let outs = tick(&[bar(0, 90.0), bar(1, 99.0)], &mut kept, &mut level, &mut armed, &mut sweep, &mut rec);
    assert_eq!(outs, (2, Some(99.0), false));
    let names: Vec<&str> = rec.1.iter().map(|s| s.node.as_str()).collect();
    assert_eq!(names, ["Bar:1m", "Buffer<Bar:1m, Elems(2)>", "Latest<Bar:1m>", "Armed<Run>"]);

    // a retention adds no signal: its fire is the batch's own.
    assert_eq!(rec.1[1].vals.as_deref(), Some(&[99.0, 99.0, 99.0, 99.0, 1.0][..]));
    assert_eq!(rec.1[1].fires, 2);
    near(rec.1[1].jac.as_ref().expect("it fired"), &identity());
    assert_eq!(rec.1[2].vals, rec.1[1].vals);
    near(rec.1[2].jac.as_ref().expect("it fired"), &identity());
    assert_eq!(rec.1[3].vals.as_deref(), Some(&[0.0][..]));
    near(rec.1[3].jac.as_ref().expect("it fired"), &[0.0; 5]);
    for said in &rec.1[1..] {
        assert!(!said.exact && said.block.is_none(), "a difference, not a derivative");
        assert!(matches!(said.fidelity, Fidelity::Opaque(_)));
    }
}

/// A silent tick: the retention fires nothing, and the level and the contact stand.
#[test]
fn a_level_and_a_contact_stand_through_a_silence() {
    let (mut rec, mut sweep) = (Rec(Want::Jac, Vec::new()), Sweep::new());
    let (mut kept, mut level, mut armed) = (hist(), Latest { held: None }, Armed::<Run>::default());
    tick(&[bar(0, 101.0)], &mut kept, &mut level, &mut armed, &mut sweep, &mut rec);
    rec.1.clear();
    let outs = tick(&[], &mut kept, &mut level, &mut armed, &mut sweep, &mut rec);
    assert_eq!(outs, (1, Some(101.0), true));
    assert_eq!((rec.1[1].fires, rec.1[1].vals.is_none(), rec.1[1].jac.is_none()), (0, true, true));
    assert_eq!(rec.1[2].vals.as_deref(), Some(&[101.0, 101.0, 101.0, 101.0, 1.0][..]));
    // the dep carried nothing, so there is no column to difference.
    assert!(rec.1[2].jac.as_ref().expect("it fired").iter().all(|x| x.is_nan() || *x == 0.0));
    assert_eq!(rec.1[3].vals.as_deref(), Some(&[1.0][..]));
    armed.commutate();
    assert!(!armed.standing());
}

/// Whether anybody looks, and how deep, changes nothing of what is kept.
#[test]
fn an_observed_engine_keeps_what_a_bare_one_does() {
    let runs: [&[Bar<F64>]; 3] = [&[bar(0, 90.0), bar(1, 99.0)], &[], &[bar(2, 120.0)]];
    let mut said = Vec::new();
    for want in [Want::Nothing, Want::Vals, Want::Jac, Want::Exact] {
        let (mut rec, mut sweep) = (Rec(want, Vec::new()), Sweep::new());
        let (mut kept, mut level, mut armed) = (hist(), Latest { held: None }, Armed::<Run>::default());
        let outs: Vec<(usize, Option<f64>, bool)> = runs
            .iter()
            .map(|r| tick(r, &mut kept, &mut level, &mut armed, &mut sweep, &mut rec))
            .collect();
        said.push(outs);
    }
    assert_eq!(said[0], [(2, Some(99.0), false), (2, Some(99.0), false), (3, Some(120.0), true)]);
    assert!(said.iter().all(|s| *s == said[0]));
}
