//! A level output reports whether this tick moved its flattening: absence transitions included,
//! republished values excluded. A run output stays the bare slice it always was.

use trading_data::cell::{Cell, Cons, Facts, Nil, No};
use trading_data::emit::{step_emit, Emit, Emitter};
use trading_data::flat::Number;
use trading_data::moved::{Moved, Standing};
use trading_data::node::{step, Node};
use trading_data::rows::Rows;
use trading_data::scalar::Scalar;
use trading_data::series::Series;

/// A machine float as a scalar.
#[derive(Clone, Copy, Debug, PartialEq, PartialOrd)]
struct F64(f64);

impl Scalar for F64 {
    fn zero_equals_zero() {}

    fn one_is_not_zero() {}

    fn none_is_absent() {}

    fn of(n: i64) -> Self {
        F64(n as f64)
    }

    fn nan() -> Self {
        F64(f64::NAN)
    }

    fn is_nan(self) -> bool {
        self.0.is_nan()
    }

    fn add(self, other: Self) -> Self {
        F64(self.0 + other.0)
    }

    fn sub(self, other: Self) -> Self {
        F64(self.0 - other.0)
    }

    fn mul(self, other: Self) -> Self {
        F64(self.0 * other.0)
    }

    fn div(self, other: Self) -> Self {
        F64(self.0 / other.0)
    }

    fn neg(self) -> Self {
        F64(-self.0)
    }

    fn abs(self) -> Self {
        F64(self.0.abs())
    }

    fn sqrt(self) -> Self {
        F64(self.0.sqrt())
    }

    fn exp(self) -> Self {
        F64(self.0.exp())
    }

    fn min(self, other: Self) -> Self {
        F64(self.0.min(other.0))
    }

    fn max(self, other: Self) -> Self {
        F64(self.0.max(other.0))
    }

    fn lt(self, other: Self) -> bool {
        self.0 < other.0
    }

    fn same(self, other: Self) -> bool {
        self.0 == other.0
    }

    fn round(self) -> i64 {
        self.0.round() as i64
    }

    fn is_broken(self) -> bool {
        self.0.fract() != 0.0
    }

    fn text(self) -> String {
        format!("{}", self.0)
    }

    fn text_to(self, places: usize) -> String {
        format!("{:.*}", places, self.0)
    }
}

struct Src;

impl Cell for Src {
    type Out<'t> = &'t [f64];
    type Gates = No;

    fn name() -> String {
        String::from("Src")
    }

    fn facts() -> Facts {
        Facts::bare()
    }

    fn opens<'t>(_: &'t [f64]) -> bool {
        true
    }
}

/// Quantizes the last element to its floor, holds through empty batches, and declines on a negative.
#[derive(Default)]
struct Quant {
    last: Option<f64>,
}

impl Cell for Quant {
    type Out<'t> = Option<Number<F64>>;
    type Gates = No;

    fn name() -> String {
        String::from("Quant")
    }

    fn facts() -> Facts {
        Facts::bare()
    }

    fn opens<'t>(_: Option<Number<F64>>) -> bool {
        true
    }
}

impl Node for Quant {
    type Deps = (Src, ());

    fn advance<'t>(&'t mut self, deps: (&'t [f64], ())) -> Option<Number<F64>> {
        if let Some(x) = deps.0.last() {
            self.last = (*x >= 0.0).then(|| x.floor());
        }
        self.last.map(|x| Number(F64(x)))
    }
}

struct Echo;

impl Cell for Echo {
    type Out<'t> = &'t [f64];
    type Gates = No;

    fn name() -> String {
        String::from("Echo")
    }

    fn facts() -> Facts {
        Facts::bare()
    }

    fn opens<'t>(_: &'t [f64]) -> bool {
        true
    }
}

impl Series for Echo {
    type Item = f64;
    type Batch = Rows<f64>;
}

impl Emit for Echo {
    type Deps = (Src, ());

    fn emit<'t>(&mut self, deps: (&'t [f64], ()), out: &mut Vec<f64>) {
        out.extend(deps.0);
    }
}

struct G {
    quant: Quant,
    echo: Emitter<Echo>,
    standing: Standing<F64>,
}

impl G {
    fn new() -> Self {
        G {
            quant: Quant::default(),
            echo: Emitter::new(Echo),
            standing: Standing::none::<Option<Number<F64>>>(),
        }
    }

    fn tick(&mut self, src: &[f64]) -> (Moved<Option<Number<F64>>>, Vec<f64>) {
        let f = Cons::<Src, Nil> { out: src, tail: Nil };
        let f = step(f, &mut self.quant);
        let level = f.head();
        let f = step_emit(f, &mut self.echo, true, 0);
        (self.standing.read(level), f.head().to_vec())
    }
}

fn value(x: Option<Number<F64>>) -> Option<f64> {
    x.map(|n| n.0 .0)
}

/// One batch per tick in, the level output's `(out, moved)` reading per tick back.
fn check(ticks: &[&[f64]], want: &[(Option<f64>, bool)]) {
    let mut g = G::new();
    let got: Vec<(Option<f64>, bool)> = ticks
        .iter()
        .map(|batch| {
            let (level, echoed) = g.tick(batch);
            assert_eq!(echoed, *batch);
            (value(level.out), level.moved)
        })
        .collect();
    assert_eq!(got, want, "per tick: (standing out, moved)");
}

#[test]
fn moved_is_the_value_edge() {
    check(
        &[
            &[],     // nothing ever stood
            &[1.2],  // first value
            &[1.7],  // republished quantum: the node ran, the value did not move
            &[2.3],  // moved
            &[],     // held through a quiet tick
            &[-5.0], // went absent, a move `fired` would not report
            &[-6.0], // still absent
            &[2.0],  // and back
        ],
        &[
            (None, false),
            (Some(1.0), true),
            (Some(1.0), false),
            (Some(2.0), true),
            (Some(2.0), false),
            (None, true),
            (None, false),
            (Some(2.0), true),
        ],
    );
}

#[test]
fn moved_rides_the_out() {
    let mut g = G::new();
    let (level, _) = g.tick(&[3.9]);
    // the deref reading: the out plus one bit, not a second shape to destructure
    assert_eq!((value(*level), level.moved), (Some(3.0), true));
}
