//! What a body may be read over: a verdict over a dep that carried nothing has no intermediate values
//! to show, where a body defined over an absence has.

use trading_data::algebra::{constant, gt, or, Ex, Vars};
use trading_data::cell::{Cell, Cons, Facts, Nil, No};
use trading_data::expr::{Cmp, Const, Or, Var};
use trading_data::flat::Number;
use trading_data::level::{Decides, Differentiated, Predicate, Pure, Symbolic, Verdict};
use trading_data::node::Node;
use trading_data::observe::{Fire, Observer, Sweep};
use trading_data::plot::Plot;
use trading_data::scalar::Scalar;
use trading_data::shape::Fidelity;
use trading_data::sweep::{step_obs, Observed};
use trading_data::want::Want;

/// A machine float as a scalar.
#[derive(Clone, Copy, Debug, PartialEq, PartialOrd)]
struct F64(f64);

impl Scalar for F64 {
    fn zero_equals_zero() {}

    fn one_is_not_zero() {}

    fn none_is_absent() {}

    fn of(n: i64) -> Self {
        F64(n as f64)
    }

    fn nan() -> Self {
        F64(f64::NAN)
    }

    fn is_nan(self) -> bool {
        self.0.is_nan()
    }

    fn add(self, other: Self) -> Self {
        F64(self.0 + other.0)
    }

    fn sub(self, other: Self) -> Self {
        F64(self.0 - other.0)
    }

    fn mul(self, other: Self) -> Self {
        F64(self.0 * other.0)
    }

    fn div(self, other: Self) -> Self {
        F64(self.0 / other.0)
    }

    fn neg(self) -> Self {
        F64(-self.0)
    }

    fn abs(self) -> Self {
        F64(self.0.abs())
    }

    fn sqrt(self) -> Self {
        F64(self.0.sqrt())
    }

    fn exp(self) -> Self {
        F64(self.0.exp())
    }

    fn min(self, other: Self) -> Self {
        F64(self.0.min(other.0))
    }

    fn max(self, other: Self) -> Self {
        F64(self.0.max(other.0))
    }

    fn lt(self, other: Self) -> bool {
        self.0 < other.0
    }

    fn same(self, other: Self) -> bool {
        self.0 == other.0
    }

    fn round(self) -> i64 {
        self.0.round() as i64
    }

    fn is_broken(self) -> bool {
        self.0.fract() != 0.0
    }

    fn text(self) -> String {
        format!("{}", self.0)
    }

    fn text_to(self, places: usize) -> String {
        format!("{:.*}", places, self.0)
    }
}

struct Momentum;

impl Cell for Momentum {
    type Out<'t> = Option<Number<F64>>;
    type Gates = No;

    fn name() -> String {
        String::from("Momentum")
    }

    fn facts() -> Facts {
        Facts::bare()
    }

    fn opens<'t>(_: Option<Number<F64>>) -> bool {
        true
    }
}

struct Screen;

impl Cell for Screen {
    type Out<'t> = bool;
    type Gates = No;

    fn name() -> String {
        String::from("Screen")
    }

    fn facts() -> Facts {
        Facts::bare()
    }

    fn opens<'t>(_: bool) -> bool {
        true
    }
}

impl Decides<F64> for Screen {
    type Deps = (Momentum, ());
    type Body = Ex<Cmp<Const<F64>, Var<0>>>;

    fn body(&self) -> Self::Body {
        gt(Vars.get::<0>(), constant(F64(1.0)))
    }
}

impl Node for Screen {
    type Deps = (Momentum, ());

    fn advance<'t>(&'t mut self, deps: (Option<Number<F64>>, ())) -> bool {
        Predicate::advance(self, &deps)
    }
}

impl Observed<F64> for Screen {
    type Pre = Verdict<F64>;

    fn fidelity() -> Fidelity {
        Fidelity::Exact
    }

    fn plots() -> &'static [Plot] {
        &[]
    }

    fn pre<'t>(&self, want: Want, _: &(Option<Number<F64>>, ())) -> Verdict<F64> {
        Predicate::pre(self, want)
    }
}

struct Readings(Vec<(bool, bool, bool)>);

impl Observer<F64> for Readings {
    fn want(&self, _: &str) -> Want {
        Want::Jac
    }

    fn on(&mut self, _: &str, _: &[String], _: &[bool], fire: Fire<'_, F64>) {
        self.0.push((fire.glance == "true", fire.formula.is_some(), fire.trace.is_some()));
    }
}

#[test]
fn a_verdict_over_an_absent_dep_is_not_traced() {
    let (mut seen, mut sweep, mut screen) = (Readings(Vec::new()), Sweep::new(), Screen);
    for m in [None, Some(2.0), Some(0.5)] {
        let f = Cons::<Momentum, Nil> { out: m.map(|x| Number(F64(x))), tail: Nil };
        step_obs(f, &mut screen, &mut sweep, &mut seen);
    }
    assert_eq!(seen.0, [(false, true, false), (true, true, true), (false, true, true)]);
}

/// The momentum where there is one, and one where there is none.
struct Steadied;

impl Cell for Steadied {
    type Out<'t> = Number<F64>;
    type Gates = No;

    fn name() -> String {
        String::from("Steadied")
    }

    fn facts() -> Facts {
        Facts::bare()
    }

    fn opens<'t>(_: Number<F64>) -> bool {
        true
    }
}

impl Symbolic<F64> for Steadied {
    type Deps = (Momentum, ());
    type Body = Ex<Or<Var<0>, Const<F64>>>;

    fn body(&self) -> Self::Body {
        or(Vars.get::<0>(), constant(F64(1.0)))
    }
}

impl Node for Steadied {
    type Deps = (Momentum, ());

    fn advance<'t>(&'t mut self, deps: (Option<Number<F64>>, ())) -> Number<F64> {
        Pure::advance(self, &deps)
    }
}

impl Observed<F64> for Steadied {
    type Pre = Differentiated<F64>;

    fn fidelity() -> Fidelity {
        Pure::fidelity()
    }

    fn plots() -> &'static [Plot] {
        &[]
    }

    fn pre<'t>(&self, want: Want, deps: &(Option<Number<F64>>, ())) -> Differentiated<F64> {
        Pure::pre(self, want, deps)
    }
}

/// The shape of each fire and its deps, and the trace.
struct Traces(Vec<(Vec<usize>, Vec<Vec<usize>>, Option<String>)>);

impl Observer<F64> for Traces {
    fn want(&self, _: &str) -> Want {
        Want::Jac
    }

    fn on(&mut self, _: &str, _: &[String], _: &[bool], fire: Fire<'_, F64>) {
        self.0.push((fire.dims.to_vec(), fire.dep_dims.to_vec(), fire.trace.map(String::from)));
    }
}

#[test]
fn a_body_defined_over_an_absence_is_traced_over_one() {
    let (mut seen, mut sweep, mut node) = (Traces(Vec::new()), Sweep::new(), Steadied);
    for m in [None, Some(2.0)] {
        let f = Cons::<Momentum, Nil> { out: m.map(|x| Number(F64(x))), tail: Nil };
        let f = step_obs(f, &mut node, &mut sweep, &mut seen);
        assert_eq!(f.head().0, F64(m.unwrap_or(1.0)));
    }
    for (dims, dep_dims, trace) in &seen.0 {
        assert_eq!(dims, &Vec::<usize>::new(), "a scalar has no axis");
        assert_eq!(dep_dims, &vec![Vec::<usize>::new()], "one scalar dep");
        assert!(trace.is_some());
    }
}
