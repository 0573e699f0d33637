//! A body that multiplies by an attribute, read as deep as a reading goes. The attribute picks which
//! way a notional points and owns no column; the element's own slots own theirs, and the block has to
//! say so for a sell exactly as it does for a buy.

use trading_data::algebra::{Ex, Vars};
use trading_data::cell::{Cell, Cons, Facts, Folding, Nil, No};
use trading_data::emit::{step_emit, Emit, Emitter};
use trading_data::env::{Env, Witness};
use trading_data::expr::{self, Var};
use trading_data::flat::{Flat, Number};
use trading_data::fold::{Carried, Fold, Folds};
use trading_data::glance::Glance;
use trading_data::horizon::Unbounded;
use trading_data::kernel::Reads;
use trading_data::level::Pointwise;
use trading_data::observe::{Fire, Observer, Sweep};
use trading_data::plot::Plot;
use trading_data::rows::Rows;
use trading_data::scalar::Scalar;
use trading_data::series::Series;
use trading_data::shape::Fidelity;
use trading_data::stamped::Stamped;
use trading_data::sweep::{step_emit_obs, ObservedRun};
use trading_data::want::Want;

/// A machine float as a scalar.
#[derive(Clone, Copy, Debug, PartialEq, PartialOrd)]
struct F64(f64);

impl Scalar for F64 {
    fn zero_equals_zero() {}

    fn one_is_not_zero() {}

    fn none_is_absent() {}

    fn of(n: i64) -> Self {
        F64(n as f64)
    }

    fn nan() -> Self {
        F64(f64::NAN)
    }

    fn is_nan(self) -> bool {
        self.0.is_nan()
    }

    fn add(self, other: Self) -> Self {
        F64(self.0 + other.0)
    }

    fn sub(self, other: Self) -> Self {
        F64(self.0 - other.0)
    }

    fn mul(self, other: Self) -> Self {
        F64(self.0 * other.0)
    }

    fn div(self, other: Self) -> Self {
        F64(self.0 / other.0)
    }

    fn neg(self) -> Self {
        F64(-self.0)
    }

    fn abs(self) -> Self {
        F64(self.0.abs())
    }

    fn sqrt(self) -> Self {
        F64(self.0.sqrt())
    }

    fn exp(self) -> Self {
        F64(self.0.exp())
    }

    fn min(self, other: Self) -> Self {
        F64(self.0.min(other.0))
    }

    fn max(self, other: Self) -> Self {
        F64(self.0.max(other.0))
    }

    fn lt(self, other: Self) -> bool {
        self.0 < other.0
    }

    fn same(self, other: Self) -> bool {
        self.0 == other.0
    }

    fn round(self) -> i64 {
        self.0.round() as i64
    }

    fn is_broken(self) -> bool {
        self.0.fract() != 0.0
    }

    fn text(self) -> String {
        format!("{}", self.0)
    }

    fn text_to(self, places: usize) -> String {
        format!("{:.*}", places, self.0)
    }
}

/// `sell` is carried rather than flattened: it is no column's.
#[derive(Clone, Copy, Debug, PartialEq)]
struct Fill {
    at: i64,
    price: f64,
    qty: f64,
    sell: bool,
}

fn fill(at: i64, price: f64, qty: f64, sell: bool) -> Fill {
    Fill { at, price, qty, sell }
}

impl Stamped for Fill {
    fn ts_ns(&self) -> i64 {
        self.at
    }
}

impl Flat<F64> for Fill {
    fn fills(&self) {}

    fn shaped() {}

    fn dims() -> Vec<usize> {
        vec![2]
    }

    fn len() -> usize {
        2
    }

    fn flat(&self, out: &mut [F64]) -> bool {
        out[0] = F64(self.price);
        out[1] = F64(self.qty);
        true
    }

    fn fires(&self) -> usize {
        1
    }
}

impl Glance for Fill {
    fn glance(&self) -> String {
        format!("{}@{}", self.qty, self.price)
    }
}

struct Fills;

impl Cell for Fills {
    type Out<'t> = &'t [Fill];
    type Gates = No;

    fn name() -> String {
        String::from("Fills")
    }

    fn facts() -> Facts {
        Facts::bare()
    }

    fn opens<'t>(_: &'t [Fill]) -> bool {
        true
    }
}

impl Series for Fills {
    type Item = Fill;
    type Batch = Rows<Fill>;
}

/// Running signed notional: the shape a run carrying both sides is read in.
struct Cvd(Carried<F64>);

impl Cell for Cvd {
    type Out<'t> = &'t [Number<F64>];
    type Gates = No;

    fn name() -> String {
        String::from("Cvd")
    }

    fn facts() -> Facts {
        Facts::bare()
    }

    fn opens<'t>(_: &'t [Number<F64>]) -> bool {
        true
    }
}

impl Series for Cvd {
    type Item = Number<F64>;
    type Batch = Rows<Number<F64>>;
}

impl<'d> Reads<F64, (&'d [Fill], ())> for Cvd {
    fn lead_fires(deps: &(&'d [Fill], ())) -> usize {
        deps.0.len()
    }

    fn read<W: Witness>(deps: &(&'d [Fill], ()), i: usize, env: &mut Env<F64, W>) -> Option<i64> {
        let f = deps.0[i];
        env.dep(0).lag(deps.0.len() - 1 - i).put(&f);
        env.opaque().put(&Number(F64(if f.sell { -1.0 } else { 1.0 })));
        Some(f.at)
    }
}

impl<'d> Folds<F64, (&'d [Fill], ())> for Cvd {
    type Item = Number<F64>;
    type Step = Ex<expr::Add<Var<3>, expr::Mul<Var<2>, expr::Mul<Var<0>, Var<1>>>>>;
    type Value = Ex<Var<3>>;

    fn dep_slots() -> usize {
        2
    }

    fn step(&self) -> Self::Step {
        let (price, qty, side, sum) =
            (Vars.get::<0>(), Vars.get::<1>(), Vars.get::<2>(), Vars.get::<3>());
        sum + side * (price * qty)
    }

    fn value(&self) -> Self::Value {
        Vars.get::<3>()
    }

    fn carried(&self) -> &Carried<F64> {
        &self.0
    }

    fn carried_mut(&mut self) -> &mut Carried<F64> {
        &mut self.0
    }
}

impl Emit for Cvd {
    type Deps = (Folding<Fills, Unbounded>, ());

    fn emit<'t>(&mut self, deps: (&'t [Fill], ()), out: &mut Vec<Number<F64>>) {
        Fold::emit(self, &deps, out);
    }
}

impl ObservedRun<F64> for Cvd {
    type Pre = Pointwise<F64>;

    fn fidelity() -> Fidelity {
        Fidelity::Exact
    }

    fn plots() -> &'static [Plot] {
        &[]
    }

    fn pre<'t>(&self, want: Want, deps: &(&'t [Fill], ())) -> Pointwise<F64> {
        Pointwise(Fold::pre(self, want, deps))
    }
}

/// What the block says about the last element of a run.
struct Rec {
    block: Option<(Vec<f64>, Vec<usize>)>,
}

impl Observer<F64> for Rec {
    fn want(&self, _: &str) -> Want {
        Want::Exact
    }

    fn on(&mut self, node: &str, _: &[String], _: &[bool], fire: Fire<'_, F64>) {
        if node == "Cvd" {
            self.block = fire.exact_block.map(|(b, w)| (b.iter().map(|x| x.0).collect(), w.to_vec()));
        }
    }
}

/// The warm-up every leg shares: one buy, so the state the reading is differentiated against is not
/// the zero a fresh fold would hand it.
fn warm() -> Emitter<Cvd> {
    let mut g = Emitter::new(Cvd(Carried::new(1)));
    let fills = [fill(0, 100.0, 3.0, false)];
    let f = Cons::<Fills, Nil> { out: &fills, tail: Nil };
    step_emit(f, &mut g, true, 0);
    g
}

fn last_out(then: &[Fill]) -> f64 {
    let mut g = warm();
    let f = Cons::<Fills, Nil> { out: then, tail: Nil };
    let f = step_emit(f, &mut g, true, 0);
    f.head().last().expect("one element per fill").0 .0
}

/// The block's `(price, qty)` columns for the last element of `then`, against the difference the
/// same perturbation actually makes.
fn columns_against_difference(then: &[Fill]) {
    let mut g = warm();
    let mut rec = Rec { block: None };
    let f = Cons::<Fills, Nil> { out: then, tail: Nil };
    step_emit_obs(f, &mut g, true, 0, &mut Sweep::new(), &mut rec);
    let (block, widths) = rec.block.expect("a fold that fired answers over its deps' own reach");
    assert_eq!(widths, vec![2], "one lag of one two-slot dep: the attribute owns no column");

    let h = 1e-4;
    let bump = |f: &dyn Fn(&mut Fill)| {
        let mut moved = then.to_vec();
        f(moved.last_mut().expect("a run to differentiate against"));
        (last_out(&moved) - last_out(then)) / h
    };
    for (slot, name, fd) in
        [(0, "price", bump(&|f| f.price += h)), (1, "qty", bump(&|f| f.qty += h))]
    {
        assert!(
            (block[slot] - fd).abs() < 1e-6 * fd.abs().max(1.0),
            "the {name} column reads {} where moving {name} moves the out by {fd} per unit",
            block[slot]
        );
    }
}

/// A buy: the side the value plane agrees with whichever way the reading was attributed.
#[test]
fn a_buy_s_columns_are_the_difference_it_makes() {
    columns_against_difference(&[fill(1, 101.0, 2.0, false)]);
}

/// The same run ending in a sell. The attribute flipped, the element's own slots did not, and a
/// column that had followed the sign into the element would come out negated here.
#[test]
fn a_sell_s_columns_are_the_difference_it_makes() {
    columns_against_difference(&[fill(1, 101.0, 2.0, true)]);
}

/// Both sides in one run, so the element the block describes is reached through a state the other
/// side moved.
#[test]
fn a_run_carrying_both_sides_is_read_at_its_last_element() {
    columns_against_difference(&[fill(1, 101.0, 2.0, false), fill(2, 99.0, 5.0, true)]);
    columns_against_difference(&[fill(1, 101.0, 2.0, true), fill(2, 99.0, 5.0, false)]);
}
