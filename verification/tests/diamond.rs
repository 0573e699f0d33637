//! A diamond over two multi-rate roots: absence propagating through the graph, the finite difference of
//! nodes that compute in code, and a deep chain under one wide node.

use trading_data::cell::{Cell, Cons, Facts, Nil, No};
use trading_data::flat::Number;
use trading_data::level::Refired;
use trading_data::node::{step, Node};
use trading_data::nudge::{refire, stage_value, Blind, Nudge, Restep};
use trading_data::observe::{Fire, Observer, Sweep};
use trading_data::plot::Plot;
use trading_data::scalar::Scalar;
use trading_data::shape::Fidelity;
use trading_data::sweep::{step_obs, Observed};
use trading_data::want::Want;

/// A machine float as a scalar.
#[derive(Clone, Copy, Debug, PartialEq, PartialOrd)]
struct F64(f64);

impl Scalar for F64 {
    fn zero_equals_zero() {}

    fn one_is_not_zero() {}

    fn none_is_absent() {}

    fn of(n: i64) -> Self {
        F64(n as f64)
    }

    fn nan() -> Self {
        F64(f64::NAN)
    }

    fn is_nan(self) -> bool {
        self.0.is_nan()
    }

    fn add(self, other: Self) -> Self {
        F64(self.0 + other.0)
    }

    fn sub(self, other: Self) -> Self {
        F64(self.0 - other.0)
    }

    fn mul(self, other: Self) -> Self {
        F64(self.0 * other.0)
    }

    fn div(self, other: Self) -> Self {
        F64(self.0 / other.0)
    }

    fn neg(self) -> Self {
        F64(-self.0)
    }

    fn abs(self) -> Self {
        F64(self.0.abs())
    }

    fn sqrt(self) -> Self {
        F64(self.0.sqrt())
    }

    fn exp(self) -> Self {
        F64(self.0.exp())
    }

    fn min(self, other: Self) -> Self {
        F64(self.0.min(other.0))
    }

    fn max(self, other: Self) -> Self {
        F64(self.0.max(other.0))
    }

    fn lt(self, other: Self) -> bool {
        self.0 < other.0
    }

    fn same(self, other: Self) -> bool {
        self.0 == other.0
    }

    fn round(self) -> i64 {
        self.0.round() as i64
    }

    fn is_broken(self) -> bool {
        self.0.fract() != 0.0
    }

    fn text(self) -> String {
        format!("{}", self.0)
    }

    fn text_to(self, places: usize) -> String {
        format!("{:.*}", places, self.0)
    }
}

fn n(x: f64) -> Number<F64> {
    Number(F64(x))
}

struct Trades;

impl Cell for Trades {
    type Out<'t> = Option<Number<F64>>;
    type Gates = No;

    fn name() -> String {
        String::from("Trades")
    }

    fn facts() -> Facts {
        Facts::bare()
    }

    fn opens<'t>(_: Option<Number<F64>>) -> bool {
        true
    }
}

impl Nudge<F64> for Trades {
    type Scratch = Option<Option<Number<F64>>>;

    fn fresh() -> Option<Option<Number<F64>>> {
        None
    }

    fn stage<'t>(out: Option<Number<F64>>, scratch: &mut Option<Option<Number<F64>>>, bump: Option<usize>, h: F64) -> F64 {
        stage_value(out, scratch, bump, h)
    }

    fn view<'l>(scratch: &'l Option<Option<Number<F64>>>) -> Option<Number<F64>> {
        scratch.expect("something was staged")
    }
}

struct Quotes;

impl Cell for Quotes {
    type Out<'t> = Option<Number<F64>>;
    type Gates = No;

    fn name() -> String {
        String::from("Quotes")
    }

    fn facts() -> Facts {
        Facts::bare()
    }

    fn opens<'t>(_: Option<Number<F64>>) -> bool {
        true
    }
}

impl Nudge<F64> for Quotes {
    type Scratch = Option<Option<Number<F64>>>;

    fn fresh() -> Option<Option<Number<F64>>> {
        None
    }

    fn stage<'t>(out: Option<Number<F64>>, scratch: &mut Option<Option<Number<F64>>>, bump: Option<usize>, h: F64) -> F64 {
        stage_value(out, scratch, bump, h)
    }

    fn view<'l>(scratch: &'l Option<Option<Number<F64>>>) -> Option<Number<F64>> {
        scratch.expect("something was staged")
    }
}

struct A;

impl Cell for A {
    type Out<'t> = Option<Number<F64>>;
    type Gates = No;

    fn name() -> String {
        String::from("A")
    }

    fn facts() -> Facts {
        Facts::bare()
    }

    fn opens<'t>(_: Option<Number<F64>>) -> bool {
        true
    }
}

impl Node for A {
    type Deps = (Trades, ());

    fn advance<'t>(&'t mut self, deps: (Option<Number<F64>>, ())) -> Option<Number<F64>> {
        deps.0.map(|x| n(x.0 .0 * 2.0))
    }
}

impl Blind<F64> for A {
    fn an_advance_shows<'t>(&self, _: (Option<Number<F64>>, ()), _: &Self, _: Option<Number<F64>>) {}

    fn a_twin_shows_alike<'t>(&self, _: &Self, _: (Option<Number<F64>>, ()), _: (Option<Number<F64>>, ())) {}

    fn why() -> &'static str {
        "a diamond fixture"
    }

    fn copied(&self) -> Self {
        A
    }
}

impl Observed<F64> for A {
    type Pre = Refired<Restep<A>>;

    fn fidelity() -> Fidelity {
        Fidelity::Opaque(<Self as Blind<F64>>::why())
    }

    fn plots() -> &'static [Plot] {
        &[]
    }

    fn pre<'t>(&self, want: Want, _: &(Option<Number<F64>>, ())) -> Refired<Restep<A>> {
        refire(self, want)
    }
}

impl Nudge<F64> for A {
    type Scratch = Option<Option<Number<F64>>>;

    fn fresh() -> Option<Option<Number<F64>>> {
        None
    }

    fn stage<'t>(out: Option<Number<F64>>, scratch: &mut Option<Option<Number<F64>>>, bump: Option<usize>, h: F64) -> F64 {
        stage_value(out, scratch, bump, h)
    }

    fn view<'l>(scratch: &'l Option<Option<Number<F64>>>) -> Option<Number<F64>> {
        scratch.expect("something was staged")
    }
}

struct B;

impl Cell for B {
    type Out<'t> = Option<Number<F64>>;
    type Gates = No;

    fn name() -> String {
        String::from("B")
    }

    fn facts() -> Facts {
        Facts::bare()
    }

    fn opens<'t>(_: Option<Number<F64>>) -> bool {
        true
    }
}

impl Node for B {
    type Deps = (A, ());

    fn advance<'t>(&'t mut self, deps: (Option<Number<F64>>, ())) -> Option<Number<F64>> {
        deps.0.map(|x| n(x.0 .0 + 1.0))
    }
}

impl Blind<F64> for B {
    fn an_advance_shows<'t>(&self, _: (Option<Number<F64>>, ()), _: &Self, _: Option<Number<F64>>) {}

    fn a_twin_shows_alike<'t>(&self, _: &Self, _: (Option<Number<F64>>, ()), _: (Option<Number<F64>>, ())) {}

    fn why() -> &'static str {
        "a diamond fixture"
    }

    fn copied(&self) -> Self {
        B
    }
}

impl Observed<F64> for B {
    type Pre = Refired<Restep<B>>;

    fn fidelity() -> Fidelity {
        Fidelity::Opaque(<Self as Blind<F64>>::why())
    }

    fn plots() -> &'static [Plot] {
        &[]
    }

    fn pre<'t>(&self, want: Want, _: &(Option<Number<F64>>, ())) -> Refired<Restep<B>> {
        refire(self, want)
    }
}

impl Nudge<F64> for B {
    type Scratch = Option<Option<Number<F64>>>;

    fn fresh() -> Option<Option<Number<F64>>> {
        None
    }

    fn stage<'t>(out: Option<Number<F64>>, scratch: &mut Option<Option<Number<F64>>>, bump: Option<usize>, h: F64) -> F64 {
        stage_value(out, scratch, bump, h)
    }

    fn view<'l>(scratch: &'l Option<Option<Number<F64>>>) -> Option<Number<F64>> {
        scratch.expect("something was staged")
    }
}

struct C;

impl Cell for C {
    type Out<'t> = Option<Number<F64>>;
    type Gates = No;

    fn name() -> String {
        String::from("C")
    }

    fn facts() -> Facts {
        Facts::bare()
    }

    fn opens<'t>(_: Option<Number<F64>>) -> bool {
        true
    }
}

impl Node for C {
    type Deps = (A, ());

    fn advance<'t>(&'t mut self, deps: (Option<Number<F64>>, ())) -> Option<Number<F64>> {
        deps.0.map(|x| n(x.0 .0 * 3.0))
    }
}

impl Blind<F64> for C {
    fn an_advance_shows<'t>(&self, _: (Option<Number<F64>>, ()), _: &Self, _: Option<Number<F64>>) {}

    fn a_twin_shows_alike<'t>(&self, _: &Self, _: (Option<Number<F64>>, ()), _: (Option<Number<F64>>, ())) {}

    fn why() -> &'static str {
        "a diamond fixture"
    }

    fn copied(&self) -> Self {
        C
    }
}

impl Observed<F64> for C {
    type Pre = Refired<Restep<C>>;

    fn fidelity() -> Fidelity {
        Fidelity::Opaque(<Self as Blind<F64>>::why())
    }

    fn plots() -> &'static [Plot] {
        &[]
    }

    fn pre<'t>(&self, want: Want, _: &(Option<Number<F64>>, ())) -> Refired<Restep<C>> {
        refire(self, want)
    }
}

impl Nudge<F64> for C {
    type Scratch = Option<Option<Number<F64>>>;

    fn fresh() -> Option<Option<Number<F64>>> {
        None
    }

    fn stage<'t>(out: Option<Number<F64>>, scratch: &mut Option<Option<Number<F64>>>, bump: Option<usize>, h: F64) -> F64 {
        stage_value(out, scratch, bump, h)
    }

    fn view<'l>(scratch: &'l Option<Option<Number<F64>>>) -> Option<Number<F64>> {
        scratch.expect("something was staged")
    }
}

struct D;

impl Cell for D {
    type Out<'t> = Option<Number<F64>>;
    type Gates = No;

    fn name() -> String {
        String::from("D")
    }

    fn facts() -> Facts {
        Facts::bare()
    }

    fn opens<'t>(_: Option<Number<F64>>) -> bool {
        true
    }
}

impl Node for D {
    type Deps = (B, (C, ()));

    fn advance<'t>(&'t mut self, deps: (Option<Number<F64>>, (Option<Number<F64>>, ()))) -> Option<Number<F64>> {
        deps.0.zip(deps.1.0).map(|(b, c)| n(b.0 .0 + c.0 .0))
    }
}

impl Blind<F64> for D {
    fn an_advance_shows<'t>(&self, _: (Option<Number<F64>>, (Option<Number<F64>>, ())), _: &Self, _: Option<Number<F64>>) {}

    fn a_twin_shows_alike<'t>(&self, _: &Self, _: (Option<Number<F64>>, (Option<Number<F64>>, ())), _: (Option<Number<F64>>, (Option<Number<F64>>, ()))) {}

    fn why() -> &'static str {
        "a diamond fixture"
    }

    fn copied(&self) -> Self {
        D
    }
}

impl Observed<F64> for D {
    type Pre = Refired<Restep<D>>;

    fn fidelity() -> Fidelity {
        Fidelity::Opaque(<Self as Blind<F64>>::why())
    }

    fn plots() -> &'static [Plot] {
        &[]
    }

    fn pre<'t>(&self, want: Want, _: &(Option<Number<F64>>, (Option<Number<F64>>, ()))) -> Refired<Restep<D>> {
        refire(self, want)
    }
}

struct Cross;

impl Cell for Cross {
    type Out<'t> = Option<Number<F64>>;
    type Gates = No;

    fn name() -> String {
        String::from("Cross")
    }

    fn facts() -> Facts {
        Facts::bare()
    }

    fn opens<'t>(_: Option<Number<F64>>) -> bool {
        true
    }
}

impl Node for Cross {
    type Deps = (Trades, (Quotes, ()));

    fn advance<'t>(&'t mut self, deps: (Option<Number<F64>>, (Option<Number<F64>>, ()))) -> Option<Number<F64>> {
        deps.0.zip(deps.1.0).map(|(t, q)| n(t.0 .0 - q.0 .0))
    }
}

impl Blind<F64> for Cross {
    fn an_advance_shows<'t>(&self, _: (Option<Number<F64>>, (Option<Number<F64>>, ())), _: &Self, _: Option<Number<F64>>) {}

    fn a_twin_shows_alike<'t>(&self, _: &Self, _: (Option<Number<F64>>, (Option<Number<F64>>, ())), _: (Option<Number<F64>>, (Option<Number<F64>>, ()))) {}

    fn why() -> &'static str {
        "a diamond fixture"
    }

    fn copied(&self) -> Self {
        Cross
    }
}

impl Observed<F64> for Cross {
    type Pre = Refired<Restep<Cross>>;

    fn fidelity() -> Fidelity {
        Fidelity::Opaque(<Self as Blind<F64>>::why())
    }

    fn plots() -> &'static [Plot] {
        &[]
    }

    fn pre<'t>(&self, want: Want, _: &(Option<Number<F64>>, (Option<Number<F64>>, ()))) -> Refired<Restep<Cross>> {
        refire(self, want)
    }
}

fn tick(trades: Option<f64>, quotes: Option<f64>) -> (Option<f64>, Option<f64>) {
    let (mut a, mut b, mut c, mut d, mut cross) = (A, B, C, D, Cross);
    let f = Cons::<Trades, Nil> { out: trades.map(n), tail: Nil };
    let f = Cons::<Quotes, _> { out: quotes.map(n), tail: f };
    let f = step(f, &mut a);
    let f = step(f, &mut b);
    let f = step(f, &mut c);
    let f = step(f, &mut d);
    let f = step(f, &mut cross);
    (f.tail.head().map(|x| x.0 .0), f.head().map(|x| x.0 .0))
}

#[test]
fn diamond_option_propagation() {
    assert_eq!(tick(Some(2.0), Some(1.0)), (Some(17.0), Some(1.0)));
    assert_eq!(tick(Some(3.0), None), (Some(25.0), None));
    assert_eq!(tick(None, Some(5.0)), (None, None));
    assert_eq!(tick(None, None), (None, None));
}

struct Rec(Vec<(String, Vec<String>, Option<f64>)>);

impl Observer<F64> for Rec {
    fn want(&self, _: &str) -> Want {
        Want::Vals
    }

    fn on(&mut self, node: &str, deps: &[String], _: &[bool], fire: Fire<'_, F64>) {
        self.0.push((String::from(node), deps.to_vec(), fire.vals.map(|v| v[0].0)));
    }
}

#[test]
fn observer_sees_topo_order_deps_and_values() {
    let (mut rec, mut sweep) = (Rec(Vec::new()), Sweep::new());
    let (mut a, mut b, mut c, mut d, mut cross) = (A, B, C, D, Cross);
    let mut tick = |trades: Option<f64>, quotes: Option<f64>, rec: &mut Rec| {
        let f = Cons::<Trades, Nil> { out: trades.map(n), tail: Nil };
        let f = Cons::<Quotes, _> { out: quotes.map(n), tail: f };
        let f = step_obs(f, &mut a, &mut sweep, rec);
        let f = step_obs(f, &mut b, &mut sweep, rec);
        let f = step_obs(f, &mut c, &mut sweep, rec);
        let f = step_obs(f, &mut d, &mut sweep, rec);
        let f = step_obs(f, &mut cross, &mut sweep, rec);
        (f.tail.head().map(|x| x.0 .0), f.head().map(|x| x.0 .0))
    };

    assert_eq!(tick(Some(2.0), Some(1.0), &mut rec), (Some(17.0), Some(1.0)));
    assert_eq!(tick(None, Some(5.0), &mut rec), (None, None));

    let seen: Vec<(&str, Vec<&str>, Option<f64>)> = rec
        .0
        .iter()
        .map(|(n, d, o)| (n.as_str(), d.iter().map(|d| d.as_str()).collect(), *o))
        .collect();
    assert_eq!(
        seen,
        vec![
            ("A", vec!["Trades"], Some(4.0)),
            ("B", vec!["A"], Some(5.0)),
            ("C", vec!["A"], Some(12.0)),
            ("D", vec!["B", "C"], Some(17.0)),
            ("Cross", vec!["Trades", "Quotes"], Some(1.0)),
            ("A", vec!["Trades"], None),
            ("B", vec!["A"], None),
            ("C", vec!["A"], None),
            ("D", vec!["B", "C"], None),
            ("Cross", vec!["Trades", "Quotes"], None),
        ]
    );
}

struct R;

impl Cell for R {
    type Out<'t> = f64;
    type Gates = No;

    fn name() -> String {
        String::from("R")
    }

    fn facts() -> Facts {
        Facts::bare()
    }

    fn opens<'t>(_: f64) -> bool {
        true
    }
}

struct S1;

impl Cell for S1 {
    type Out<'t> = f64;
    type Gates = No;

    fn name() -> String {
        String::from("S1")
    }

    fn facts() -> Facts {
        Facts::bare()
    }

    fn opens<'t>(_: f64) -> bool {
        true
    }
}

impl Node for S1 {
    type Deps = (R, ());

    fn advance<'t>(&'t mut self, deps: (f64, ())) -> f64 {
        deps.0 + 1.0
    }
}

struct S2;

impl Cell for S2 {
    type Out<'t> = f64;
    type Gates = No;

    fn name() -> String {
        String::from("S2")
    }

    fn facts() -> Facts {
        Facts::bare()
    }

    fn opens<'t>(_: f64) -> bool {
        true
    }
}

impl Node for S2 {
    type Deps = (S1, ());

    fn advance<'t>(&'t mut self, deps: (f64, ())) -> f64 {
        deps.0 + 1.0
    }
}

struct S3;

impl Cell for S3 {
    type Out<'t> = f64;
    type Gates = No;

    fn name() -> String {
        String::from("S3")
    }

    fn facts() -> Facts {
        Facts::bare()
    }

    fn opens<'t>(_: f64) -> bool {
        true
    }
}

impl Node for S3 {
    type Deps = (S2, ());

    fn advance<'t>(&'t mut self, deps: (f64, ())) -> f64 {
        deps.0 + 1.0
    }
}

struct S4;

impl Cell for S4 {
    type Out<'t> = f64;
    type Gates = No;

    fn name() -> String {
        String::from("S4")
    }

    fn facts() -> Facts {
        Facts::bare()
    }

    fn opens<'t>(_: f64) -> bool {
        true
    }
}

impl Node for S4 {
    type Deps = (S3, ());

    fn advance<'t>(&'t mut self, deps: (f64, ())) -> f64 {
        deps.0 + 1.0
    }
}

struct S5;

impl Cell for S5 {
    type Out<'t> = f64;
    type Gates = No;

    fn name() -> String {
        String::from("S5")
    }

    fn facts() -> Facts {
        Facts::bare()
    }

    fn opens<'t>(_: f64) -> bool {
        true
    }
}

impl Node for S5 {
    type Deps = (S4, ());

    fn advance<'t>(&'t mut self, deps: (f64, ())) -> f64 {
        deps.0 + 1.0
    }
}

struct S6;

impl Cell for S6 {
    type Out<'t> = f64;
    type Gates = No;

    fn name() -> String {
        String::from("S6")
    }

    fn facts() -> Facts {
        Facts::bare()
    }

    fn opens<'t>(_: f64) -> bool {
        true
    }
}

impl Node for S6 {
    type Deps = (S5, ());

    fn advance<'t>(&'t mut self, deps: (f64, ())) -> f64 {
        deps.0 + 1.0
    }
}

struct S7;

impl Cell for S7 {
    type Out<'t> = f64;
    type Gates = No;

    fn name() -> String {
        String::from("S7")
    }

    fn facts() -> Facts {
        Facts::bare()
    }

    fn opens<'t>(_: f64) -> bool {
        true
    }
}

impl Node for S7 {
    type Deps = (S6, ());

    fn advance<'t>(&'t mut self, deps: (f64, ())) -> f64 {
        deps.0 + 1.0
    }
}

struct S8;

impl Cell for S8 {
    type Out<'t> = f64;
    type Gates = No;

    fn name() -> String {
        String::from("S8")
    }

    fn facts() -> Facts {
        Facts::bare()
    }

    fn opens<'t>(_: f64) -> bool {
        true
    }
}

impl Node for S8 {
    type Deps = (S7, ());

    fn advance<'t>(&'t mut self, deps: (f64, ())) -> f64 {
        deps.0 + 1.0
    }
}

struct S9;

impl Cell for S9 {
    type Out<'t> = f64;
    type Gates = No;

    fn name() -> String {
        String::from("S9")
    }

    fn facts() -> Facts {
        Facts::bare()
    }

    fn opens<'t>(_: f64) -> bool {
        true
    }
}

impl Node for S9 {
    type Deps = (S8, ());

    fn advance<'t>(&'t mut self, deps: (f64, ())) -> f64 {
        deps.0 + 1.0
    }
}

struct S10;

impl Cell for S10 {
    type Out<'t> = f64;
    type Gates = No;

    fn name() -> String {
        String::from("S10")
    }

    fn facts() -> Facts {
        Facts::bare()
    }

    fn opens<'t>(_: f64) -> bool {
        true
    }
}

impl Node for S10 {
    type Deps = (S9, ());

    fn advance<'t>(&'t mut self, deps: (f64, ())) -> f64 {
        deps.0 + 1.0
    }
}

struct Wide;

impl Cell for Wide {
    type Out<'t> = f64;
    type Gates = No;

    fn name() -> String {
        String::from("Wide")
    }

    fn facts() -> Facts {
        Facts::bare()
    }

    fn opens<'t>(_: f64) -> bool {
        true
    }
}

impl Node for Wide {
    type Deps = (S3, (S4, (S5, (S6, (S7, (S8, (S9, (S10, ()))))))));

    fn advance<'t>(&'t mut self, deps: (f64, (f64, (f64, (f64, (f64, (f64, (f64, (f64, ()))))))))) -> f64 {
        let (a, (b, (c, (d, (e, (g, (h, (j, ())))))))) = deps;
        a + b + c + d + e + g + h + j
    }
}

#[test]
fn inference_stress_depth_10_arity_8() {
    let (mut s1, mut s2, mut s3, mut s4, mut s5) = (S1, S2, S3, S4, S5);
    let (mut s6, mut s7, mut s8, mut s9, mut s10, mut wide) = (S6, S7, S8, S9, S10, Wide);
    let f = Cons::<R, Nil> { out: 0.0, tail: Nil };
    let f = step(f, &mut s1);
    let f = step(f, &mut s2);
    let f = step(f, &mut s3);
    let f = step(f, &mut s4);
    let f = step(f, &mut s5);
    let f = step(f, &mut s6);
    let f = step(f, &mut s7);
    let f = step(f, &mut s8);
    let f = step(f, &mut s9);
    let f = step(f, &mut s10);
    let f = step(f, &mut wide);
    assert_eq!(f.head(), (3..=10).sum::<i32>() as f64);
}

struct JacRec(Vec<Option<Vec<f64>>>);

impl Observer<F64> for JacRec {
    fn want(&self, _: &str) -> Want {
        Want::Jac
    }

    fn on(&mut self, _: &str, _: &[String], _: &[bool], fire: Fire<'_, F64>) {
        self.0.push(fire.jac.map(|j| j.iter().map(|x| x.0).collect()));
    }
}

#[test]
fn fd_linear_dep() {
    let mut rec = JacRec(Vec::new());
    let f = Cons::<Trades, Nil> { out: Some(n(2.0)), tail: Nil };
    step_obs(f, &mut A, &mut Sweep::new(), &mut rec);
    let jac = rec.0[0].as_ref().expect("A fired");
    assert!((jac[0] - 2.0).abs() < 1e-3, "{jac:?}");
}

/// A multi-rate leaf: an unfired dep contributes nothing this tick.
struct Level;

impl Cell for Level {
    type Out<'t> = Number<F64>;
    type Gates = No;

    fn name() -> String {
        String::from("Level")
    }

    fn facts() -> Facts {
        Facts::bare()
    }

    fn opens<'t>(_: Number<F64>) -> bool {
        true
    }
}

impl Node for Level {
    type Deps = (Trades, (Quotes, ()));

    fn advance<'t>(&'t mut self, deps: (Option<Number<F64>>, (Option<Number<F64>>, ()))) -> Number<F64> {
        n(deps.0.map_or(0.0, |t| t.0 .0) + 3.0 * deps.1.0.map_or(0.0, |q| q.0 .0))
    }
}

impl Blind<F64> for Level {
    fn an_advance_shows<'t>(&self, _: (Option<Number<F64>>, (Option<Number<F64>>, ())), _: &Self, _: Number<F64>) {}

    fn a_twin_shows_alike<'t>(&self, _: &Self, _: (Option<Number<F64>>, (Option<Number<F64>>, ())), _: (Option<Number<F64>>, (Option<Number<F64>>, ()))) {}

    fn why() -> &'static str {
        "a diamond fixture"
    }

    fn copied(&self) -> Self {
        Level
    }
}

impl Observed<F64> for Level {
    type Pre = Refired<Restep<Level>>;

    fn fidelity() -> Fidelity {
        Fidelity::Opaque(<Self as Blind<F64>>::why())
    }

    fn plots() -> &'static [Plot] {
        &[]
    }

    fn pre<'t>(&self, want: Want, _: &(Option<Number<F64>>, (Option<Number<F64>>, ()))) -> Refired<Restep<Level>> {
        refire(self, want)
    }
}

#[test]
fn fd_unfired_dep_nan_column() {
    let mut rec = JacRec(Vec::new());
    let f = Cons::<Trades, Nil> { out: None, tail: Nil };
    let f = Cons::<Quotes, _> { out: Some(n(5.0)), tail: f };
    step_obs(f, &mut Level, &mut Sweep::new(), &mut rec);
    let jac = rec.0[0].as_ref().expect("Level always fires");
    assert!(jac[0].is_nan(), "{jac:?}");
    assert!((jac[1] - 3.0).abs() < 1e-3, "{jac:?}");
}

struct Flag;

impl Cell for Flag {
    type Out<'t> = bool;
    type Gates = No;

    fn name() -> String {
        String::from("Flag")
    }

    fn facts() -> Facts {
        Facts::bare()
    }

    fn opens<'t>(_: bool) -> bool {
        true
    }
}

impl Nudge<F64> for Flag {
    type Scratch = Option<bool>;

    fn fresh() -> Option<bool> {
        None
    }

    fn stage<'t>(out: bool, scratch: &mut Option<bool>, bump: Option<usize>, h: F64) -> F64 {
        stage_value(out, scratch, bump, h)
    }

    fn view<'l>(scratch: &'l Option<bool>) -> bool {
        scratch.expect("something was staged")
    }
}

struct OnOff;

impl Cell for OnOff {
    type Out<'t> = Number<F64>;
    type Gates = No;

    fn name() -> String {
        String::from("OnOff")
    }

    fn facts() -> Facts {
        Facts::bare()
    }

    fn opens<'t>(_: Number<F64>) -> bool {
        true
    }
}

impl Node for OnOff {
    type Deps = (Flag, ());

    fn advance<'t>(&'t mut self, deps: (bool, ())) -> Number<F64> {
        if deps.0 {
            n(5.0)
        } else {
            n(0.0)
        }
    }
}

impl Blind<F64> for OnOff {
    fn an_advance_shows<'t>(&self, _: (bool, ()), _: &Self, _: Number<F64>) {}

    fn a_twin_shows_alike<'t>(&self, _: &Self, _: (bool, ()), _: (bool, ())) {}

    fn why() -> &'static str {
        "a diamond fixture"
    }

    fn copied(&self) -> Self {
        OnOff
    }
}

impl Observed<F64> for OnOff {
    type Pre = Refired<Restep<OnOff>>;

    fn fidelity() -> Fidelity {
        Fidelity::Opaque(<Self as Blind<F64>>::why())
    }

    fn plots() -> &'static [Plot] {
        &[]
    }

    fn pre<'t>(&self, want: Want, _: &(bool, ())) -> Refired<Restep<OnOff>> {
        refire(self, want)
    }
}

#[test]
fn fd_discrete_dep_nan_column() {
    let mut rec = JacRec(Vec::new());
    let f = Cons::<Flag, Nil> { out: true, tail: Nil };
    step_obs(f, &mut OnOff, &mut Sweep::new(), &mut rec);
    let jac = rec.0[0].as_deref().expect("OnOff always fires");
    assert!(jac[0].is_nan(), "a dep that cannot be perturbed has no slope, not a zero one: {jac:?}");
}

struct Under;

impl Cell for Under {
    type Out<'t> = Option<Number<F64>>;
    type Gates = No;

    fn name() -> String {
        String::from("Under")
    }

    fn facts() -> Facts {
        Facts::bare()
    }

    fn opens<'t>(_: Option<Number<F64>>) -> bool {
        true
    }
}

impl Node for Under {
    type Deps = (Trades, ());

    fn advance<'t>(&'t mut self, deps: (Option<Number<F64>>, ())) -> Option<Number<F64>> {
        deps.0.filter(|x| x.0 .0 <= 1.0)
    }
}

impl Blind<F64> for Under {
    fn an_advance_shows<'t>(&self, _: (Option<Number<F64>>, ()), _: &Self, _: Option<Number<F64>>) {}

    fn a_twin_shows_alike<'t>(&self, _: &Self, _: (Option<Number<F64>>, ()), _: (Option<Number<F64>>, ())) {}

    fn why() -> &'static str {
        "a diamond fixture"
    }

    fn copied(&self) -> Self {
        Under
    }
}

impl Observed<F64> for Under {
    type Pre = Refired<Restep<Under>>;

    fn fidelity() -> Fidelity {
        Fidelity::Opaque(<Self as Blind<F64>>::why())
    }

    fn plots() -> &'static [Plot] {
        &[]
    }

    fn pre<'t>(&self, want: Want, _: &(Option<Number<F64>>, ())) -> Refired<Restep<Under>> {
        refire(self, want)
    }
}

#[test]
fn fd_bump_unfired_nan_column() {
    let mut rec = JacRec(Vec::new());
    let f = Cons::<Trades, Nil> { out: Some(n(1.0)), tail: Nil };
    step_obs(f, &mut Under, &mut Sweep::new(), &mut rec);
    let jac = rec.0[0].as_ref().expect("fires at the boundary");
    assert!(jac[0].is_nan(), "{jac:?}");
}
