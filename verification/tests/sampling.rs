//! The level a consumer clocked by *another* series stands on, and the two ways the run it samples can
//! say nothing: an empty batch, and a batch of items carrying their own absence. Neither may unseat
//! what is held.

use core::marker::PhantomData;

use trading_data::block::Column;
use trading_data::cell::{Cell, Cons, Facts, Nil, No};
use trading_data::emit::{step_emit, Emit, Emitter};
use trading_data::flat::{Flat, Number};
use trading_data::glance::Glance;
use trading_data::horizon::{Elems, Horizon};
use trading_data::level::Refired;
use trading_data::node::{step, Node};
use trading_data::observe::{Fire, Observer, Sweep};
use trading_data::plot::Plot;
use trading_data::rows::{Hist, Present, Rows};
use trading_data::scalar::Scalar;
use trading_data::series::{Buffer, Buffering, Latest, Sampling, Series};
use trading_data::shape::{Fidelity, Kind, NodeShape, Pin, Shape};
use trading_data::stamped::Stamped;
use trading_data::sweep::{step_obs, Observed};
use trading_data::want::Want;

/// A machine float as a scalar.
#[derive(Clone, Copy, Debug, PartialEq, PartialOrd)]
struct F64(f64);

impl Scalar for F64 {
    fn zero_equals_zero() {}

    fn one_is_not_zero() {}

    fn none_is_absent() {}

    fn of(n: i64) -> Self {
        F64(n as f64)
    }

    fn nan() -> Self {
        F64(f64::NAN)
    }

    fn is_nan(self) -> bool {
        self.0.is_nan()
    }

    fn add(self, other: Self) -> Self {
        F64(self.0 + other.0)
    }

    fn sub(self, other: Self) -> Self {
        F64(self.0 - other.0)
    }

    fn mul(self, other: Self) -> Self {
        F64(self.0 * other.0)
    }

    fn div(self, other: Self) -> Self {
        F64(self.0 / other.0)
    }

    fn neg(self) -> Self {
        F64(-self.0)
    }

    fn abs(self) -> Self {
        F64(self.0.abs())
    }

    fn sqrt(self) -> Self {
        F64(self.0.sqrt())
    }

    fn exp(self) -> Self {
        F64(self.0.exp())
    }

    fn min(self, other: Self) -> Self {
        F64(self.0.min(other.0))
    }

    fn max(self, other: Self) -> Self {
        F64(self.0.max(other.0))
    }

    fn lt(self, other: Self) -> bool {
        self.0 < other.0
    }

    fn same(self, other: Self) -> bool {
        self.0 == other.0
    }

    fn round(self) -> i64 {
        self.0.round() as i64
    }

    fn is_broken(self) -> bool {
        self.0.fract() != 0.0
    }

    fn text(self) -> String {
        format!("{}", self.0)
    }

    fn text_to(self, places: usize) -> String {
        format!("{:.*}", places, self.0)
    }
}

/// One unit of `v` is one second of `ts`, so a fixture's numbers double as its timeline.
#[derive(Clone, Copy, Debug, PartialEq)]
struct Tick {
    ts: i64,
    v: f64,
}

fn t(v: f64) -> Tick {
    Tick { ts: (v * 1e9) as i64, v }
}

impl Stamped for Tick {
    fn ts_ns(&self) -> i64 {
        self.ts
    }
}

impl Present for Tick {
    type Val = Tick;

    fn present(self) -> Option<Tick> {
        Some(self)
    }
}

impl Flat<F64> for Tick {
    fn fills(&self) {}

    fn shaped() {}

    fn dims() -> Vec<usize> {
        Vec::new()
    }

    fn len() -> usize {
        1
    }

    fn flat(&self, out: &mut [F64]) -> bool {
        out[0] = F64(self.v);
        true
    }

    fn fires(&self) -> usize {
        1
    }
}

impl Glance for Tick {
    fn glance(&self) -> String {
        format!("{}", self.v)
    }
}

/// What is never stepped again.
struct Never;

impl<D> Column<F64, D> for Never {
    fn col(&self, _: &D, _: usize, _: F64, _: &mut Vec<F64>) -> (bool, F64) {
        unreachable!()
    }
}

/// The slow series: publishes on its own schedule.
struct Src;

impl Cell for Src {
    type Out<'t> = &'t [Tick];
    type Gates = No;

    fn name() -> String {
        String::from("Src")
    }

    fn facts() -> Facts {
        Facts::bare()
    }

    fn opens<'t>(_: &'t [Tick]) -> bool {
        true
    }
}

impl Series for Src {
    type Item = Tick;
    type Batch = Rows<Tick>;
}

/// The fast series every consumer below is clocked by.
struct Clk;

impl Cell for Clk {
    type Out<'t> = &'t [Tick];
    type Gates = No;

    fn name() -> String {
        String::from("Clk")
    }

    fn facts() -> Facts {
        Facts::bare()
    }

    fn opens<'t>(_: &'t [Tick]) -> bool {
        true
    }
}

impl Series for Clk {
    type Item = Tick;
    type Batch = Rows<Tick>;
}

/// Declines on a non-positive element.
struct Sparse;

impl Cell for Sparse {
    type Out<'t> = &'t [Option<Number<F64>>];
    type Gates = No;

    fn name() -> String {
        String::from("Sparse")
    }

    fn facts() -> Facts {
        Facts::bare()
    }

    fn opens<'t>(_: &'t [Option<Number<F64>>]) -> bool {
        true
    }
}

impl Series for Sparse {
    type Item = Option<Number<F64>>;
    type Batch = Rows<Option<Number<F64>>>;
}

impl Emit for Sparse {
    type Deps = (Src, ());

    fn emit<'t>(&mut self, deps: (&'t [Tick], ()), out: &mut Vec<Option<Number<F64>>>) {
        out.extend(deps.0.iter().map(|x| (x.v > 0.0).then_some(Number(F64(x.v)))));
    }
}

/// On a tick its own clock fired and `Sparse` did not, the unwrapped dep is the empty run and the
/// reading is silently `None`.
struct Naive;

impl Cell for Naive {
    type Out<'t> = Option<Number<F64>>;
    type Gates = No;

    fn name() -> String {
        String::from("Naive")
    }

    fn facts() -> Facts {
        Facts::bare()
    }

    fn opens<'t>(_: Option<Number<F64>>) -> bool {
        true
    }
}

impl Node for Naive {
    type Deps = (Clk, (Sparse, ()));

    fn advance<'t>(&'t mut self, deps: (&'t [Tick], (&'t [Option<Number<F64>>], ()))) -> Option<Number<F64>> {
        deps.1.0.last().copied().flatten()
    }
}

impl Observed<F64> for Naive {
    type Pre = Refired<Never>;

    fn fidelity() -> Fidelity {
        Fidelity::Opaque("a sampling fixture")
    }

    fn plots() -> &'static [Plot] {
        &[]
    }

    fn pre<'t>(&self, _: Want, _: &(&'t [Tick], (&'t [Option<Number<F64>>], ()))) -> Refired<Never> {
        Refired(None)
    }
}

struct Sampled;

impl Cell for Sampled {
    type Out<'t> = Option<Number<F64>>;
    type Gates = No;

    fn name() -> String {
        String::from("Sampled")
    }

    fn facts() -> Facts {
        Facts::bare()
    }

    fn opens<'t>(_: Option<Number<F64>>) -> bool {
        true
    }
}

impl Node for Sampled {
    type Deps = (Clk, (Sampling<Sparse>, ()));

    fn advance<'t>(&'t mut self, deps: (&'t [Tick], (Option<Number<F64>>, ()))) -> Option<Number<F64>> {
        deps.1.0
    }
}

impl Observed<F64> for Sampled {
    type Pre = Refired<Never>;

    fn fidelity() -> Fidelity {
        Fidelity::Opaque("a sampling fixture")
    }

    fn plots() -> &'static [Plot] {
        &[]
    }

    fn pre<'t>(&self, _: Want, _: &(&'t [Tick], (Option<Number<F64>>, ()))) -> Refired<Never> {
        Refired(None)
    }
}

/// The long spelling `Sampling` replaces where the item carries no absence.
struct Windowed;

impl Cell for Windowed {
    type Out<'t> = Option<Number<F64>>;
    type Gates = No;

    fn name() -> String {
        String::from("Windowed")
    }

    fn facts() -> Facts {
        Facts::bare()
    }

    fn opens<'t>(_: Option<Number<F64>>) -> bool {
        true
    }
}

impl Node for Windowed {
    type Deps = (Clk, (Buffering<Src, Elems<1>>, ()));

    fn advance<'t>(&'t mut self, deps: (&'t [Tick], (Hist<'t, Tick>, ()))) -> Option<Number<F64>> {
        deps.1.0.all().last().map(|x| Number(F64(x.v)))
    }
}

impl Observed<F64> for Windowed {
    type Pre = Refired<Never>;

    fn fidelity() -> Fidelity {
        Fidelity::Opaque("a sampling fixture")
    }

    fn plots() -> &'static [Plot] {
        &[]
    }

    fn pre<'t>(&self, _: Want, _: &(&'t [Tick], (Hist<'t, Tick>, ()))) -> Refired<Never> {
        Refired(None)
    }
}

/// An item that is its own value: the level is the last element there was.
struct Whole;

impl Cell for Whole {
    type Out<'t> = Option<Number<F64>>;
    type Gates = No;

    fn name() -> String {
        String::from("Whole")
    }

    fn facts() -> Facts {
        Facts::bare()
    }

    fn opens<'t>(_: Option<Number<F64>>) -> bool {
        true
    }
}

impl Node for Whole {
    type Deps = (Clk, (Sampling<Src>, ()));

    fn advance<'t>(&'t mut self, deps: (&'t [Tick], (Option<Tick>, ()))) -> Option<Number<F64>> {
        deps.1.0.map(|x| Number(F64(x.v)))
    }
}

impl Observed<F64> for Whole {
    type Pre = Refired<Never>;

    fn fidelity() -> Fidelity {
        Fidelity::Opaque("a sampling fixture")
    }

    fn plots() -> &'static [Plot] {
        &[]
    }

    fn pre<'t>(&self, _: Want, _: &(&'t [Tick], (Option<Tick>, ()))) -> Refired<Never> {
        Refired(None)
    }
}

struct G {
    src: Latest<Src>,
    sparse: Emitter<Sparse>,
    level: Latest<Sparse>,
    hist: Buffer<Src, Elems<1>>,
}

#[derive(Debug, PartialEq)]
struct Out {
    naive: Option<f64>,
    sampled: Option<f64>,
    windowed: Option<f64>,
    whole: Option<f64>,
}

fn value(x: Option<Number<F64>>) -> Option<f64> {
    x.map(|n| n.0 .0)
}

impl G {
    fn new() -> Self {
        G {
            src: Latest { held: None },
            sparse: Emitter::new(Sparse),
            level: Latest { held: None },
            hist: Buffer { batch: Rows::default(), reach: PhantomData },
        }
    }

    fn tick(&mut self, src: &[Tick], clk: &[Tick]) -> Out {
        let (mut naive, mut sampled, mut windowed, mut whole) = (Naive, Sampled, Windowed, Whole);
        let f = Cons::<Src, Nil> { out: src, tail: Nil };
        let f = Cons::<Clk, _> { out: clk, tail: f };
        let f = step(f, &mut self.src);
        let f = step_emit(f, &mut self.sparse, true, 0);
        let f = step(f, &mut self.level);
        let f = step(f, &mut naive);
        let a = f.head();
        let f = step(f, &mut sampled);
        let b = f.head();
        let f = step(f, &mut self.hist);
        let f = step(f, &mut windowed);
        let c = f.head();
        let f = step(f, &mut whole);
        Out { naive: value(a), sampled: value(b), windowed: value(c), whole: value(f.head()) }
    }
}

/// A level is storage, not a node: a consumer sampling a series names the series itself.
#[test]
fn a_level_is_no_node_of_the_frame() {
    assert_eq!(<Sampling<Sparse> as Cell>::name(), Sparse::name());
    assert_eq!(<Buffering<Src, Elems<1>> as Cell>::name(), Src::name());
    let nodes: Vec<&str> =
        graph().nodes.iter().filter(|n| !matches!(n.kind, Kind::Root)).map(|n| n.name).collect();
    assert!(!nodes.iter().any(|n| n.contains("Latest")), "nothing is stepped for the carry: {nodes:?}");
    assert_eq!(nodes.len(), 6, "two roots aside, the authored nodes and the one buffer: {nodes:?}");
}

/// What a sampler is observed reading is the series it samples.
#[test]
fn a_sampler_is_observed_reading_its_source() {
    struct Deps(Vec<(String, Vec<String>)>);

    impl Observer<F64> for Deps {
        fn want(&self, _: &str) -> Want {
            Want::Vals
        }

        fn on(&mut self, node: &str, deps: &[String], _: &[bool], _: Fire<'_, F64>) {
            self.0.push((String::from(node), deps.to_vec()));
        }
    }

    let (mut seen, mut sweep) = (Deps(Vec::new()), Sweep::new());
    let mut g = G::new();
    let (mut sampled, mut windowed) = (Sampled, Windowed);
    let (src, clk) = ([t(1.0)], [t(1.0)]);
    let f = Cons::<Src, Nil> { out: &src, tail: Nil };
    let f = Cons::<Clk, _> { out: &clk, tail: f };
    let f = step_emit(f, &mut g.sparse, true, 0);
    let f = step(f, &mut g.level);
    let f = step_obs(f, &mut sampled, &mut sweep, &mut seen);
    let f = step(f, &mut g.hist);
    step_obs(f, &mut windowed, &mut sweep, &mut seen);

    let want = [("Sampled", ["Clk", "Sparse"]), ("Windowed", ["Clk", "Src"])];
    for (i, (node, deps)) in want.iter().enumerate() {
        assert_eq!(seen.0[i].0, *node);
        assert_eq!(seen.0[i].1, *deps);
    }
    assert!(!seen.0.iter().any(|(k, _)| k.contains("Latest")), "no third card: {:?}", seen.0);
}

#[test]
fn a_level_stands_through_the_ticks_its_source_is_silent() {
    let mut g = G::new();
    let (none, one, two, three, four, five, six) =
        ([], [t(1.0)], [t(2.0)], [t(3.0)], [t(4.0), t(5.0)], [t(5.0)], [t(6.0)]);

    // cold: nothing has been produced, so there is no level to stand on.
    let o = g.tick(&none, &one);
    assert_eq!(o.sampled, None);
    assert_eq!(o.whole, None);

    let o = g.tick(&two, &two);
    assert_eq!(o.naive, Some(2.0));
    assert_eq!(o.sampled, Some(2.0));

    // the tick the whole thing is about: this consumer's clock fired, its source did not.
    let o = g.tick(&none, &three);
    assert_eq!(o.naive, None, "the unwrapped dep is this tick's run, and this tick's run is empty");
    assert_eq!(o.sampled, Some(2.0));
    assert_eq!(o.windowed, Some(2.0), "a one-deep window reaches behind the batch too");
    assert_eq!(o.whole, Some(2.0));

    // the last of a multi-element batch is the level, not the first.
    let o = g.tick(&four, &five);
    assert_eq!(o.sampled, Some(5.0));
    let o = g.tick(&none, &six);
    assert_eq!(o.sampled, Some(5.0));
    assert_eq!(o.windowed, Some(5.0));
}

/// The other way a run says nothing: it emitted, and every item declined.
#[test]
fn a_declining_emission_does_not_unseat_the_level() {
    let mut g = G::new();
    let (two, three, four, declines, mixed) =
        ([t(2.0)], [t(3.0)], [t(4.0)], [t(-1.0), t(-1.0)], [t(7.0), t(-1.0)]);
    g.tick(&two, &two);

    let o = g.tick(&declines, &three);
    assert_eq!(o.naive, None, "the newest emission is itself a decline");
    assert_eq!(o.sampled, Some(2.0));
    assert_eq!(o.whole, Some(-1.0), "`Src`'s own items carry no absence: every one of them is a level");

    // mixed: the last *present* one, not the last one.
    let o = g.tick(&mixed, &four);
    assert_eq!(o.naive, None);
    assert_eq!(o.sampled, Some(7.0));
}

fn drawn(
    name: &'static str,
    kind: Kind,
    pin: Pin,
    field: Option<&'static str>,
    deps: &'static [usize],
    carries: &'static [bool],
) -> NodeShape {
    NodeShape {
        name,
        kind,
        clock: None,
        fidelity: if matches!(kind, Kind::Root) {
            Fidelity::Exact
        } else {
            Fidelity::Opaque("a sampling fixture")
        },
        anchored: false,
        rewarms: true,
        pin,
        rewinds: false,
        field,
        deps,
        dep_gates: &[false, false],
        dep_folds: &[false, false],
        dep_retains: carries,
        dep_reach: &[Horizon::Unit, Horizon::Elems(1)],
        demand: &[&[]],
    }
}

/// The graph of these nodes.
fn graph() -> Shape {
    let (bare, level) = (&[false, false], &[false, true]);
    let hist = NodeShape {
        fidelity: Fidelity::Opaque(
            "a retention window is the engine's bookkeeping over a run, not a function of its elements",
        ),
        dep_folds: &[true],
        dep_reach: &[Horizon::Elems(1)],
        ..drawn("Buffer<sampling::Src, Elems(1)>", Kind::Buffer, Pin::Retention, None, &[0], bare)
    };
    Shape {
        graph: "G",
        nodes: Vec::leak(vec![
            drawn("sampling::Src", Kind::Root, Pin::Free, Some("src"), &[], &[]),
            drawn("sampling::Clk", Kind::Root, Pin::Free, Some("clk"), &[], &[]),
            drawn("sampling::Sparse", Kind::Emit, Pin::Free, None, &[0], bare),
            drawn("sampling::Naive", Kind::Node, Pin::Output, Some("naive"), &[1, 2], bare),
            drawn("sampling::Sampled", Kind::Node, Pin::Output, Some("sampled"), &[1, 2], level),
            hist,
            drawn("sampling::Windowed", Kind::Node, Pin::Output, Some("windowed"), &[1, 5], level),
            drawn("sampling::Whole", Kind::Node, Pin::Output, Some("whole"), &[1, 0], level),
        ]),
    }
}

/// Every edge points at the cell its dep names; what the `·` says is that the read is of the level
/// carried beside that cell rather than of this tick's run.
#[test]
fn shape() {
    let g = graph();
    let want = r#"graph G

╷ Src                          root src
│ ╷ Clk                          root clk
├─┼─╮
│ │ ● Sparse                       emit  Opaque("a sampling fixture")
│ ├─├─╮
│ │ │ ● Naive                        node  pin·output  →out naive  Opaque("a sampling fixture")
│ ├─╯
│ │ ● Sampled                      node  pin·output  ·Sparse  →out sampled  Opaque("a sampling fixture")
├─┼─╮
│ │ ● Buffer<Src, Elems(1)>        buffer  pin·retention  ⟳Src@Elems(1)  Opaque("a retention window is the engine's bookkeeping over a run, not a function of its elements")
│ ├─╯
│ │ ● Windowed                     node  pin·output  ⌸@Elems(1)  →out windowed  Opaque("a sampling fixture")
╰─╯
● Whole                        node  pin·output  ·Src  →out whole  Opaque("a sampling fixture")

legend  ╷root ●live ░dark ⟲needs-a-rewinding-past  ⊣gating ⟳folding ⌸buffering ·sampling"#;
    assert_eq!(g.picture(), want);
}
