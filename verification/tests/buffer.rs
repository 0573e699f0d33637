//! Retention through the frame: the past/fresh split across a multi-element batch, reading `fresh` only,
//! window retention against an irregular stream, and a latch commutation that resets a consumer while
//! leaving the buffer whole.

use core::marker::PhantomData;

use trading_data::bump::Bump;
use trading_data::cell::{Cell, Cons, Facts, Nil, No};
use trading_data::emit::{step_emit, Emit, Emitter};
use trading_data::flat::Flat;
use trading_data::glance::Glance;
use trading_data::horizon::{Elems, Horizon, Over, Timeframe};
use trading_data::latch::{Episode, Gate, Gating, Latch};
use trading_data::node::{step, Node};
use trading_data::nudge::{stage_run, Nudge};
use trading_data::observe::{Fire, Observer, Sweep};
use trading_data::rows::{Hist, Rows};
use trading_data::scalar::Scalar;
use trading_data::series::{Buffer, Buffering, Series};
use trading_data::stamped::Stamped;
use trading_data::sweep::{observe_root, step_obs};
use trading_data::want::Want;

/// A machine float as a scalar.
#[derive(Clone, Copy, Debug, PartialEq, PartialOrd)]
struct F64(f64);

impl Scalar for F64 {
    fn zero_equals_zero() {}

    fn one_is_not_zero() {}

    fn none_is_absent() {}

    fn of(n: i64) -> Self {
        F64(n as f64)
    }

    fn nan() -> Self {
        F64(f64::NAN)
    }

    fn is_nan(self) -> bool {
        self.0.is_nan()
    }

    fn add(self, other: Self) -> Self {
        F64(self.0 + other.0)
    }

    fn sub(self, other: Self) -> Self {
        F64(self.0 - other.0)
    }

    fn mul(self, other: Self) -> Self {
        F64(self.0 * other.0)
    }

    fn div(self, other: Self) -> Self {
        F64(self.0 / other.0)
    }

    fn neg(self) -> Self {
        F64(-self.0)
    }

    fn abs(self) -> Self {
        F64(self.0.abs())
    }

    fn sqrt(self) -> Self {
        F64(self.0.sqrt())
    }

    fn exp(self) -> Self {
        F64(self.0.exp())
    }

    fn min(self, other: Self) -> Self {
        F64(self.0.min(other.0))
    }

    fn max(self, other: Self) -> Self {
        F64(self.0.max(other.0))
    }

    fn lt(self, other: Self) -> bool {
        self.0 < other.0
    }

    fn same(self, other: Self) -> bool {
        self.0 == other.0
    }

    fn round(self) -> i64 {
        self.0.round() as i64
    }

    fn is_broken(self) -> bool {
        self.0.fract() != 0.0
    }

    fn text(self) -> String {
        format!("{}", self.0)
    }

    fn text_to(self, places: usize) -> String {
        format!("{:.*}", places, self.0)
    }
}

/// One unit of `v` is one second of `ts`, so a fixture's numbers double as its timeline.
#[derive(Clone, Copy, Debug, PartialEq)]
struct Tick {
    ts: i64,
    v: f64,
}

fn t(v: f64) -> Tick {
    Tick { ts: (v * 1e9) as i64, v }
}

impl Stamped for Tick {
    fn ts_ns(&self) -> i64 {
        self.ts
    }
}

impl Flat<F64> for Tick {
    fn fills(&self) {}

    fn shaped() {}

    fn dims() -> Vec<usize> {
        Vec::new()
    }

    fn len() -> usize {
        1
    }

    fn flat(&self, out: &mut [F64]) -> bool {
        out[0] = F64(self.v);
        true
    }

    fn fires(&self) -> usize {
        1
    }
}

impl Glance for Tick {
    fn glance(&self) -> String {
        format!("{}", self.v)
    }
}

/// The shape `Split` reports: past count in `ts`, fresh count in `v`.
fn split(past: i64, fresh: f64) -> Tick {
    Tick { ts: past, v: fresh }
}

/// The root series: whatever the caller hands in this tick.
struct Src;

impl Cell for Src {
    type Out<'t> = &'t [Tick];
    type Gates = No;

    fn name() -> String {
        String::from("Src")
    }

    fn facts() -> Facts {
        Facts::bare()
    }

    fn opens<'t>(_: &'t [Tick]) -> bool {
        true
    }
}

impl Series for Src {
    type Item = Tick;
    type Batch = Rows<Tick>;
}

impl Bump<F64> for Tick {
    fn bump(self, _: usize, h: F64) -> (Self, F64) {
        (Tick { v: self.v + h.0, ..self }, h)
    }
}

impl Nudge<F64> for Src {
    type Scratch = Vec<Tick>;

    fn fresh() -> Vec<Tick> {
        Vec::new()
    }

    fn stage<'t>(out: &'t [Tick], scratch: &mut Vec<Tick>, bump: Option<usize>, h: F64) -> F64 {
        stage_run(out, scratch, bump, h)
    }

    fn view<'l>(scratch: &'l Vec<Tick>) -> &'l [Tick] {
        scratch
    }
}

#[test]
fn a_buffer_names_itself_from_its_source_and_its_reach() {
    assert_eq!(Horizon::Unit.tag().as_str(), "Unit");
    assert_eq!(Horizon::Unbounded.tag().as_str(), "Unbounded");
    assert_eq!(Horizon::Elems(61).tag().as_str(), "Elems(61)");
    assert_eq!(Horizon::Over(Timeframe(180_000)).tag().as_str(), "Over(3m)");
    assert_eq!(<Buffer<Src, Elems<61>> as Cell>::name(), format!("Buffer<{}, Elems(61)>", Src::name()));
}

/// Reads a 3-deep window per fresh element: rate-preserving, `None` while short.
struct Sum3;

impl Cell for Sum3 {
    type Out<'t> = &'t [Option<f64>];
    type Gates = No;

    fn name() -> String {
        String::from("Sum3")
    }

    fn facts() -> Facts {
        Facts::bare()
    }

    fn opens<'t>(_: &'t [Option<f64>]) -> bool {
        true
    }
}

impl Series for Sum3 {
    type Item = Option<f64>;
    type Batch = Rows<Option<f64>>;
}

impl Emit for Sum3 {
    type Deps = (Buffering<Src, Elems<3>>, ());

    fn emit<'t>(&mut self, deps: (Hist<'t, Tick>, ()), out: &mut Vec<Option<f64>>) {
        for w in deps.0.trailing() {
            out.push(w.map(|w| w.iter().map(|x| x.v).sum()));
        }
    }
}

/// Reports the past/fresh split it saw, so the test can assert on the *shape* of the dep out and
/// not merely on a derived number.
struct Split;

impl Cell for Split {
    type Out<'t> = &'t [Tick];
    type Gates = No;

    fn name() -> String {
        String::from("Split")
    }

    fn facts() -> Facts {
        Facts::bare()
    }

    fn opens<'t>(_: &'t [Tick]) -> bool {
        true
    }
}

impl Series for Split {
    type Item = Tick;
    type Batch = Rows<Tick>;
}

impl Emit for Split {
    type Deps = (Buffering<Src, Elems<3>>, ());

    fn emit<'t>(&mut self, deps: (Hist<'t, Tick>, ()), out: &mut Vec<Tick>) {
        out.push(split(deps.0.past().len() as i64, deps.0.fresh().len() as f64));
    }
}

/// A cross-rate reader that declares a *shallower* reach than the frame buffers.
struct Level {
    all: Vec<Tick>,
}

impl Cell for Level {
    type Out<'t> = &'t [Tick];
    type Gates = No;

    fn name() -> String {
        String::from("Level")
    }

    fn facts() -> Facts {
        Facts::bare()
    }

    fn opens<'t>(_: &'t [Tick]) -> bool {
        true
    }
}

impl Node for Level {
    type Deps = (Buffering<Src, Elems<1>>, ());

    fn advance<'t>(&'t mut self, deps: (Hist<'t, Tick>, ())) -> &'t [Tick] {
        self.all.clear();
        self.all.extend_from_slice(deps.0.all());
        &self.all
    }
}

fn buffer<R: trading_data::horizon::Reach>() -> Buffer<Src, R> {
    Buffer { batch: Rows::default(), reach: PhantomData }
}

struct G {
    hist: Buffer<Src, Elems<3>>,
    sum3: Emitter<Sum3>,
    split: Emitter<Split>,
    level: Level,
}

struct Out {
    all: Vec<Tick>,
    past: Vec<Tick>,
    fresh: Vec<Tick>,
    sum3: Vec<Option<f64>>,
    split: Vec<Tick>,
    level: Vec<Tick>,
}

impl G {
    fn new() -> Self {
        G {
            hist: buffer(),
            sum3: Emitter::new(Sum3),
            split: Emitter::new(Split),
            level: Level { all: Vec::new() },
        }
    }

    fn tick(&mut self, src: &[Tick]) -> Out {
        let f = Cons::<Src, Nil> { out: src, tail: Nil };
        let f = step(f, &mut self.hist);
        let hist = f.head();
        let f = step_emit(f, &mut self.sum3, true, 0);
        let sum3 = f.head().to_vec();
        let f = step_emit(f, &mut self.split, true, 0);
        let split = f.head().to_vec();
        let f = step(f, &mut self.level);
        Out {
            all: hist.all().to_vec(),
            past: hist.past().to_vec(),
            fresh: hist.fresh().to_vec(),
            sum3,
            split,
            level: f.head().to_vec(),
        }
    }
}

/// Two consumers of one series at different reaches. `all()` must answer at the *declared* one, or a
/// cross-rate reader's results are a function of how deep some unrelated node asked the frame to
/// buffer.
#[test]
fn all_answers_at_the_declared_reach_not_the_frame_s() {
    let mut g = G::new();
    let (three, one) = ([t(1.0), t(2.0), t(3.0)], [t(4.0)]);

    // nothing stands behind the first batch, so both readers see the same thing: `fresh` is always
    // wholly in reach, however shallow the declaration.
    let o = g.tick(&three);
    assert_eq!(o.all, three);
    assert_eq!(o.level, three);

    let o = g.tick(&one);
    assert_eq!(o.all, [t(1.0), t(2.0), t(3.0), t(4.0)], "the frame retains 3 behind the batch");
    assert_eq!(o.level, [t(3.0), t(4.0)], "one declared, one behind the batch");
}

#[test]
fn past_fresh_split_and_trailing() {
    let mut g = G::new();
    let (one, three, five) = ([t(1.0)], [t(2.0), t(3.0), t(4.0)], [t(5.0)]);

    // cold: one element, no window yet.
    let o = g.tick(&one);
    assert_eq!(o.sum3, [None]);
    assert_eq!(o.past, []);
    assert_eq!(o.fresh, one);
    assert_eq!(o.split, [split(0, 1.0)]);

    // a batch carrying several elements: `past` is what stood behind the *whole* batch, so the
    // per-element cursors each see their own trailing window.
    let o = g.tick(&three);
    assert_eq!(o.past, one);
    assert_eq!(o.fresh, three);
    assert_eq!(o.sum3, [None, Some(6.0), Some(9.0)]);
    assert_eq!(o.split, [split(1, 3.0)]);

    // trim happens before the append, and keeps 3 elements behind.
    let o = g.tick(&five);
    assert_eq!(o.past, three);
    assert_eq!(o.sum3, [Some(12.0)]);
    assert_eq!(o.split, [split(3, 1.0)]);

    // an empty batch still advances the buffer, and a whole window survives it.
    let o = g.tick(&[]);
    assert_eq!(o.all, [t(3.0), t(4.0), t(5.0)]);
    assert_eq!(o.fresh, []);
    assert_eq!(o.sum3, []);
    assert_eq!(o.split, [split(3, 0.0)]);
}

/// Flattening and glancing see `fresh` only: a buffer must be indistinguishable from the series it
/// retains.
#[test]
fn flat_reads_fresh_only() {
    #[derive(Default)]
    struct Rec {
        hist: Option<(usize, Vec<f64>)>,
        src: Option<(usize, Vec<f64>)>,
        glances: Vec<String>,
    }

    impl Observer<F64> for Rec {
        fn want(&self, _: &str) -> Want {
            Want::Vals
        }

        fn on(&mut self, node: &str, _: &[String], _: &[bool], fire: Fire<'_, F64>) {
            let slot = if node.contains("Buffer") {
                &mut self.hist
            } else if node.ends_with("Src") {
                &mut self.src
            } else {
                return;
            };
            let vals = fire.vals.map(|v| v.iter().map(|x| x.0).collect()).unwrap_or_default();
            *slot = Some((fire.fires, vals));
            self.glances.push(String::from(fire.glance));
        }
    }

    let mut hist: Buffer<Src, Elems<3>> = buffer();
    let (warm, observed) = ([t(1.0), t(2.0)], [t(7.0), t(8.0)]);
    step(Cons::<Src, Nil> { out: &warm, tail: Nil }, &mut hist);

    let (mut rec, mut sweep) = (Rec::default(), Sweep::new());
    let f = Cons::<Src, Nil> { out: &observed, tail: Nil };
    observe_root::<F64, Src, _>(f.head(), &mut sweep, &mut rec);
    step_obs(f, &mut hist, &mut sweep, &mut rec);
    assert_eq!(rec.hist, rec.src, "a buffer's fire must match its source's");
    assert_eq!(rec.hist, Some((2, vec![8.0])));
    assert_eq!(rec.glances[0], rec.glances[1], "a buffer's glance must match its source's");
}

/// Retention over an irregular stream: what a window reaches back over is wall clock, so a gap wider
/// than it leaves the current element alone in it rather than a stale one.
#[test]
fn window_is_wall_clock_and_declines_until_the_watermark_clears() {
    let mut hist: Buffer<Src, Over<10_000>> = buffer();
    let (start, on, after_gap) = ([t(0.0), t(3.0), t(6.0)], [t(12.0)], [t(40.0)]);

    // nothing before the first element seen is claimed, so a 10s window over a 6s-old run is
    // incomplete, where "have I been running long enough" would be a guess.
    let h = step(Cons::<Src, Nil> { out: &start, tail: Nil }, &mut hist).head();
    assert_eq!(h.trailing_at(2).map(|w| w.0.to_vec()), None);

    // a whole span past the first element: the window begins strictly inside `t - 10s`.
    let h = step(Cons::<Src, Nil> { out: &on, tail: Nil }, &mut hist).head();
    assert_eq!(h.trailing_at(0).map(|w| w.0.to_vec()), Some(vec![t(3.0), t(6.0), t(12.0)]));

    // a gap wider than the span: one element, not a window reaching 28s back.
    let h = step(Cons::<Src, Nil> { out: &after_gap, tail: Nil }, &mut hist).head();
    assert_eq!(h.past(), [t(3.0), t(6.0), t(12.0)], "retention keys on the pre-batch newest");
    assert_eq!(h.trailing_at(0).map(|w| w.0.to_vec()), Some(vec![t(40.0)]));
}

/// Arming is its own lane, so the series can keep flowing while the consumer is dark.
struct Trig;

impl Cell for Trig {
    type Out<'t> = &'t [f64];
    type Gates = No;

    fn name() -> String {
        String::from("Trig")
    }

    fn facts() -> Facts {
        Facts::bare()
    }

    fn opens<'t>(_: &'t [f64]) -> bool {
        true
    }
}

/// `(tick within the episode, elements the window stood at)`: the second is what makes a *cold* buffer
/// observable from outside the graph.
#[derive(Clone, Copy, Debug, PartialEq)]
struct Phase(u32, usize);

impl Episode for Phase {
    fn terminal(&self) -> bool {
        self.0 >= 2
    }
}

#[derive(Default)]
struct Live {
    armed: bool,
}

impl Cell for Live {
    type Out<'t> = bool;
    type Gates = No;

    fn name() -> String {
        String::from("Live")
    }

    fn facts() -> Facts {
        Facts::bare()
    }

    fn opens<'t>(_: bool) -> bool {
        true
    }
}

impl Node for Live {
    type Deps = (Trig, ());

    fn advance<'t>(&'t mut self, deps: (&'t [f64], ())) -> bool {
        self.armed |= !deps.0.is_empty();
        self.armed
    }
}

impl Gate for Live {}

impl Latch for Live {
    type Cut = Episodic;

    fn commutate(&mut self) {
        self.armed = false;
    }

    fn standing(&self) -> bool {
        self.armed
    }
}

/// The revivable consumer: `t` makes a reset observable, the window length it reports makes a
/// *cold* buffer observable.
#[derive(Default)]
struct Episodic {
    t: u32,
}

impl Cell for Episodic {
    type Out<'t> = Option<Phase>;
    type Gates = No;

    fn name() -> String {
        String::from("Episodic")
    }

    fn facts() -> Facts {
        Facts::bare()
    }

    fn opens<'t>(_: Option<Phase>) -> bool {
        true
    }
}

impl Node for Episodic {
    type Deps = (Gating<Live>, (Buffering<Src, Elems<3>>, ()));

    fn advance<'t>(&'t mut self, deps: (bool, (Hist<'t, Tick>, ()))) -> Option<Phase> {
        assert!(deps.0, "a gating dep reads true inside `advance`");
        self.t += 1;
        Some(Phase(self.t, deps.1.0.trailing_at(0).map_or(0, |w| w.0.len())))
    }
}

struct L {
    hist: Buffer<Src, Elems<3>>,
    live: Live,
    episodic: Episodic,
    cut: bool,
}

impl L {
    fn tick(&mut self, src: &[Tick], trig: &[f64]) -> (Option<Phase>, Vec<Tick>) {
        if self.cut {
            self.live.commutate();
            self.episodic = Episodic::default();
            self.cut = false;
        }
        let f = Cons::<Src, Nil> { out: src, tail: Nil };
        let f = Cons::<Trig, _> { out: trig, tail: f };
        let f = step(f, &mut self.hist);
        let all = f.head().all().to_vec();
        let f = step(f, &mut self.live);
        let f = step(f, &mut self.episodic);
        let out = f.head();
        self.cut = out.terminal();
        (out, all)
    }
}

/// A latch commutation resets the gated consumer and leaves the buffer whole.
#[test]
fn latch_resets_consumer_not_buffer() {
    let mut l = L { hist: buffer(), live: Live::default(), episodic: Episodic::default(), cut: false };
    let src: Vec<[Tick; 1]> = (1..=7).map(|i| [t(f64::from(i))]).collect();
    let (arm, idle): (&[f64], &[f64]) = (&[1.0], &[]);

    // dark: the consumer never advances, yet the buffer fills: that is the whole feature.
    for x in &src[..3] {
        let o = l.tick(x, idle);
        assert_eq!(o.0, None);
    }

    // armed: full window on its very first tick back, no re-warm.
    let o = l.tick(&src[3], arm);
    assert_eq!(o.0, Some(Phase(1, 3)));
    assert_eq!(o.1, [t(1.0), t(2.0), t(3.0), t(4.0)]);
    let o = l.tick(&src[4], idle);
    assert_eq!(o.0, Some(Phase(2, 3)));

    // commutated: consumer reset, buffer untouched.
    let o = l.tick(&src[5], idle);
    assert_eq!(o.0, None);
    assert_eq!(o.1, [t(3.0), t(4.0), t(5.0), t(6.0)]);

    // revived: `t` restarted, the window did not.
    let o = l.tick(&src[6], arm);
    assert_eq!(o.0, Some(Phase(1, 3)), "revived warm: a client-owned window would read 0 here");
}
