//! A node that states its own publish rate, and the engine that owns the boundary.

use trading_data::cell::{Cell, Cons, Facts, Folding, Nil, No};
use trading_data::emit::{step_emit, Emit, Emitter};
use trading_data::horizon::{Horizon, Over, Timeframe};
use trading_data::node::step;
use trading_data::rows::{Present, Rows};
use trading_data::series::{Latest, Sampling, Series};
use trading_data::stamped::Stamped;

const MIN: Timeframe = Timeframe(60_000);

/// One unit of `v` is one second of `ts`, so a fixture's numbers double as its timeline.
#[derive(Clone, Copy, Debug, PartialEq)]
struct Tick {
    ts: i64,
    v: f64,
}

fn t(v: f64) -> Tick {
    Tick { ts: (v * 1e9) as i64, v }
}

impl Stamped for Tick {
    fn ts_ns(&self) -> i64 {
        self.ts
    }
}

impl Present for Tick {
    type Val = Tick;

    fn present(self) -> Option<Tick> {
        Some(self)
    }
}

struct Src;

impl Cell for Src {
    type Out<'t> = &'t [Tick];
    type Gates = No;

    fn name() -> String {
        String::from("Src")
    }

    fn facts() -> Facts {
        Facts::bare()
    }

    fn opens<'t>(_: &'t [Tick]) -> bool {
        true
    }
}

impl Series for Src {
    type Item = Tick;
    type Batch = Rows<Tick>;
}

/// Publishes the level it stands on once a minute, and states so. Nothing in `emit` knows what a
/// period is: the rate is declared, not re-derived from whatever arrived.
struct Minutely;

impl Cell for Minutely {
    type Out<'t> = &'t [f64];
    type Gates = No;

    fn name() -> String {
        String::from("Minutely")
    }

    fn facts() -> Facts {
        Facts::bare().clocked(MIN)
    }

    fn opens<'t>(_: &'t [f64]) -> bool {
        true
    }
}

impl Series for Minutely {
    type Item = f64;
    type Batch = Rows<f64>;
}

impl Emit for Minutely {
    type Deps = (Sampling<Src>, ());

    fn emit<'t>(&mut self, deps: (Option<Tick>, ()), out: &mut Vec<f64>) {
        out.extend(deps.0.map(|x| x.v));
    }
}

/// The same reading with no clock: it republishes on every tick.
struct Continuous;

impl Cell for Continuous {
    type Out<'t> = &'t [f64];
    type Gates = No;

    fn name() -> String {
        String::from("Continuous")
    }

    fn facts() -> Facts {
        Facts::bare()
    }

    fn opens<'t>(_: &'t [f64]) -> bool {
        true
    }
}

impl Series for Continuous {
    type Item = f64;
    type Batch = Rows<f64>;
}

impl Emit for Continuous {
    type Deps = (Sampling<Src>, ());

    fn emit<'t>(&mut self, deps: (Option<Tick>, ()), out: &mut Vec<f64>) {
        out.extend(deps.0.map(|x| x.v));
    }
}

/// The accumulator shape: the same rate, held by the node instead of the engine.
struct Closes(Option<(i64, f64)>);

impl Cell for Closes {
    type Out<'t> = &'t [f64];
    type Gates = No;

    fn name() -> String {
        String::from("Closes")
    }

    fn facts() -> Facts {
        Facts::bare().clocked(MIN)
    }

    fn opens<'t>(_: &'t [f64]) -> bool {
        true
    }
}

impl Series for Closes {
    type Item = f64;
    type Batch = Rows<f64>;
}

impl Emit for Closes {
    type Deps = (Folding<Src, Over<60_000>>, ());

    fn emit<'t>(&mut self, deps: (&'t [Tick], ()), out: &mut Vec<f64>) {
        for x in deps.0 {
            let period = x.ts / (MIN.0 * 1_000_000) as i64;
            match &mut self.0 {
                Some((p, v)) if *p == period => *v = x.v,
                slot => {
                    if let Some((_, done)) = slot.replace((period, x.v)) {
                        out.push(done);
                    }
                }
            }
        }
    }
}

/// Downstream of an accumulator and clocked to the same period. Its input is this tick's batch and no
/// other, so the rate it declares is one it inherits.
struct Joined;

impl Cell for Joined {
    type Out<'t> = &'t [f64];
    type Gates = No;

    fn name() -> String {
        String::from("Joined")
    }

    fn facts() -> Facts {
        Facts::bare().clocked(MIN)
    }

    fn opens<'t>(_: &'t [f64]) -> bool {
        true
    }
}

impl Series for Joined {
    type Item = f64;
    type Batch = Rows<f64>;
}

impl Emit for Joined {
    type Deps = (Closes, ());

    fn emit<'t>(&mut self, deps: (&'t [f64], ()), out: &mut Vec<f64>) {
        out.extend(deps.0);
    }
}

/// `Elems(n)` is a count until the producer's clock says what it is worth in wall clock.
#[test]
fn a_count_is_worth_what_its_clock_says() {
    let clock = <Minutely as Cell>::facts().clock.unwrap();
    assert_eq!(Horizon::Elems(14).span(clock), Timeframe(14 * 60_000));
    assert_eq!(Horizon::Over(Timeframe(300_000)).span(clock), Timeframe(300_000));
    assert_eq!(Horizon::Unit.span(clock), Timeframe(60_000));
}

/// A tick timeline and how the message stream is cut across it in, the series out.
fn run(ticks: &[(f64, Vec<Tick>)]) -> (Vec<f64>, Vec<f64>, Vec<f64>, Vec<f64>) {
    let mut level = Latest::<Src> { held: None };
    let (mut minutely, mut continuous) = (Emitter::new(Minutely), Emitter::new(Continuous));
    let (mut closes, mut joins) = (Emitter::new(Closes(None)), Emitter::new(Joined));
    let (mut clocked, mut every, mut closed, mut joined) = (Vec::new(), Vec::new(), Vec::new(), Vec::new());
    for (at, batch) in ticks {
        let ts = (at * 1e9) as i64;
        let f = Cons::<Src, Nil> { out: batch, tail: Nil };
        let f = step(f, &mut level);
        let f = step_emit(f, &mut minutely, true, ts);
        clocked.extend(f.head());
        let f = step_emit(f, &mut continuous, true, ts);
        every.extend(f.head());
        let f = step_emit(f, &mut closes, true, ts);
        closed.extend(f.head());
        let f = step_emit(f, &mut joins, true, ts);
        joined.extend(f.head());
    }
    (clocked, every, closed, joined)
}

/// Ticks every ten seconds over three minutes: the timeline every cut below shares.
fn timeline() -> Vec<f64> {
    (0..=18).map(|i| (i * 10) as f64).collect()
}

/// The message stream: one item mid-decade, so no item ever falls on a tick or on a boundary.
fn items() -> Vec<Tick> {
    (0..18).map(|i| t((i * 10 + 5) as f64)).collect()
}

/// Each item in the first tick at or after its own timestamp.
fn eager() -> Vec<(f64, Vec<Tick>)> {
    timeline()
        .into_iter()
        .map(|at| (at, items().into_iter().filter(|x| (x.v > at - 10.0) && x.v <= at).collect()))
        .collect()
}

/// A minute's items all arrive in the tick that closes it.
fn per_minute() -> Vec<(f64, Vec<Tick>)> {
    timeline()
        .into_iter()
        .map(|at| (at, items().into_iter().filter(|x| (x.v > at - 60.0) && x.v <= at && at % 60.0 == 0.0).collect()))
        .collect()
}

/// A batch cut by the boundary tick: the last two items of each minute arrive together on it.
fn straddling() -> Vec<(f64, Vec<Tick>)> {
    timeline()
        .into_iter()
        .map(|at| {
            let straddle = at % 60.0 == 0.0;
            let reach = if straddle { 20.0 } else { 10.0 };
            (
                at,
                items()
                    .into_iter()
                    .filter(|x| x.v > at - reach && x.v <= at && (straddle || (at + 10.0) % 60.0 != 0.0))
                    .collect(),
            )
        })
        .collect()
}

/// Four periods are ticked, and the first of them has nothing to publish yet: the clock fires four
/// times and speaks three, where the same node unclocked speaks on every tick it is warm for.
#[test]
fn a_clock_publishes_once_per_period() {
    let (clocked, every, ..) = run(&eager());
    assert_eq!(clocked, [55.0, 115.0, 175.0], "one reading per closed minute, taken at the boundary");
    assert_eq!(every.len(), 18, "the unclocked twin stands on the same level and republishes it every tick it has one");
}

/// How the messages of a period were cut across its ticks is not something the node clocked to it can
/// see.
#[test]
fn a_cut_within_the_period_does_not_move_the_reading() {
    let eager = run(&eager()).0;
    assert_eq!(eager, run(&per_minute()).0, "six batches or one, the level at the boundary is the same level");
    assert_eq!(eager, run(&straddling()).0, "a batch the boundary tick cuts is still wholly behind it");
}

/// The control: the same cuts through the *unclocked* twin disagree, so the comparison above is one
/// that can fail.
#[test]
fn an_unclocked_node_sees_the_cut() {
    assert_ne!(run(&eager()).1, run(&per_minute()).1, "a cut is visible to a node with no clock");
}

/// A declared rate is not licence to withhold a tick. `Joined`'s input is this tick's batch, so a
/// tick it does not run on is a batch nobody sees again.
#[test]
fn a_clocked_node_reading_a_batch_is_not_withheld_a_tick() {
    for (name, cut) in [("eager", eager()), ("per minute", per_minute()), ("straddling", straddling())] {
        let (.., closed, joined) = run(&cut);
        assert_eq!(closed, joined, "{name}: what an accumulator published, the node clocked to the same period read");
        assert!(!closed.is_empty(), "{name}: a comparison of two empty vectors proves nothing");
    }
}

/// Periods are floored from the epoch, so the minute before it and the minute after it are two.
#[test]
fn a_clock_tells_the_minutes_either_side_of_the_epoch_apart() {
    let mut clocked = Emitter::new(Minutely);
    assert!(clocked.opens(-61_000_000_000));
    assert!(clocked.opens(-60_000_000_000));
    assert!(!clocked.opens(-1));
    assert!(clocked.opens(0));
    assert!(!clocked.opens(59_999_999_999));
    assert!(clocked.opens(60_000_000_000));
    assert!(clocked.opens(i64::MIN));
    assert!(!clocked.opens(i64::MIN));
}
