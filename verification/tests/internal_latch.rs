//! The *internal* latch: the arm is a graph node rather than a root. The contact a node arms is the
//! one its own terminal out cuts, and the episode is a run: the engine owns it, so dark is the empty
//! one.

use trading_data::cell::{Cell, Cons, Facts, Nil, No};
use trading_data::emit::{step_emit, Emit, Emitter};
use trading_data::latch::{Armed, Episode, Episodic, Gate, Gating, Latch};
use trading_data::node::{step, Node};
use trading_data::rows::Rows;
use trading_data::series::Series;

#[derive(Clone, Copy, Debug, PartialEq)]
struct Pulse;

/// Arms the episode.
struct Trig;

impl Cell for Trig {
    type Out<'t> = &'t [Pulse];
    type Gates = No;

    fn name() -> String {
        String::from("Trig")
    }

    fn facts() -> Facts {
        Facts::bare()
    }

    fn opens<'t>(_: &'t [Pulse]) -> bool {
        true
    }
}

/// Drives it: one element per tick, independent of the trigger.
struct Feed;

impl Cell for Feed {
    type Out<'t> = &'t [Pulse];
    type Gates = No;

    fn name() -> String {
        String::from("Feed")
    }

    fn facts() -> Facts {
        Facts::bare()
    }

    fn opens<'t>(_: &'t [Pulse]) -> bool {
        true
    }
}

/// Drives what gates the arm leg. Closing that mid-episode must not cut the latch.
struct Sw;

impl Cell for Sw {
    type Out<'t> = &'t [bool];
    type Gates = No;

    fn name() -> String {
        String::from("Sw")
    }

    fn facts() -> Facts {
        Facts::bare()
    }

    fn opens<'t>(_: &'t [bool]) -> bool {
        true
    }
}

#[derive(Default)]
struct Open(bool);

impl Cell for Open {
    type Out<'t> = bool;
    type Gates = No;

    fn name() -> String {
        String::from("Open")
    }

    fn facts() -> Facts {
        Facts::bare()
    }

    fn opens<'t>(_: bool) -> bool {
        true
    }
}

impl Node for Open {
    type Deps = (Sw, ());

    fn advance<'t>(&'t mut self, deps: (&'t [bool], ())) -> bool {
        if let Some(&b) = deps.0.last() {
            self.0 = b;
        }
        self.0
    }
}

impl Gate for Open {}

/// Witnesses whether the arm leg ran: gated exactly as `Classify` is.
#[derive(Default)]
struct Beat(f64);

impl Cell for Beat {
    type Out<'t> = Option<f64>;
    type Gates = No;

    fn name() -> String {
        String::from("Beat")
    }

    fn facts() -> Facts {
        Facts::bare()
    }

    fn opens<'t>(_: Option<f64>) -> bool {
        true
    }
}

impl Node for Beat {
    type Deps = (Gating<Open>, ());

    fn advance<'t>(&'t mut self, deps: (bool, ())) -> Option<f64> {
        assert!(deps.0, "a gating dep reads true inside `advance`");
        self.0 += 1.0;
        Some(self.0)
    }
}

/// The arm leg: gated on `Open`, so it can go dark while the episode runs.
struct Classify;

impl Cell for Classify {
    type Out<'t> = Option<Pulse>;
    type Gates = No;

    fn name() -> String {
        String::from("Classify")
    }

    fn facts() -> Facts {
        Facts::bare()
    }

    fn opens<'t>(_: Option<Pulse>) -> bool {
        true
    }
}

impl Node for Classify {
    type Deps = (Gating<Open>, (Trig, ()));

    fn advance<'t>(&'t mut self, deps: (bool, (&'t [Pulse], ()))) -> Option<Pulse> {
        assert!(deps.0, "a gating dep reads true inside `advance`");
        deps.1.0.first().copied()
    }
}

#[derive(Clone, Copy, Debug, PartialEq)]
enum Phase {
    Degrading(u32),
    Done,
}

impl Episode for Phase {
    fn terminal(&self) -> bool {
        matches!(self, Phase::Done)
    }
}

/// One element per feed element. On the terminal element it goes idle and keeps pushing `None` for
/// the rest of the batch, so the terminal element is not the last.
#[derive(Default)]
struct Deprec {
    t: u32,
    idle: bool,
}

impl Cell for Deprec {
    type Out<'t> = &'t [Option<Phase>];
    type Gates = No;

    fn name() -> String {
        String::from("Deprec")
    }

    fn facts() -> Facts {
        Facts::bare()
    }

    fn opens<'t>(_: &'t [Option<Phase>]) -> bool {
        true
    }
}

impl Series for Deprec {
    type Item = Option<Phase>;
    type Batch = Rows<Option<Phase>>;
}

impl Emit for Deprec {
    type Deps = (Gating<Armed<Deprec>>, (Classify, (Feed, ())));

    fn emit<'t>(&mut self, deps: (bool, (Option<Pulse>, (&'t [Pulse], ()))), out: &mut Vec<Option<Phase>>) {
        for _ in deps.1.1.0 {
            if self.idle {
                out.push(None);
                continue;
            }
            self.t += 1;
            let phase = if self.t >= 3 { Phase::Done } else { Phase::Degrading(self.t) };
            self.idle = phase.terminal();
            out.push(Some(phase));
        }
    }
}

impl Episodic for Deprec {
    type Trigger = Classify;

    fn arms<'t>(c: Option<Pulse>) -> bool {
        c.is_some()
    }
}

/// A second leg gated on the same latch, and not the one that cuts it.
struct Leg;

impl Cell for Leg {
    type Out<'t> = &'t [Option<Pulse>];
    type Gates = No;

    fn name() -> String {
        String::from("Leg")
    }

    fn facts() -> Facts {
        Facts::bare()
    }

    fn opens<'t>(_: &'t [Option<Pulse>]) -> bool {
        true
    }
}

impl Series for Leg {
    type Item = Option<Pulse>;
    type Batch = Rows<Option<Pulse>>;
}

impl Emit for Leg {
    type Deps = (Gating<Armed<Deprec>>, (Feed, ()));

    fn emit<'t>(&mut self, deps: (bool, (&'t [Pulse], ())), out: &mut Vec<Option<Pulse>>) {
        out.extend(deps.1.0.iter().copied().map(Some));
    }
}

/// Ungated bystander: commutation must not reset it.
#[derive(Default)]
struct Ticks {
    n: u32,
}

impl Cell for Ticks {
    type Out<'t> = f64;
    type Gates = No;

    fn name() -> String {
        String::from("Ticks")
    }

    fn facts() -> Facts {
        Facts::bare()
    }

    fn opens<'t>(_: f64) -> bool {
        true
    }
}

impl Node for Ticks {
    type Deps = (Feed, ());

    fn advance<'t>(&'t mut self, _: (&'t [Pulse], ())) -> f64 {
        self.n += 1;
        self.n as f64
    }
}

struct G {
    open: Open,
    beat: Beat,
    classify: Classify,
    armed: Armed<Deprec>,
    deprec: Emitter<Deprec>,
    leg: Emitter<Leg>,
    ticks: Ticks,
    cut: bool,
}

/// One tick's out, owned.
#[derive(Debug)]
struct Snap {
    armed: bool,
    deprec: Vec<Option<Phase>>,
    leg: Vec<Option<Pulse>>,
    ticks: f64,
    beat: Option<f64>,
}

fn tick(g: &mut G, trig: &[Pulse], feed: &[Pulse], sw: &[bool]) -> Snap {
    if g.cut {
        g.armed.commutate();
        g.deprec.reset(Deprec::default());
        g.leg.reset(Leg);
        g.cut = false;
    }
    let f = Cons::<Trig, Nil> { out: trig, tail: Nil };
    let f = Cons::<Feed, _> { out: feed, tail: f };
    let f = Cons::<Sw, _> { out: sw, tail: f };
    let f = step(f, &mut g.open);
    let f = step(f, &mut g.beat);
    let beat = f.head();
    let f = step(f, &mut g.classify);
    let f = step(f, &mut g.armed);
    let armed = f.head();
    let f = step_emit(f, &mut g.deprec, true, 0);
    let run = f.head();
    let f = step_emit(f, &mut g.leg, true, 0);
    let leg = f.head().to_vec();
    let f = step(f, &mut g.ticks);
    g.cut = run.terminal();
    Snap { armed, deprec: run.to_vec(), leg, ticks: f.head(), beat }
}

const PULSE: &[Pulse] = &[Pulse];
const IDLE: &[Pulse] = &[];
/// Three feed elements in one tick, so a single batch carries the whole episode tail.
const WIDE: &[Pulse] = &[Pulse, Pulse, Pulse];
const OPEN: &[bool] = &[true];
const SHUT: &[bool] = &[false];
/// No switch this tick: it keeps whatever it was set to.
const HOLD: &[bool] = &[];

#[test]
fn arm_from_a_node_hold_through_a_dark_arm_cut_from_within() {
    let mut g = G {
        open: Open::default(),
        beat: Beat::default(),
        classify: Classify,
        armed: Armed::default(),
        deprec: Emitter::new(Deprec::default()),
        leg: Emitter::new(Leg),
        ticks: Ticks::default(),
        cut: false,
    };

    // idle: latch down, both gated legs dark, and dark is the empty run. The arm leg is not gated on
    // the latch, so it advanced.
    let s = tick(&mut g, IDLE, PULSE, OPEN);
    assert!(!s.armed);
    assert_eq!((s.deprec.as_slice(), s.leg.as_slice()), (&[][..], &[][..]));
    assert_eq!(s.beat, Some(1.0));

    // the arm fires: both gated legs come live, from `Default`.
    let s = tick(&mut g, PULSE, PULSE, HOLD);
    assert!(s.armed);
    assert_eq!(s.deprec, [Some(Phase::Degrading(1))]);
    assert_eq!(s.leg, [Some(Pulse)]);
    assert_eq!(s.beat, Some(2.0));

    // the arm's own gate closes mid-episode: the arm goes dark, the latch must hold.
    let s = tick(&mut g, IDLE, PULSE, SHUT);
    assert!(s.armed);
    assert_eq!(s.deprec, [Some(Phase::Degrading(2))]);
    assert_eq!(s.beat, None, "the arm leg is dark: what gates it is closed");

    // a trigger during the episode is absorbed, not a restart.
    let s = tick(&mut g, PULSE, WIDE, OPEN);
    assert!(s.armed);
    // the terminal element is *not* last: a run is over if any element is.
    assert_eq!(s.deprec, [Some(Phase::Done), None, None]);
    assert_eq!(s.leg.len(), 3);

    // commutated: latch down, both legs dark, and the during-episode trigger did not re-arm.
    let s = tick(&mut g, IDLE, PULSE, HOLD);
    assert!(!s.armed, "the terminal element cut the latch");
    assert_eq!((s.deprec.as_slice(), s.leg.as_slice()), (&[][..], &[][..]));

    // re-arm: fresh episode from `Default`, while the ungated `beat` kept climbing across the one
    // tick it was dark for.
    let s = tick(&mut g, PULSE, PULSE, HOLD);
    assert!(s.armed);
    assert_eq!(s.deprec, [Some(Phase::Degrading(1))]);
    assert_eq!(s.beat, Some(5.0), "six ticks, one of them with the arm leg dark");

    // ungated bystander: never reset, counted every tick.
    assert_eq!(s.ticks, 6.0);
}
