//! Latch semantics: an external trigger arms, the gated episode runs to its terminal out (published
//! that tick), commutation after the sweep drops the latch and resets the gated node, and the next
//! trigger starts a fresh episode. A trigger during a live episode, its terminal tick included, is
//! absorbed and lost to commutation.

use trading_data::cell::{Cell, Cons, Facts, Nil, No};
use trading_data::latch::{Episode, Gate, Gating, Latch};
use trading_data::node::{step, Node};

#[derive(Clone, Copy, Debug)]
struct Pulse;

struct Trig;

impl Cell for Trig {
    type Out<'t> = Option<Pulse>;
    type Gates = No;

    fn name() -> String {
        String::from("Trig")
    }

    fn facts() -> Facts {
        Facts::bare()
    }

    fn opens<'t>(_: Option<Pulse>) -> bool {
        true
    }
}

#[derive(Clone, Copy, Debug, PartialEq)]
enum Phase {
    Degrading(u32),
    Done,
}

impl Episode for Phase {
    fn terminal(&self) -> bool {
        matches!(self, Phase::Done)
    }
}

#[derive(Default)]
struct Live {
    armed: bool,
}

impl Cell for Live {
    type Out<'t> = bool;
    type Gates = No;

    fn name() -> String {
        String::from("Live")
    }

    fn facts() -> Facts {
        Facts::bare()
    }

    fn opens<'t>(_: bool) -> bool {
        true
    }
}

impl Node for Live {
    type Deps = (Trig, ());

    fn advance<'t>(&'t mut self, deps: (Option<Pulse>, ())) -> bool {
        self.armed |= deps.0.is_some();
        self.armed
    }
}

impl Gate for Live {}

impl Latch for Live {
    type Cut = Deprec;

    fn commutate(&mut self) {
        self.armed = false;
    }

    fn standing(&self) -> bool {
        self.armed
    }
}

/// Episode: two degrading ticks, terminal on the third. Fresh from `Default`.
#[derive(Default)]
struct Deprec {
    t: u32,
}

impl Cell for Deprec {
    type Out<'t> = Option<Phase>;
    type Gates = No;

    fn name() -> String {
        String::from("Deprec")
    }

    fn facts() -> Facts {
        Facts::bare()
    }

    fn opens<'t>(_: Option<Phase>) -> bool {
        true
    }
}

impl Node for Deprec {
    type Deps = (Gating<Live>, (Trig, ()));

    fn advance<'t>(&'t mut self, _: (bool, (Option<Pulse>, ()))) -> Option<Phase> {
        self.t += 1;
        Some(if self.t >= 3 { Phase::Done } else { Phase::Degrading(self.t) })
    }
}

/// Ungated bystander: commutation must not reset it.
#[derive(Default)]
struct Ticks {
    n: u32,
}

impl Cell for Ticks {
    type Out<'t> = f64;
    type Gates = No;

    fn name() -> String {
        String::from("Ticks")
    }

    fn facts() -> Facts {
        Facts::bare()
    }

    fn opens<'t>(_: f64) -> bool {
        true
    }
}

impl Node for Ticks {
    type Deps = (Trig, ());

    fn advance<'t>(&'t mut self, _: (Option<Pulse>, ())) -> f64 {
        self.n += 1;
        self.n as f64
    }
}

#[derive(Default)]
struct G {
    live: Live,
    deprec: Deprec,
    ticks: Ticks,
    cut: bool,
}

struct Out {
    live: bool,
    deprec: Option<Phase>,
    ticks: f64,
}

impl G {
    fn tick(&mut self, trig: Option<Pulse>) -> Out {
        if self.cut {
            self.live.commutate();
            self.deprec = Deprec::default();
            self.cut = false;
        }
        let f = Cons::<Trig, Nil> { out: trig, tail: Nil };
        let f = step(f, &mut self.live);
        let live = f.head();
        let f = step(f, &mut self.deprec);
        let deprec = f.head();
        let f = step(f, &mut self.ticks);
        self.cut = deprec.terminal();
        Out { live, deprec, ticks: f.head() }
    }
}

#[test]
fn arm_terminal_commutate_rearm() {
    let mut g = G::default();

    // idle: latch down, episode latent.
    let o = g.tick(None);
    assert!(!o.live);
    assert_eq!(o.deprec, None);

    // external trigger arms; episode starts.
    let o = g.tick(Some(Pulse));
    assert!(o.live);
    assert_eq!(o.deprec, Some(Phase::Degrading(1)));

    let o = g.tick(None);
    assert_eq!(o.deprec, Some(Phase::Degrading(2)));

    // terminal tick: its out is published; the trigger this tick is absorbed and lost.
    let o = g.tick(Some(Pulse));
    assert!(o.live);
    assert_eq!(o.deprec, Some(Phase::Done));

    // commutated: latch down, subtree latent, the during-episode trigger did not re-arm.
    let o = g.tick(None);
    assert!(!o.live);
    assert_eq!(o.deprec, None);

    // re-trigger: fresh episode from `Default`, not a stale t=3.
    let o = g.tick(Some(Pulse));
    assert!(o.live);
    assert_eq!(o.deprec, Some(Phase::Degrading(1)));

    // bystander never reset: counted every tick.
    assert_eq!(o.ticks, 6.0);
}
