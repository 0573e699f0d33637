//! Closed, what gates a node skips the node's advance entirely, while its unbounded deps keep warming.

use trading_data::cell::{Cell, Cons, Facts, Nil, No};
use trading_data::latch::{Gate, Gating};
use trading_data::node::{step, Node};

struct Feed;

impl Cell for Feed {
    type Out<'t> = f64;
    type Gates = No;

    fn name() -> String {
        String::from("Feed")
    }

    fn facts() -> Facts {
        Facts::bare()
    }

    fn opens<'t>(_: f64) -> bool {
        true
    }
}

#[derive(Default)]
struct Hist {
    calls: u32,
}

impl Cell for Hist {
    type Out<'t> = Option<f64>;
    type Gates = No;

    fn name() -> String {
        String::from("Hist")
    }

    fn facts() -> Facts {
        Facts::bare()
    }

    fn opens<'t>(_: Option<f64>) -> bool {
        true
    }
}

impl Node for Hist {
    type Deps = (Feed, ());

    fn advance<'t>(&'t mut self, deps: (f64, ())) -> Option<f64> {
        self.calls += 1;
        Some(deps.0 * 2.0)
    }
}

struct Hot;

impl Cell for Hot {
    type Out<'t> = bool;
    type Gates = No;

    fn name() -> String {
        String::from("Hot")
    }

    fn facts() -> Facts {
        Facts::bare()
    }

    fn opens<'t>(_: bool) -> bool {
        true
    }
}

impl Node for Hot {
    type Deps = (Feed, ());

    fn advance<'t>(&'t mut self, deps: (f64, ())) -> bool {
        deps.0 > 0.0
    }
}

impl Gate for Hot {}

#[derive(Default)]
struct Gated {
    calls: u32,
}

impl Cell for Gated {
    type Out<'t> = Option<f64>;
    type Gates = No;

    fn name() -> String {
        String::from("Gated")
    }

    fn facts() -> Facts {
        Facts::bare()
    }

    fn opens<'t>(_: Option<f64>) -> bool {
        true
    }
}

impl Node for Gated {
    type Deps = (Gating<Hot>, (Hist, ()));

    fn advance<'t>(&'t mut self, deps: (bool, (Option<f64>, ()))) -> Option<f64> {
        assert!(deps.0, "a gating dep reads true inside `advance`");
        self.calls += 1;
        deps.1.0
    }
}

fn tick(feed: f64, hist: &mut Hist, gated: &mut Gated) -> Option<f64> {
    let mut hot = Hot;
    let f = Cons::<Feed, Nil> { out: feed, tail: Nil };
    let f = step(f, hist);
    let f = step(f, &mut hot);
    let f = step(f, gated);
    f.head()
}

#[test]
fn closed_gate_skips_gated_node_but_not_its_unbounded_dep() {
    let (mut hist, mut gated) = (Hist::default(), Gated::default());

    assert_eq!(tick(-1.0, &mut hist, &mut gated), None);
    assert_eq!((hist.calls, gated.calls), (1, 0));

    assert_eq!(tick(2.0, &mut hist, &mut gated), Some(4.0));
    assert_eq!((hist.calls, gated.calls), (2, 1));

    assert_eq!(tick(-3.0, &mut hist, &mut gated), None);
    assert_eq!((hist.calls, gated.calls), (3, 1));
}
