//! A graph under an assignment of what gates it.

use trading_data::horizon::{Horizon, Timeframe};
use trading_data::shape::{Fidelity, Kind, NodeShape, Pin, Shape};

fn node(name: &'static str, kind: Kind, deps: &'static [usize], gates: &'static [bool]) -> NodeShape {
    NodeShape {
        name,
        kind,
        clock: None,
        fidelity: Fidelity::Exact,
        anchored: false,
        rewarms: true,
        pin: Pin::Free,
        rewinds: false,
        field: None,
        deps,
        dep_gates: gates,
        dep_folds: &[false, false],
        dep_retains: &[false, false],
        dep_reach: &[Horizon::Unit, Horizon::Unit],
        demand: &[&[]],
    }
}

fn graph() -> Shape {
    Shape {
        graph: "G",
        nodes: Vec::leak(vec![
            NodeShape { field: Some("feed"), ..node("a::Feed", Kind::Root, &[], &[]) },
            NodeShape { pin: Pin::Gate, ..node("a::Hot", Kind::Gate, &[0], &[false]) },
            NodeShape {
                demand: &[&[1]],
                rewinds: true,
                fidelity: Fidelity::Partial("one \"side\""),
                ..node("a::Hist<b::Inner>", Kind::Node, &[0], &[false])
            },
            NodeShape {
                pin: Pin::Output,
                field: Some("seen"),
                clock: Some(Timeframe(60_000)),
                ..node("a::Seen", Kind::Node, &[1, 2], &[true, false])
            },
        ]),
    }
}

#[test]
fn what_gates_a_graph_is_named_as_the_picture_names_it() {
    let g = graph();
    assert_eq!(g.gates(), ["Hot"]);
    assert!(g.accepts(&[("Hot", true)]));
    assert!(!g.accepts(&[]));
    assert!(!g.accepts(&[("Hot", true), ("Hot", false)]));
    assert!(!g.accepts(&[("Cold", true)]));
}

#[test]
fn a_shut_contact_darkens_what_only_it_demands() {
    let g = graph();
    assert_eq!(g.under(&[("Hot", true)]).live(), [true, true, true, true]);
    assert_eq!(g.under(&[("Hot", false)]).live(), [true, true, false, false]);
}

#[test]
fn a_picture_under_an_assignment_says_who_sleeps() {
    let g = graph();
    let state = [("Hot", false)];
    let got = g.under(&state).picture();
    let want = r#"graph G  ·  Hot=closed

╷ Feed              root feed
├─╮
│ ● Hot               gate  pin·gate
╰ │
░⟲ │ Hist<Inner>        node  Partial("one \"side\"")
╰─╌
░ Seen              @1m  node  pin·output  ⊣Hot  →out seen

legend  ╷root ●live ░dark ⟲needs-a-rewinding-past  ⊣gating ⟳folding ⌸buffering ·sampling
2 of 4 dark"#;
    assert_eq!(got, want);
}
