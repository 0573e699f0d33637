//! A heavy root enters the frame borrowed, and a node hands root-borrowed data downstream.

use trading_data::cell::{Cell, Cons, Facts, Nil, No};
use trading_data::node::{step, Node};

struct Book {
    bids: Vec<(i64, u64)>,
    asks: Vec<(i64, u64)>,
}

struct BookC;

impl Cell for BookC {
    type Out<'t> = &'t Book;
    type Gates = No;

    fn name() -> String {
        String::from("BookC")
    }

    fn facts() -> Facts {
        Facts::bare()
    }

    fn opens<'t>(_: &'t Book) -> bool {
        true
    }
}

struct BestBid;

impl Cell for BestBid {
    type Out<'t> = Option<&'t (i64, u64)>;
    type Gates = No;

    fn name() -> String {
        String::from("BestBid")
    }

    fn facts() -> Facts {
        Facts::bare()
    }

    fn opens<'t>(_: Option<&'t (i64, u64)>) -> bool {
        true
    }
}

impl Node for BestBid {
    type Deps = (BookC, ());

    fn advance<'t>(&'t mut self, deps: (&'t Book, ())) -> Option<&'t (i64, u64)> {
        deps.0.bids.first()
    }
}

struct Mid;

impl Cell for Mid {
    type Out<'t> = Option<f64>;
    type Gates = No;

    fn name() -> String {
        String::from("Mid")
    }

    fn facts() -> Facts {
        Facts::bare()
    }

    fn opens<'t>(_: Option<f64>) -> bool {
        true
    }
}

impl Node for Mid {
    type Deps = (BookC, (BestBid, ()));

    fn advance<'t>(&'t mut self, deps: (&'t Book, (Option<&'t (i64, u64)>, ()))) -> Option<f64> {
        let bid = deps.1.0?.0;
        let ask = deps.0.asks.first()?.0;
        Some((bid + ask) as f64 / 2.0)
    }
}

// what `advance` lends is capped by the node borrow, so it cannot escape the frame: asserted in place
// while the (stateless) nodes are alive.
fn check(book: &Book, expect: (Option<&(i64, u64)>, Option<f64>)) {
    let (mut best_bid, mut mid) = (BestBid, Mid);
    let f = Cons::<BookC, Nil> { out: book, tail: Nil };
    let f = step(f, &mut best_bid);
    let f = step(f, &mut mid);
    assert_eq!((f.tail.head(), f.head()), expect);
}

#[test]
fn borrowed_root_flows_through_frame() {
    let mut book = Book {
        bids: vec![(100, 5)],
        asks: vec![(102, 7)],
    };
    check(&book, (Some(&(100, 5)), Some(101.0)));

    book.bids.clear();
    check(&book, (None, None));

    book.bids.push((99, 3));
    book.asks[0] = (103, 1);
    check(&book, (Some(&(99, 3)), Some(101.0)));
}
