//! The book under observation: what it shows, and that nothing moves it a little.

use core::marker::PhantomData;

use trading_data::book::{Book, BookShape};
use trading_data::cell::{Cell, Cons, Facts, Nil, No};
use trading_data::cells::{BookAnchors, BookDeltas};
use trading_data::chunk::BookChunk;
use trading_data::delta::{BookDelta, FrameKind};
use trading_data::flat::Number;
use trading_data::horizon::{Horizon, Over, Timeframe};
use trading_data::level::Refired;
use trading_data::node::{step, Node};
use trading_data::nudge::{refire, Blind, Nudge, Restep};
use trading_data::observe::{Fire, Observer, Sweep};
use trading_data::plot::Plot;
use trading_data::precision::{Precision, PrecisionPriceQty};
use trading_data::retain::Batch;
use trading_data::scalar::Scalar;
use trading_data::series::Buffer;
use trading_data::shape::Fidelity;
use trading_data::side::Side;
use trading_data::sweep::{step_obs, Observed};
use trading_data::ts::{Aggregate, Ts};
use trading_data::want::Want;

/// A machine float as a scalar.
#[derive(Clone, Copy, Debug, PartialEq, PartialOrd)]
struct F64(f64);

impl Scalar for F64 {
    fn zero_equals_zero() {}

    fn one_is_not_zero() {}

    fn none_is_absent() {}

    fn of(n: i64) -> Self {
        F64(n as f64)
    }

    fn nan() -> Self {
        F64(f64::NAN)
    }

    fn is_nan(self) -> bool {
        self.0.is_nan()
    }

    fn add(self, other: Self) -> Self {
        F64(self.0 + other.0)
    }

    fn sub(self, other: Self) -> Self {
        F64(self.0 - other.0)
    }

    fn mul(self, other: Self) -> Self {
        F64(self.0 * other.0)
    }

    fn div(self, other: Self) -> Self {
        F64(self.0 / other.0)
    }

    fn neg(self) -> Self {
        F64(-self.0)
    }

    fn abs(self) -> Self {
        F64(self.0.abs())
    }

    fn sqrt(self) -> Self {
        F64(self.0.sqrt())
    }

    fn exp(self) -> Self {
        F64(self.0.exp())
    }

    fn min(self, other: Self) -> Self {
        F64(self.0.min(other.0))
    }

    fn max(self, other: Self) -> Self {
        F64(self.0.max(other.0))
    }

    fn lt(self, other: Self) -> bool {
        self.0 < other.0
    }

    fn same(self, other: Self) -> bool {
        self.0 == other.0
    }

    fn round(self) -> i64 {
        self.0.round() as i64
    }

    fn is_broken(self) -> bool {
        self.0.fract() != 0.0
    }

    fn text(self) -> String {
        format!("{}", self.0)
    }

    fn text_to(self, places: usize) -> String {
        format!("{:.*}", places, self.0)
    }
}

fn prec() -> PrecisionPriceQty {
    PrecisionPriceQty::new(Precision(2), Precision(3))
}

fn anchor() -> BookShape {
    BookShape {
        ts: Aggregate::default(),
        prec: prec(),
        bids: [(9_900, 5)].into_iter().collect(),
        asks: [(10_100, 7)].into_iter().collect(),
    }
}

fn bid(seq: u64, price: i32) -> BookDelta {
    BookDelta {
        prec: prec(),
        ts_venue_exec: Ts::from_nanos(0),
        ts_local_recv: Ts::from_nanos(0),
        monotonic_seq: seq,
        kind: FrameKind::Update,
        side: Side::Buy,
        price,
        qty: 4,
    }
}

/// Half way between the tops.
struct Mid;

impl Cell for Mid {
    type Out<'t> = Option<Number<F64>>;
    type Gates = No;

    fn name() -> String {
        String::from("Mid")
    }

    fn facts() -> Facts {
        Facts::bare()
    }

    fn opens<'t>(_: Option<Number<F64>>) -> bool {
        true
    }
}

impl Node for Mid {
    type Deps = (Book, ());

    fn advance<'t>(&'t mut self, deps: (Option<&'t Book>, ())) -> Option<Number<F64>> {
        let (bid, ask) = (deps.0?.best_bid()?, deps.0?.best_ask()?);
        Some(Number(F64((bid.0 .0.raw + ask.0 .0.raw) as f64 / 200.0)))
    }
}

impl Blind<F64> for Mid {
    fn an_advance_shows<'t>(&self, _: (Option<&'t Book>, ()), _: &Self, _: Option<Number<F64>>) {}

    fn a_twin_shows_alike<'t>(&self, _: &Self, _: (Option<&'t Book>, ()), _: (Option<&'t Book>, ())) {}

    fn why() -> &'static str {
        "a fixture"
    }

    fn copied(&self) -> Self {
        Mid
    }
}

impl Observed<F64> for Mid {
    type Pre = Refired<Restep<Mid>>;

    fn fidelity() -> Fidelity {
        Fidelity::Opaque(<Self as Blind<F64>>::why())
    }

    fn plots() -> &'static [Plot] {
        &[]
    }

    fn pre<'t>(&self, want: Want, _: &(Option<&'t Book>, ())) -> Refired<Restep<Mid>> {
        refire(self, want)
    }
}

struct Rec(Vec<(String, Option<Vec<f64>>, Option<Vec<f64>>, bool)>);

impl Observer<F64> for Rec {
    fn want(&self, _: &str) -> Want {
        Want::Jac
    }

    fn on(&mut self, node: &str, _: &[String], _: &[bool], fire: Fire<'_, F64>) {
        let read = |x: Option<&[F64]>| x.map(|v| v.iter().map(|x| x.0).collect());
        self.0.push((String::from(node), read(fire.vals), read(fire.jac), fire.exact));
    }
}

#[test]
fn a_book_is_observed_and_has_no_slope() {
    let (mut rec, mut sweep) = (Rec(Vec::new()), Sweep::new());
    let (mut book, mut mid) = (Book::default(), Mid);
    let mut hist: Buffer<BookDeltas, Over<900_000>> =
        Buffer { batch: BookChunk::default(), reach: PhantomData };
    let (seed, rows) = (anchor(), [bid(1, 9_950)]);
    let f = Cons::<BookAnchors, Nil> { out: Some(&seed), tail: Nil };
    let f = Cons::<BookDeltas, _> { out: &rows, tail: f };
    let f = step(f, &mut hist);
    let f = step_obs(f, &mut book, &mut sweep, &mut rec);
    step_obs(f, &mut mid, &mut sweep, &mut rec);

    let (name, vals, jac, exact) = &rec.0[0];
    assert_eq!((name.as_str(), *exact), ("Book", false));
    assert_eq!(vals.as_deref(), Some(&[99.5, 101.0][..]));
    assert!(jac.as_ref().expect("a readable book fired").iter().all(|x| x.is_nan()));
    let (name, vals, jac, _) = &rec.0[1];
    assert_eq!((name.as_str(), vals.as_deref()), ("Mid", Some(&[100.25][..])));
    assert!(jac.as_ref().expect("the middle fired").iter().all(|x| x.is_nan()));
}

#[test]
fn an_owned_book_reads_as_the_book_did() {
    let (mut book, mut chunk) = (Book::default(), BookChunk::default());
    chunk.advance(&[bid(1, 9_950)], Horizon::Over(Timeframe(900_000)));
    assert!(book.step(Some(&anchor()), &chunk));
    let mut scratch = <Book as Nudge<F64>>::fresh();
    let moved = <Book as Nudge<F64>>::stage(Some(&book), &mut scratch, Some(0), F64(1.0));
    assert_eq!(moved.0, 0.0);
    let owned = <Book as Nudge<F64>>::view(&scratch).expect("a book was staged");
    assert_eq!((owned.bids(), owned.asks(), owned.seq()), (book.bids(), book.asks(), book.seq()));
    let mut scratch = <BookAnchors as Nudge<F64>>::fresh();
    <BookAnchors as Nudge<F64>>::stage(Some(&anchor()), &mut scratch, None, F64(1.0));
    let owned = <BookAnchors as Nudge<F64>>::view(&scratch).expect("a checkpoint was staged");
    assert_eq!((&owned.bids, &owned.asks), (&anchor().bids, &anchor().asks));
    assert_eq!(chunk.copied().levels(), chunk.levels());
}
