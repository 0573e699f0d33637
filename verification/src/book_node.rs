//! The book as a node that computes in code: owned, stepped again, and observed.

use vstd::prelude::*;

use crate::book::{shape_of, Book, BookShape, BookView};
use crate::cells::BookAnchors;
use crate::chunk::{unstepped, BookChunk};
use crate::delta::BookDelta;
use crate::flat::blank;
use crate::horizon::Horizon;
use crate::lanes::top_price;
use crate::level::Refired;
use crate::nudge::{refire, Blind, Nudge, Restage, Restep};
use crate::plot::{default_plots, plain_plot, Plot};
use crate::scalar::Scalar;
use crate::shape::Fidelity;
use crate::side::Side;
use crate::sweep::Observed;
use crate::want::Want;

verus! {

/// Perturbing a level makes it a different book, not a nearby one: nothing moves.
impl<V: Scalar> Restage<V, BookDelta> for BookChunk {
    open spec fn can_stage<'t>(view: &'t BookChunk, at: Horizon, bump: Option<int>, h: V) -> bool {
        view.wf()
    }

    open spec fn nudged<'t>(view: &'t BookChunk, bump: Option<int>, h: V) -> &'t BookChunk where 't: 't {
        view
    }

    open spec fn applied<'t>(view: &'t BookChunk, bump: Option<int>, h: V) -> V {
        V::whole(0)
    }

    open spec fn shown<'l>(&'l self, at: Horizon) -> &'l BookChunk where 'l: 'l {
        self
    }

    open spec fn alike<'t>(a: &'t BookChunk, b: &'t BookChunk) -> bool {
        a@ == b@ && a.wf() && b.wf()
    }

    proof fn one_view<'l>(&'l self, at: Horizon, view: &'l BookChunk) {
    }

    open spec fn blank(&self) -> bool {
        self.wf() && self@ == unstepped()
    }

    fn nothing() -> (r: BookChunk) {
        BookChunk::default()
    }

    fn stage<'t>(&mut self, view: &'t BookChunk, at: Horizon, bump: Option<usize>, h: V) -> (dh: V) {
        *self = view.copied();
        V::of(0)
    }
}

/// Whether two checkpoints hold the same.
pub open spec fn same_shape(a: Option<&BookShape>, b: Option<&BookShape>) -> bool {
    match (a, b) {
        (Some(a), Some(b)) => a.ts == b.ts && a.prec == b.prec && a.bids@ == b.bids@ && a.asks@
            == b.asks@,
        (None, None) => true,
        _ => false,
    }
}

/// Perturbing a level makes it a different book, not a nearby one: nothing moves.
impl<V: Scalar> Nudge<V> for BookAnchors {
    type Scratch = Option<BookShape>;

    open spec fn can_stage<'t>(out: Option<&'t BookShape>, bump: Option<int>, h: V) -> bool {
        true
    }

    open spec fn nudged<'t>(out: Option<&'t BookShape>, bump: Option<int>, h: V) -> Option<
        &'t BookShape,
    > where 't: 't {
        out
    }

    open spec fn applied<'t>(out: Option<&'t BookShape>, bump: Option<int>, h: V) -> V {
        V::whole(0)
    }

    open spec fn shown<'l>(scratch: &'l Option<BookShape>) -> Option<&'l BookShape> {
        match scratch {
            Some(s) => Some(s),
            None => None,
        }
    }

    open spec fn holds(scratch: &Option<BookShape>) -> bool {
        true
    }

    open spec fn alike<'t>(a: Option<&'t BookShape>, b: Option<&'t BookShape>) -> bool {
        same_shape(a, b)
    }

    open spec fn unstaged(scratch: &Option<BookShape>) -> bool {
        scratch is None
    }

    fn fresh() -> (r: Option<BookShape>) {
        None
    }

    fn stage<'t>(
        out: Option<&'t BookShape>,
        scratch: &mut Option<BookShape>,
        bump: Option<usize>,
        h: V,
    ) -> (dh: V) {
        *scratch = match out {
            Some(s) => Some(
                BookShape { ts: s.ts, prec: s.prec, asks: s.asks.clone(), bids: s.bids.clone() },
            ),
            None => None,
        };
        V::of(0)
    }

    fn view<'l>(scratch: &'l Option<BookShape>) -> (r: Option<&'l BookShape>) {
        match scratch {
            Some(s) => Some(s),
            None => None,
        }
    }
}

/// Whether two readings are of one book.
pub open spec fn same_book(a: Option<&Book>, b: Option<&Book>) -> bool {
    match (a, b) {
        (Some(a), Some(b)) => a@ == b@ && a.wf() && b.wf(),
        (None, None) => true,
        _ => false,
    }
}

/// The tops are levels, not a continuum: there is no nearby book.
impl<V: Scalar> Nudge<V> for Book {
    type Scratch = Option<Book>;

    open spec fn can_stage<'t>(out: Option<&'t Book>, bump: Option<int>, h: V) -> bool {
        out matches Some(b) ==> b.wf()
    }

    open spec fn nudged<'t>(out: Option<&'t Book>, bump: Option<int>, h: V) -> Option<&'t Book> where
        't: 't,
     {
        out
    }

    open spec fn applied<'t>(out: Option<&'t Book>, bump: Option<int>, h: V) -> V {
        V::whole(0)
    }

    open spec fn shown<'l>(scratch: &'l Option<Book>) -> Option<&'l Book> {
        match scratch {
            Some(b) => Some(b),
            None => None,
        }
    }

    open spec fn holds(scratch: &Option<Book>) -> bool {
        true
    }

    open spec fn alike<'t>(a: Option<&'t Book>, b: Option<&'t Book>) -> bool {
        same_book(a, b)
    }

    open spec fn unstaged(scratch: &Option<Book>) -> bool {
        scratch is None
    }

    fn fresh() -> (r: Option<Book>) {
        None
    }

    fn stage<'t>(out: Option<&'t Book>, scratch: &mut Option<Book>, bump: Option<usize>, h: V) -> (dh: V) {
        *scratch = match out {
            Some(b) => Some(b.copied()),
            None => None,
        };
        V::of(0)
    }

    fn view<'l>(scratch: &'l Option<Book>) -> (r: Option<&'l Book>) {
        match scratch {
            Some(b) => Some(b),
            None => None,
        }
    }
}

/// What a readable book flattens to: its two tops.
pub open spec fn tops<V: Scalar>(b: BookView) -> Seq<V> {
    seq![top_price::<V>(Side::Buy, b.bids, b.prec), top_price::<V>(Side::Sell, b.asks, b.prec)]
}

impl<V: Scalar> Blind<V> for Book {
    open spec fn shows<'t>(&self, deps: (Option<&'t BookShape>, (&'t BookChunk, ()))) -> (Seq<V>, bool) {
        let next = self@.step(shape_of(deps.0), deps.1.0@);
        if next.synced {
            (tops(next), true)
        } else {
            (blank(2), false)
        }
    }

    open spec fn twin(&self, other: &Self) -> bool {
        self@ == other@ && (self.wf() ==> other.wf())
    }

    proof fn an_advance_shows<'t>(
        &self,
        deps: (Option<&'t BookShape>, (&'t BookChunk, ())),
        after: &Self,
        out: Option<&'t Book>,
    ) {
    }

    proof fn a_twin_shows_alike<'t>(
        &self,
        other: &Self,
        a: (Option<&'t BookShape>, (&'t BookChunk, ())),
        b: (Option<&'t BookShape>, (&'t BookChunk, ())),
    ) {
    }

    open spec fn reason() -> Seq<char> {
        "an order book fold is not a scalar function of its deltas"@
    }

    fn why() -> (r: &'static str) {
        "an order book fold is not a scalar function of its deltas"
    }

    fn copied(&self) -> (r: Self) {
        Book::copied(self)
    }
}

impl<V: Scalar> Observed<V> for Book {
    type Pre = Refired<Restep<Book>>;

    open spec fn fidelity_spec() -> Fidelity {
        Fidelity::Opaque("an order book fold is not a scalar function of its deltas")
    }

    open spec fn plots_spec() -> Seq<Plot> {
        seq![plain_plot(Seq::empty())]
    }

    open spec fn captures<'t>(
        &self,
        want: Want,
        deps: (Option<&'t BookShape>, (&'t BookChunk, ())),
        pre: Refired<Restep<Book>>,
    ) -> bool {
        match pre.0 {
            None => want.rank() < Want::Jac.rank(),
            Some(c) => want.rank() >= Want::Jac.rank() && self@ == c.0@ && (self.wf() ==> c.0.wf()),
        }
    }

    fn fidelity() -> (r: Fidelity) {
        Fidelity::Opaque("an order book fold is not a scalar function of its deltas")
    }

    fn plots() -> (r: &'static [Plot]) {
        default_plots()
    }

    fn pre<'t>(&self, want: Want, deps: &(Option<&'t BookShape>, (&'t BookChunk, ()))) -> (r: Refired<
        Restep<Book>,
    >) {
        refire::<V, Book>(self, want)
    }
}

} // verus!
