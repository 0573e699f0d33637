//! The root cells over the lane holders, and [`Book`] as an ordinary graph node.

use vstd::prelude::*;

use crate::book::shape_of;
use crate::book::{Book, BookShape};
use crate::cell::{Cell, Facts, No};
use crate::chunk::BookChunk;
use crate::cols::TradeCols;
use crate::delta::BookDelta;
use crate::horizon::Over;
use crate::node::Node;
use crate::series::{Buffering, Series};
use crate::text;

verus! {

pub struct Trades;

impl Cell for Trades {
    type Out<'t> = TradeCols<'t>;

    type Gates = No;

    open spec fn label() -> Seq<char> {
        "Trades"@
    }

    open spec fn nameable() -> bool {
        true
    }

    open spec fn facts_spec() -> Facts {
        Facts::plain()
    }

    open spec fn permits<'t>(out: TradeCols<'t>) -> bool {
        true
    }

    fn name() -> (r: String) {
        text::string_of(text::chars_of("Trades").as_slice())
    }

    fn facts() -> (r: Facts) {
        Facts::bare()
    }

    fn opens<'t>(out: TradeCols<'t>) -> (r: bool) {
        true
    }
}

/// Anchors are [`Book`]'s input, not the graph's: nothing else should name this.
pub struct BookAnchors;

impl Cell for BookAnchors {
    type Out<'t> = Option<&'t BookShape>;

    type Gates = No;

    open spec fn label() -> Seq<char> {
        "BookAnchors"@
    }

    open spec fn nameable() -> bool {
        true
    }

    open spec fn facts_spec() -> Facts {
        Facts::plain()
    }

    open spec fn permits<'t>(out: Option<&'t BookShape>) -> bool {
        true
    }

    fn name() -> (r: String) {
        text::string_of(text::chars_of("BookAnchors").as_slice())
    }

    fn facts() -> (r: Facts) {
        Facts::bare()
    }

    fn opens<'t>(out: Option<&'t BookShape>) -> (r: bool) {
        true
    }
}

pub struct BookDeltas;

impl Cell for BookDeltas {
    type Out<'t> = &'t [BookDelta];

    type Gates = No;

    open spec fn label() -> Seq<char> {
        "BookDeltas"@
    }

    open spec fn nameable() -> bool {
        true
    }

    open spec fn facts_spec() -> Facts {
        Facts::plain()
    }

    open spec fn permits<'t>(out: &'t [BookDelta]) -> bool {
        true
    }

    fn name() -> (r: String) {
        text::string_of(text::chars_of("BookDeltas").as_slice())
    }

    fn facts() -> (r: Facts) {
        Facts::bare()
    }

    fn opens<'t>(out: &'t [BookDelta]) -> (r: bool) {
        true
    }
}

impl Series for BookDeltas {
    type Item = BookDelta;

    type Batch = BookChunk;
}

/// An optional book can go unfired, so the book **can be gated**, and a closed one returns nothing
/// without pulling deps: no checkpoint and no frame is even read.
///
/// It re-warms: what makes a tick spent dark recoverable is not the retention, since a sleep past two
/// of the chunk's boundaries outruns that, but the *seek*, which its anchors are the whole of.
impl Cell for Book {
    type Out<'t> = Option<&'t Book>;

    type Gates = No;

    open spec fn label() -> Seq<char> {
        "Book"@
    }

    open spec fn nameable() -> bool {
        true
    }

    open spec fn facts_spec() -> Facts {
        Facts { rewarms: true, ..Facts::plain() }
    }

    open spec fn permits<'t>(out: Option<&'t Book>) -> bool {
        true
    }

    fn name() -> (r: String) {
        text::string_of(text::chars_of("Book").as_slice())
    }

    fn facts() -> (r: Facts) {
        Facts { rewarms: true, ..Facts::bare() }
    }

    fn opens<'t>(out: Option<&'t Book>) -> (r: bool) {
        true
    }
}

/// Both deps are roots, which is what anchoring asks: a rewind reads them back out of the past, and a
/// past is read per lane. The reach back over the deltas, a quarter of an hour of it, is the
/// *engine's*, so it accumulates whether or not this node is dark.
impl Node for Book {
    type Deps = (BookAnchors, (Buffering<BookDeltas, Over<900_000>>, ()));

    open spec fn can_advance<'t>(&self, deps: (Option<&'t BookShape>, (&'t BookChunk, ()))) -> bool {
        &&& self.wf()
        &&& deps.1.0.wf()
        &&& self@.can_step(shape_of(deps.0), deps.1.0@)
    }

    /// One fold step; readable, it is lent.
    open spec fn advances<'t>(
        &self,
        deps: (Option<&'t BookShape>, (&'t BookChunk, ())),
        after: &Self,
        out: Option<&'t Book>,
    ) -> bool {
        &&& after.wf()
        &&& after@ == self@.step(shape_of(deps.0), deps.1.0@)
        &&& out == if after@.synced {
            Some(after)
        } else {
            None
        }
    }

    fn advance<'t>(&'t mut self, deps: (Option<&'t BookShape>, (&'t BookChunk, ()))) -> (out: Option<
        &'t Book,
    >) {
        if self.step(deps.0, deps.1.0) {
            Some(&*self)
        } else {
            None
        }
    }
}

} // verus!
