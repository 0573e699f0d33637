//! A value slot in the frame, the frame itself, and what a node reads where its gate refused.

use core::marker::PhantomData;
use vstd::prelude::*;

use crate::horizon::{Horizon, Reach, Timeframe};

verus! {

/// A truth in type position, so a dep kind's domination can dispatch an impl ([`Dark`]).
pub trait Bit {
    open spec fn set() -> bool {
        arbitrary()
    }

    fn value() -> (r: bool)
        ensures
            r == Self::set(),
    ;
}

pub struct Yes;

pub struct No;

impl Bit for Yes {
    open spec fn set() -> bool {
        true
    }

    fn value() -> (r: bool) {
        true
    }
}

impl Bit for No {
    open spec fn set() -> bool {
        false
    }

    fn value() -> (r: bool) {
        false
    }
}

/// What a cell says of itself wherever it stands in dep position.
#[derive(Clone, Copy)]
pub struct Facts {
    /// How far back a consumer naming this in dep position reads. A bare cell is this tick's batch
    /// and nothing more; the wrappers are what state anything else.
    pub reach: Horizon,
    /// Whether `reach` is the *node's* to hold, true of [`Folding`] alone. A closed gate pulls no
    /// deps, so a folded reach is the one thing gating cannot re-warm.
    pub folded: bool,
    /// Whether reading this in dep position reads something the *engine* keeps: [`Buffering`] and
    /// [`Sampling`]. A retained dep is there again next tick, so skipping one costs nothing; a
    /// pass-through dep skipped is a batch nobody ever sees again.
    pub retained: bool,
    /// Whether a tick skipped costs this cell nothing a later tick cannot recover.
    pub rewarms: bool,
    /// How often this cell publishes. `None`: whenever its inputs do. `Some(tf)`: over elements whose
    /// `tf` period has closed.
    pub clock: Option<Timeframe>,
}

impl Facts {
    pub open spec fn plain() -> Facts {
        Facts {
            reach: Horizon::Unit,
            folded: false,
            retained: false,
            rewarms: false,
            clock: None,
        }
    }

    /// A cell that states nothing beyond its batch.
    pub fn bare() -> (r: Facts)
        ensures
            r == Facts::plain(),
    {
        Facts { reach: Horizon::Unit, folded: false, retained: false, rewarms: false, clock: None }
    }

    /// The same cell, publishing once per period.
    pub fn clocked(self, tf: Timeframe) -> (r: Facts)
        ensures
            r == (Facts { clock: Some(tf), ..self }),
    {
        Facts { clock: Some(tf), ..self }
    }
}

/// A value slot in the frame. An out is `Copy`: references are, so a batch out enters the frame as a
/// slice and heavy state is lent by reference.
pub trait Cell: Sized {
    type Out<'t>: Copy;

    /// Whether a consumer naming this in dep position is *dominated* by it: [`Gating`] alone. A type
    /// rather than a flag because it is what dispatches the dark branch.
    type Gates: Bit;

    /// What this cell is called wherever a human reads the graph.
    open spec fn label() -> Seq<char> {
        arbitrary()
    }

    /// Whether the name fits where names are kept.
    open spec fn nameable() -> bool {
        arbitrary()
    }

    open spec fn facts_spec() -> Facts {
        arbitrary()
    }

    /// Whether this dep, read here, lets its consumer advance: always, but for a [`Gating`] one,
    /// whose out is permission rather than data.
    open spec fn permits<'t>(out: Self::Out<'t>) -> bool {
        arbitrary()
    }

    fn name() -> (r: String)
        requires
            Self::nameable(),
        ensures
            r@ == Self::label(),
    ;

    fn facts() -> (r: Facts)
        ensures
            r == Self::facts_spec(),
    ;

    fn opens<'t>(out: Self::Out<'t>) -> (r: bool)
        ensures
            r == Self::permits(out),
    ;
}

/// An out that can go unfired: a node read only behind a gate must be able to decline.
pub trait Latent: Sized {
    /// Whether an out is the unfired reading.
    open spec fn unfired(&self) -> bool {
        arbitrary()
    }

    fn latent() -> (r: Self)
        ensures
            r.unfired(),
    ;
}

impl<T: Copy> Latent for Option<T> {
    open spec fn unfired(&self) -> bool {
        self is None
    }

    fn latent() -> (r: Self) {
        None
    }
}

/// A dark batch node emits nothing.
impl<'a, T> Latent for &'a [T] {
    open spec fn unfired(&self) -> bool {
        self@.len() == 0
    }

    fn latent() -> (r: Self) {
        empty()
    }
}

/// The slice that holds nothing.
fn empty<'a, T>() -> (r: &'a [T])
    ensures
        r@.len() == 0,
{
    &[]
}

/// What a node reads on a tick its gate refused, dispatched on whether it is gated at all, so the
/// [`Latent`] bound lands on gated nodes alone: an ungated node is never dark, and demanding an
/// unfired reading of it would rule out every scalar-out cell in the graph.
pub trait Dark<B: Bit>: Sized {
    /// Whether an out is the dark reading.
    open spec fn darkened(&self) -> bool {
        arbitrary()
    }

    fn dark() -> (r: Self)
        requires
            B::set(),
        ensures
            r.darkened(),
    ;
}

impl<T> Dark<No> for T {
    open spec fn darkened(&self) -> bool {
        false
    }

    /// An ungated node's gate is always open, so nothing reaches its dark branch.
    fn dark() -> (r: Self) {
        vstd::pervasive::unreached()
    }
}

impl<T: Latent> Dark<Yes> for T {
    open spec fn darkened(&self) -> bool {
        self.unfired()
    }

    fn dark() -> (r: Self) {
        T::latent()
    }
}

/// The empty frame.
pub struct Nil;

/// A frame: type-indexed list of cell outputs. Fields are open, so an app seeds root frames
/// directly.
pub struct Cons<'t, N: Cell, T> {
    pub out: N::Out<'t>,
    pub tail: T,
}

impl<'t, N: Cell, T> Cons<'t, N, T> {
    pub fn head(&self) -> (r: N::Out<'t>)
        ensures
            r == self.out,
    {
        self.out
    }
}

/// The head of a frame.
pub enum Here {
    Head,
}

/// Somewhere in the tail of a frame.
pub struct There<I>(PhantomData<I>);

/// A frame that holds what cell `N` stands for; `I` is the inferred index path.
pub trait Has<'t, N: Cell, I> {
    /// Whether the frame can answer.
    open spec fn answers(&self) -> bool {
        arbitrary()
    }

    open spec fn held(&self) -> N::Out<'t> {
        arbitrary()
    }

    fn get(&self) -> (r: N::Out<'t>)
        requires
            self.answers(),
        ensures
            r == self.held(),
    ;
}

impl<'t, N: Cell, T> Has<'t, N, Here> for Cons<'t, N, T> {
    open spec fn answers(&self) -> bool {
        true
    }

    open spec fn held(&self) -> N::Out<'t> {
        self.out
    }

    fn get(&self) -> (r: N::Out<'t>) {
        self.out
    }
}

impl<'t, N: Cell, M: Cell, T, I> Has<'t, N, There<I>> for Cons<'t, M, T> where T: Has<'t, N, I> {
    open spec fn answers(&self) -> bool {
        self.tail.answers()
    }

    open spec fn held(&self) -> N::Out<'t> {
        self.tail.held()
    }

    fn get(&self) -> (r: N::Out<'t>) {
        self.tail.get()
    }
}

/// Dep position only, never a frame field: "this dep, so much of which I hold myself". The out is the
/// bare cell's: nothing wraps the data and nothing is retained for it, so this is a pure declaration,
/// the node's own recurrence or window stated where it is actually about.
pub struct Folding<C, R>(PhantomData<(C, R)>);

impl<C: Cell, R: Reach> Cell for Folding<C, R> {
    type Out<'t> = C::Out<'t>;

    type Gates = No;

    /// Forwarded: the graph predicates match dep names against frame cell names, and a wrapper that
    /// renamed its dep would drop out of every one of them.
    open spec fn label() -> Seq<char> {
        C::label()
    }

    open spec fn nameable() -> bool {
        C::nameable()
    }

    open spec fn facts_spec() -> Facts {
        Facts {
            reach: R::reach(),
            folded: true,
            retained: false,
            rewarms: false,
            clock: C::facts_spec().clock,
        }
    }

    open spec fn permits<'t>(out: Self::Out<'t>) -> bool {
        true
    }

    fn name() -> (r: String) {
        C::name()
    }

    fn facts() -> (r: Facts) {
        Facts {
            reach: R::horizon(),
            folded: true,
            retained: false,
            rewarms: false,
            clock: C::facts().clock,
        }
    }

    fn opens<'t>(out: Self::Out<'t>) -> (r: bool) {
        true
    }
}

impl<'t, C: Cell, R: Reach, T> Has<'t, Folding<C, R>, Here> for Cons<'t, C, T> {
    /// A folding at unit reach is the bare dep.
    open spec fn answers(&self) -> bool {
        R::reach() != Horizon::Unit
    }

    open spec fn held(&self) -> C::Out<'t> {
        self.out
    }

    fn get(&self) -> (r: C::Out<'t>) {
        self.out
    }
}

} // verus!
