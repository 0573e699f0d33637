//! The engine's own cells under an observer: a level, a contact and a retention. Each computes in
//! code, so each is copied and stepped again where its derivative is asked for.

use vstd::prelude::*;

use crate::cell::Cell;
use crate::chunk::BookChunk;
use crate::delta::BookDelta;
use crate::flat::{last_fired, last_slots, Flat};
use crate::horizon::{Horizon, Reach};
use crate::latch::{Armed, Episodic};
use crate::level::Refired;
use crate::nudge::{refire, Blind, Nudge, Restep};
use crate::plot::{default_plots, plain_plot, Plot};
use crate::retain::Batch;
use crate::rows::{Hist, Present, Rows};
use crate::scalar::Scalar;
use crate::series::{standing, Buffer, Latest, Series};
use crate::shape::Fidelity;
use crate::stamped::Stamped;
use crate::sweep::Observed;
use crate::want::Want;

verus! {

/// Whether an out reads like nothing but itself.
pub open spec fn only_itself<'t, V: Scalar, C: Nudge<V>>(out: C::Out<'t>) -> bool {
    forall|other: C::Out<'t>| #[trigger] C::alike(other, out) ==> other == out
}

impl<V: Scalar, C: Series + Nudge<V>> Blind<V> for Latest<C> where
    for <'x>C: Cell<Out<'x> = &'x [<C as Series>::Item]>,
    C::Item: Present + Flat<V>,
    <C::Item as Present>::Val: Flat<V>,
 {
    open spec fn shows<'t>(&self, deps: (&'t [C::Item], ())) -> (Seq<V>, bool) {
        let out = standing(self.held, deps.0@);
        (out.slots(), out.fired())
    }

    open spec fn presentable<'t>(&self, deps: (&'t [C::Item], ())) -> bool {
        &&& only_itself::<V, C>(deps.0)
        &&& standing(self.held, deps.0@).sound()
    }

    open spec fn twin(&self, other: &Self) -> bool {
        self.held == other.held
    }

    proof fn an_advance_shows<'t>(
        &self,
        deps: (&'t [C::Item], ()),
        after: &Self,
        out: Option<<C::Item as Present>::Val>,
    ) {
    }

    proof fn a_twin_shows_alike<'t>(
        &self,
        other: &Self,
        a: (&'t [C::Item], ()),
        b: (&'t [C::Item], ()),
    ) {
        assert(<C as Nudge<V>>::alike(b.0, a.0));
    }

    open spec fn reason() -> Seq<char> {
        "holding the last value across a silence is a carry, and a carry has no slope of its own"@
    }

    fn why() -> (r: &'static str) {
        "holding the last value across a silence is a carry, and a carry has no slope of its own"
    }

    fn copied(&self) -> (r: Self) {
        Latest { held: self.held }
    }
}

impl<V: Scalar, C: Series + Nudge<V>> Observed<V> for Latest<C> where
    for <'x>C: Cell<Out<'x> = &'x [<C as Series>::Item]>,
    C::Item: Present + Flat<V>,
    <C::Item as Present>::Val: Flat<V>,
 {
    type Pre = Refired<Restep<Latest<C>>>;

    open spec fn fidelity_spec() -> Fidelity {
        Fidelity::Opaque(
            "holding the last value across a silence is a carry, and a carry has no slope of its own",
        )
    }

    open spec fn plots_spec() -> Seq<Plot> {
        seq![plain_plot(Seq::empty())]
    }

    open spec fn captures<'t>(
        &self,
        want: Want,
        deps: (&'t [C::Item], ()),
        pre: Refired<Restep<Latest<C>>>,
    ) -> bool {
        match pre.0 {
            None => want.rank() < Want::Jac.rank(),
            Some(c) => want.rank() >= Want::Jac.rank() && self.held == c.0.held,
        }
    }

    fn fidelity() -> (r: Fidelity) {
        Fidelity::Opaque(
            "holding the last value across a silence is a carry, and a carry has no slope of its own",
        )
    }

    fn plots() -> (r: &'static [Plot]) {
        default_plots()
    }

    fn pre<'t>(&self, want: Want, deps: &(&'t [C::Item], ())) -> (r: Refired<Restep<Latest<C>>>) {
        refire::<V, Latest<C>>(self, want)
    }
}

impl<V: Scalar, N: Episodic> Blind<V> for Armed<N> where
    N::Trigger: Nudge<V>,
    for <'x><N::Trigger as Cell>::Out<'x>: Flat<V>,
 {
    open spec fn shows<'t>(&self, deps: (<N::Trigger as Cell>::Out<'t>, ())) -> (Seq<V>, bool) {
        let out = self.contact || N::arms_on(deps.0);
        (<bool as Flat<V>>::slots(&out), <bool as Flat<V>>::fired(&out))
    }

    open spec fn presentable<'t>(&self, deps: (<N::Trigger as Cell>::Out<'t>, ())) -> bool {
        only_itself::<V, N::Trigger>(deps.0)
    }

    open spec fn twin(&self, other: &Self) -> bool {
        self.contact == other.contact
    }

    proof fn an_advance_shows<'t>(
        &self,
        deps: (<N::Trigger as Cell>::Out<'t>, ()),
        after: &Self,
        out: bool,
    ) {
    }

    proof fn a_twin_shows_alike<'t>(
        &self,
        other: &Self,
        a: (<N::Trigger as Cell>::Out<'t>, ()),
        b: (<N::Trigger as Cell>::Out<'t>, ()),
    ) {
        assert(<N::Trigger as Nudge<V>>::alike(b.0, a.0));
    }

    open spec fn reason() -> Seq<char> {
        "a latch is a bit that stays set: `arms` is a predicate over an episode, not a value with a slope"@
    }

    fn why() -> (r: &'static str) {
        "a latch is a bit that stays set: `arms` is a predicate over an episode, not a value with a slope"
    }

    fn copied(&self) -> (r: Self) {
        self.clone()
    }
}

impl<V: Scalar, N: Episodic> Observed<V> for Armed<N> where
    N::Trigger: Nudge<V>,
    for <'x><N::Trigger as Cell>::Out<'x>: Flat<V>,
 {
    type Pre = Refired<Restep<Armed<N>>>;

    open spec fn fidelity_spec() -> Fidelity {
        Fidelity::Opaque(
            "a latch is a bit that stays set: `arms` is a predicate over an episode, not a value with a slope",
        )
    }

    open spec fn plots_spec() -> Seq<Plot> {
        seq![plain_plot(Seq::empty())]
    }

    open spec fn captures<'t>(
        &self,
        want: Want,
        deps: (<N::Trigger as Cell>::Out<'t>, ()),
        pre: Refired<Restep<Armed<N>>>,
    ) -> bool {
        match pre.0 {
            None => want.rank() < Want::Jac.rank(),
            Some(c) => want.rank() >= Want::Jac.rank() && self.contact == c.0.contact,
        }
    }

    fn fidelity() -> (r: Fidelity) {
        Fidelity::Opaque(
            "a latch is a bit that stays set: `arms` is a predicate over an episode, not a value with a slope",
        )
    }

    fn plots() -> (r: &'static [Plot]) {
        default_plots()
    }

    fn pre<'t>(&self, want: Want, deps: &(<N::Trigger as Cell>::Out<'t>, ())) -> (r: Refired<
        Restep<Armed<N>>,
    >) {
        refire::<V, Armed<N>>(self, want)
    }
}

/// A retention that can be copied, and folds a batch the same way twice.
pub trait Refold<V: Scalar, T: 'static>: Batch<T> + 'static where for <'x>Self::View<'x>: Flat<V> {
    /// What the retention flattens to once a batch is taken in, and whether it fires.
    open spec fn shows(&self, fresh: Seq<T>, h: Horizon) -> (Seq<V>, bool) {
        arbitrary()
    }

    /// Whether what it then hands out can be flattened.
    open spec fn presentable(&self, fresh: Seq<T>, h: Horizon) -> bool {
        true
    }

    /// Whether a retention holds what this one does.
    open spec fn twin(&self, other: &Self) -> bool {
        *self == *other
    }

    proof fn an_advance_shows<'t>(&self, fresh: Seq<T>, h: Horizon, after: &Self, view: Self::View<'t>)
        requires
            self.presentable(fresh, h),
            self.advances(fresh, h, after),
            after.views(h, view),
        ensures
            view.sound(),
            view.slots() == self.shows(fresh, h).0,
            view.fired() == self.shows(fresh, h).1,
    ;

    proof fn a_twin_shows_alike(&self, other: &Self, fresh: Seq<T>, h: Horizon)
        requires
            self.twin(other),
            self.can_advance(fresh, h),
            self.presentable(fresh, h),
        ensures
            other.can_advance(fresh, h),
            other.presentable(fresh, h),
            other.shows(fresh, h) == self.shows(fresh, h),
            forall|after: Self| #[trigger] other.advances(fresh, h, &after) ==> self.advances(
                fresh,
                h,
                &after,
            ),
    ;

    fn copied(&self) -> (r: Self)
        ensures
            self.twin(&r),
    ;
}

impl<V: Scalar, T: Flat<V> + Copy + Stamped + 'static> Refold<V, T> for Rows<T> {
    open spec fn shows(&self, fresh: Seq<T>, h: Horizon) -> (Seq<V>, bool) {
        (last_slots(fresh), last_fired::<V, T>(fresh))
    }

    open spec fn presentable(&self, fresh: Seq<T>, h: Horizon) -> bool {
        fresh.len() > 0 ==> fresh.last().sound()
    }

    open spec fn twin(&self, other: &Self) -> bool {
        self@ == other@ && (self.wf() ==> other.wf())
    }

    proof fn an_advance_shows<'t>(&self, fresh: Seq<T>, h: Horizon, after: &Self, view: Hist<'t, T>) {
        assert(view.batch() =~= fresh);
    }

    proof fn a_twin_shows_alike(&self, other: &Self, fresh: Seq<T>, h: Horizon) {
    }

    fn copied(&self) -> (r: Self) {
        Rows::copied(self)
    }
}

impl<V: Scalar> Refold<V, BookDelta> for BookChunk {
    open spec fn shows(&self, fresh: Seq<BookDelta>, h: Horizon) -> (Seq<V>, bool) {
        (last_slots(fresh), last_fired::<V, BookDelta>(fresh))
    }

    open spec fn twin(&self, other: &Self) -> bool {
        self@ == other@ && (self.wf() ==> other.wf())
    }

    proof fn an_advance_shows<'t>(
        &self,
        fresh: Seq<BookDelta>,
        h: Horizon,
        after: &Self,
        view: &'t BookChunk,
    ) {
    }

    proof fn a_twin_shows_alike(&self, other: &Self, fresh: Seq<BookDelta>, h: Horizon) {
    }

    fn copied(&self) -> (r: Self) {
        BookChunk::copied(self)
    }
}

impl<V: Scalar, C: Series + Nudge<V>, R: Reach> Blind<V> for Buffer<C, R> where
    for <'x>C: Cell<Out<'x> = &'x [<C as Series>::Item]>,
    C::Item: Flat<V> + 'static,
    C::Batch: Refold<V, C::Item>,
    for <'x><C::Batch as Batch<C::Item>>::View<'x>: Flat<V>,
 {
    open spec fn shows<'t>(&self, deps: (&'t [C::Item], ())) -> (Seq<V>, bool) {
        <C::Batch as Refold<V, C::Item>>::shows(&self.batch, deps.0@, R::reach())
    }

    open spec fn presentable<'t>(&self, deps: (&'t [C::Item], ())) -> bool {
        &&& only_itself::<V, C>(deps.0)
        &&& <C::Batch as Refold<V, C::Item>>::presentable(&self.batch, deps.0@, R::reach())
    }

    open spec fn twin(&self, other: &Self) -> bool {
        <C::Batch as Refold<V, C::Item>>::twin(&self.batch, &other.batch)
    }

    proof fn an_advance_shows<'t>(
        &self,
        deps: (&'t [C::Item], ()),
        after: &Self,
        out: <C::Batch as Batch<C::Item>>::View<'t>,
    ) {
        <C::Batch as Refold<V, C::Item>>::an_advance_shows(
            &self.batch,
            deps.0@,
            R::reach(),
            &after.batch,
            out,
        );
    }

    proof fn a_twin_shows_alike<'t>(
        &self,
        other: &Self,
        a: (&'t [C::Item], ()),
        b: (&'t [C::Item], ()),
    ) {
        assert(<C as Nudge<V>>::alike(b.0, a.0));
        <C::Batch as Refold<V, C::Item>>::a_twin_shows_alike(
            &self.batch,
            &other.batch,
            a.0@,
            R::reach(),
        );
    }

    open spec fn reason() -> Seq<char> {
        "a retention window is the engine's bookkeeping over a run, not a function of its elements"@
    }

    fn why() -> (r: &'static str) {
        "a retention window is the engine's bookkeeping over a run, not a function of its elements"
    }

    fn copied(&self) -> (r: Self) {
        Buffer { batch: <C::Batch as Refold<V, C::Item>>::copied(&self.batch), reach: self.reach }
    }
}

impl<V: Scalar, C: Series + Nudge<V>, R: Reach> Observed<V> for Buffer<C, R> where
    for <'x>C: Cell<Out<'x> = &'x [<C as Series>::Item]>,
    C::Item: Flat<V> + 'static,
    C::Batch: Refold<V, C::Item>,
    for <'x><C::Batch as Batch<C::Item>>::View<'x>: Flat<V>,
 {
    type Pre = Refired<Restep<Buffer<C, R>>>;

    open spec fn fidelity_spec() -> Fidelity {
        Fidelity::Opaque(
            "a retention window is the engine's bookkeeping over a run, not a function of its elements",
        )
    }

    open spec fn plots_spec() -> Seq<Plot> {
        seq![plain_plot(Seq::empty())]
    }

    open spec fn captures<'t>(
        &self,
        want: Want,
        deps: (&'t [C::Item], ()),
        pre: Refired<Restep<Buffer<C, R>>>,
    ) -> bool {
        match pre.0 {
            None => want.rank() < Want::Jac.rank(),
            Some(c) => want.rank() >= Want::Jac.rank() && <C::Batch as Refold<V, C::Item>>::twin(
                &self.batch,
                &c.0.batch,
            ),
        }
    }

    fn fidelity() -> (r: Fidelity) {
        Fidelity::Opaque(
            "a retention window is the engine's bookkeeping over a run, not a function of its elements",
        )
    }

    fn plots() -> (r: &'static [Plot]) {
        default_plots()
    }

    fn pre<'t>(&self, want: Want, deps: &(&'t [C::Item], ())) -> (r: Refired<
        Restep<Buffer<C, R>>,
    >) {
        refire::<V, Buffer<C, R>>(self, want)
    }
}

} // verus!
