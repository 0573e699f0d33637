//! The cells a sweep advances, and the two steps that advance them.

use vstd::prelude::*;

use crate::cell::{Cell, Cons, Dark, Folding, Has};
use crate::deps::{lemma_shut_is_gated, orderly};
use crate::deps::{DepSet, Pull};
use crate::horizon::{Reach, Unbounded};
use crate::retain::Batch;
use crate::rows::Present;
use crate::series::{newest_of, Buffer, Latest, Series};
use crate::series::standing;

verus! {

/// A cell the sweep advances.
pub trait Node: Cell {
    type Deps: DepSet;

    /// Whether the node can be advanced over these deps.
    open spec fn can_advance<'t>(&self, deps: <Self::Deps as DepSet>::Outs<'t>) -> bool {
        arbitrary()
    }

    /// What an advance over these deps makes of the node, and what it puts out.
    open spec fn advances<'t>(
        &self,
        deps: <Self::Deps as DepSet>::Outs<'t>,
        after: &Self,
        out: Self::Out<'t>,
    ) -> bool {
        arbitrary()
    }

    fn advance<'t>(&'t mut self, deps: <Self::Deps as DepSet>::Outs<'t>) -> (out: Self::Out<'t>)
        requires
            old(self).can_advance(deps),
        ensures
            old(self).advances(deps, final(self), out),
    ;
}

/// What a step over a frame makes of a node and puts out: an advance over what it pulls, or, where a
/// gating dep reads false, its dark reading and nothing moved.
pub open spec fn stepped<'t, N, F, I>(frame: &F, was: N, after: N, out: N::Out<'t>) -> bool where
    N: Node,
    N::Deps: Pull<'t, F, I>,
    N::Out<'t>: Dark<<N::Deps as DepSet>::Lead>,
 {
    if <N::Deps as Pull<'t, F, I>>::opened(frame) {
        was.advances(<N::Deps as Pull<'t, F, I>>::pulled(frame), &after, out)
    } else {
        out.darkened() && after == was
    }
}

/// Advances `node` over `frame` and pushes its output, unless a gating dep reads false, when nothing
/// is pulled and the out is the node's [`Dark`] reading. The [`Pull`] bound is the engine's reason to
/// exist: a node stepped before its deps are in the frame does not compile.
pub fn step<'t, N, F, I>(frame: F, node: &'t mut N) -> (r: Cons<'t, N, F>) where
    N: Node,
    N::Deps: Pull<'t, F, I>,
    N::Out<'t>: Dark<<N::Deps as DepSet>::Lead>,

    requires
        orderly::<N::Deps>(),
        <N::Deps as Pull<'t, F, I>>::answers(&frame),
        <N::Deps as Pull<'t, F, I>>::opened(&frame) ==> old(node).can_advance(
            <N::Deps as Pull<'t, F, I>>::pulled(&frame),
        ),
    ensures
        r.tail == frame,
        stepped::<N, F, I>(&frame, *old(node), *final(node), r.out),
{
    let out: N::Out<'t> = if <N::Deps as Pull<'t, F, I>>::open(&frame) {
        node.advance(<N::Deps as Pull<'t, F, I>>::pull(&frame))
    } else {
        proof {
            lemma_shut_is_gated::<'t, F, I, N::Deps>(&frame);
        }
        <N::Out<'t> as Dark<<N::Deps as DepSet>::Lead>>::dark()
    };
    Cons { out, tail: frame }
}

/// A retention over a series advances by taking the tick's batch in at its reach.
impl<C: Series, R: Reach> Node for Buffer<C, R> where
    for <'x>C: Cell<Out<'x> = &'x [<C as Series>::Item]>,
    C::Batch: Batch<C::Item>,
 {
    type Deps = (Folding<C, R>, ());

    open spec fn can_advance<'t>(&self, deps: (&'t [C::Item], ())) -> bool {
        &&& self.batch.can_advance(deps.0@, R::reach())
        &&& forall|b: C::Batch|
            self.batch.advances(deps.0@, R::reach(), &b) ==> #[trigger] b.sound()
    }

    open spec fn advances<'t>(
        &self,
        deps: (&'t [C::Item], ()),
        after: &Self,
        out: <C::Batch as Batch<C::Item>>::View<'t>,
    ) -> bool {
        &&& self.batch.advances(deps.0@, R::reach(), &after.batch)
        &&& after.batch.views(R::reach(), out)
    }

    fn advance<'t>(&'t mut self, deps: (&'t [C::Item], ())) -> (out: <C::Batch as Batch<
        C::Item,
    >>::View<'t>) {
        self.batch.advance(deps.0, R::horizon());
        self.batch.read(R::horizon())
    }
}

/// A level advances by standing on the newest value of the tick's batch, where it holds one.
impl<C: Series> Node for Latest<C> where
    for <'x>C: Cell<Out<'x> = &'x [<C as Series>::Item]>,
    C::Item: Present,
 {
    type Deps = (Folding<C, Unbounded>, ());

    open spec fn can_advance<'t>(&self, deps: (&'t [C::Item], ())) -> bool {
        true
    }

    open spec fn advances<'t>(
        &self,
        deps: (&'t [C::Item], ()),
        after: &Self,
        out: Option<<C::Item as Present>::Val>,
    ) -> bool {
        &&& out == standing(self.held, deps.0@)
        &&& after.held == out
    }

    fn advance<'t>(&'t mut self, deps: (&'t [C::Item], ())) -> (out: Option<
        <C::Item as Present>::Val,
    >) {
        if let Some(v) = newest_of(deps.0) {
            self.held = Some(v);
        }
        self.held
    }
}

/// Once a level holds a value it holds one forever, whatever comes.
pub proof fn a_level_once_held_stands<T: Present>(held: Option<T::Val>, run: Seq<T>)
    requires
        held is Some,
    ensures
        standing(held, run) is Some,
{
}

/// A batch that carried nothing, or nothing present, leaves the level where it stood.
pub proof fn a_silent_batch_moves_no_level<T: Present>(held: Option<T::Val>, run: Seq<T>)
    requires
        forall|i: int| 0 <= i < run.len() ==> (#[trigger] run[i]).value() is None,
    ensures
        standing(held, run) == held,
    decreases run.len(),
{
    if run.len() > 0 {
        assert(run[run.len() - 1].value() is None);
        let rest = run.drop_last();
        assert forall|i: int| 0 <= i < rest.len() implies (#[trigger] rest[i]).value() is None by {
            assert(rest[i] == run[i]);
        }
        a_silent_batch_moves_no_level(held, rest);
    }
}

/// A node behind a shut gate is dark, and stands as it stood; behind an open one it advances.
pub proof fn a_shut_gate_leaves_a_node_as_it_was<'t, N, F, I>(
    frame: &F,
    was: N,
    after: N,
    out: N::Out<'t>,
) where N: Node, N::Deps: Pull<'t, F, I>, N::Out<'t>: Dark<<N::Deps as DepSet>::Lead>
    requires
        stepped::<N, F, I>(frame, was, after, out),
    ensures
        !<N::Deps as Pull<'t, F, I>>::opened(frame) ==> out.darkened() && after == was,
        <N::Deps as Pull<'t, F, I>>::opened(frame) ==> was.advances(
            <N::Deps as Pull<'t, F, I>>::pulled(frame),
            &after,
            out,
        ),
{
}

} // verus!
