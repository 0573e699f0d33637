//! The finite-difference witness: what is pulled, owned and perturbed, and the node stepped again
//! over it.

use vstd::prelude::*;

use crate::block::Column;
use crate::bump::Bump;
use crate::cell::{Cell, Folding};
use crate::dep_flat::DepFlat;
use crate::deps::DepSet;
use crate::emit::Emit;
use crate::flat::Flat;
use crate::flat::{last_fired, last_slots, lemma_slice_of, slice_of};
use crate::horizon::{Horizon, Reach};
use crate::kernel::blanked;
use crate::latch::{Gate, Gating};
use crate::level::Refired;
use crate::node::Node;
use crate::retain::Batch;
use crate::rows::{Hist, Present, Rows};
use crate::scalar::Scalar;
use crate::series::{Buffering, Sampling, Series};
use crate::stamped::Stamped;
use crate::want::Want;

verus! {

/// A cell's finite-difference witness: own a pulled out, bumping one slot of it where asked, and hand
/// it back at a lifetime of its own. Owning is what unties stepping the node again from the tick the
/// out was pulled on.
pub trait Nudge<V: Scalar>: Cell {
    type Scratch;

    /// Whether the out can be owned, and the slot of it moved so far.
    open spec fn can_stage<'t>(out: Self::Out<'t>, bump: Option<int>, h: V) -> bool {
        arbitrary()
    }

    /// The out with the slot moved.
    open spec fn nudged<'t>(out: Self::Out<'t>, bump: Option<int>, h: V) -> Self::Out<'t> where 't: 't {
        arbitrary()
    }

    /// How far it moved, in the out's own units.
    open spec fn applied<'t>(out: Self::Out<'t>, bump: Option<int>, h: V) -> V {
        arbitrary()
    }

    /// What a scratch holds, read back as an out.
    open spec fn shown<'l>(scratch: &'l Self::Scratch) -> Self::Out<'l> {
        arbitrary()
    }

    open spec fn holds(scratch: &Self::Scratch) -> bool {
        arbitrary()
    }

    /// Whether two outs read alike: as one value, where a copy is no more than that.
    open spec fn alike<'t>(a: Self::Out<'t>, b: Self::Out<'t>) -> bool {
        a == b
    }

    /// Whether nothing was staged into a scratch.
    open spec fn unstaged(scratch: &Self::Scratch) -> bool {
        arbitrary()
    }

    fn fresh() -> (r: Self::Scratch)
        ensures
            Self::unstaged(&r),
    ;

    fn stage<'t>(out: Self::Out<'t>, scratch: &mut Self::Scratch, bump: Option<usize>, h: V) -> (dh: V)
        requires
            Self::can_stage(out, slot_of(bump), h),
        ensures
            Self::holds(final(scratch)),
            Self::alike(Self::shown(final(scratch)), Self::nudged(out, slot_of(bump), h)),
            dh == Self::applied(out, slot_of(bump), h),
    ;

    fn view<'l>(scratch: &'l Self::Scratch) -> (r: Self::Out<'l>)
        requires
            Self::holds(scratch),
        ensures
            r == Self::shown(scratch),
    ;
}

pub open spec fn slot_of(bump: Option<usize>) -> Option<int> {
    match bump {
        Some(s) => Some(s as int),
        None => None,
    }
}

/// Whether a slot is one of an item's.
pub open spec fn within_item<V: Scalar, T: Flat<V>>(bump: Option<int>) -> bool {
    bump matches Some(s) ==> 0 <= s < T::len_spec()
}

/// A run with one slot of its last element moved.
pub open spec fn run_nudged<V: Scalar, T: Bump<V>>(xs: Seq<T>, bump: Option<int>, h: V) -> Seq<T> {
    match bump {
        Some(s) if xs.len() > 0 => xs.update(xs.len() - 1, xs.last().bumped(s, h).0),
        _ => xs,
    }
}

pub open spec fn run_applied<V: Scalar, T: Bump<V>>(xs: Seq<T>, bump: Option<int>, h: V) -> V {
    match bump {
        Some(s) if xs.len() > 0 => xs.last().bumped(s, h).1,
        _ => V::whole(0),
    }
}

/// A run-out cell's witness: copy the run, bump the last element when asked.
pub fn stage_run<V: Scalar, T: Bump<V>>(out: &[T], scratch: &mut Vec<T>, bump: Option<usize>, h: V) -> (dh:
    V)
    requires
        within_item::<V, T>(slot_of(bump)),
    ensures
        final(scratch)@ == run_nudged(out@, slot_of(bump), h),
        dh == run_applied(out@, slot_of(bump), h),
{
    let mut copy: Vec<T> = Vec::new();
    let n: usize = out.len();
    let mut i: usize = 0;
    while i < n
        invariant
            i <= n == out@.len(),
            copy@ == out@.take(i as int),
        decreases n - i,
    {
        copy.push(out[i]);
        assert(out@.take(i + 1) =~= out@.take(i as int).push(out@[i as int]));
        i += 1;
    }
    assert(copy@ =~= out@);
    let mut dh: V = V::of(0);
    if let Some(slot) = bump {
        if n > 0 {
            let (e, step) = copy[n - 1].bump(slot, h);
            copy.set(n - 1, e);
            dh = step;
        }
    }
    *scratch = copy;
    dh
}

/// A value-out cell's witness: the scratch is the value itself.
pub fn stage_value<V: Scalar, T: Bump<V>>(out: T, scratch: &mut Option<T>, bump: Option<usize>, h: V) -> (dh:
    V)
    requires
        within_item::<V, T>(slot_of(bump)),
    ensures
        *final(scratch) == Some(value_nudged(out, slot_of(bump), h)),
        dh == value_applied(out, slot_of(bump), h),
{
    match bump {
        Some(slot) => {
            let (v, dh) = out.bump(slot, h);
            *scratch = Some(v);
            dh
        },
        None => {
            *scratch = Some(out);
            V::of(0)
        },
    }
}

pub open spec fn value_nudged<V: Scalar, T: Bump<V>>(out: T, bump: Option<int>, h: V) -> T {
    match bump {
        Some(s) => out.bumped(s, h).0,
        None => out,
    }
}

pub open spec fn value_applied<V: Scalar, T: Bump<V>>(out: T, bump: Option<int>, h: V) -> V {
    match bump {
        Some(s) => out.bumped(s, h).1,
        None => V::whole(0),
    }
}

/// A retention that can be owned again, its newest item perturbed where asked.
pub trait Restage<V: Scalar, T: Bump<V> + 'static>: Batch<T> + 'static {
    /// Whether a view read at `at` can be owned, and the slot of it moved so far.
    open spec fn can_stage<'t>(view: Self::View<'t>, at: Horizon, bump: Option<int>, h: V) -> bool {
        arbitrary()
    }

    open spec fn nudged<'t>(view: Self::View<'t>, bump: Option<int>, h: V) -> Self::View<'t> where 't: 't {
        arbitrary()
    }

    open spec fn applied<'t>(view: Self::View<'t>, bump: Option<int>, h: V) -> V {
        arbitrary()
    }

    /// What is retained, read at `at`.
    open spec fn shown<'l>(&'l self, at: Horizon) -> Self::View<'l> where 'l: 'l {
        arbitrary()
    }

    open spec fn alike<'t>(a: Self::View<'t>, b: Self::View<'t>) -> bool {
        a == b
    }

    proof fn one_view<'l>(&'l self, at: Horizon, view: Self::View<'l>)
        requires
            self.sound(),
            self.views(at, view),
        ensures
            view == self.shown(at),
    ;

    /// Whether nothing is retained.
    open spec fn blank(&self) -> bool {
        arbitrary()
    }

    fn nothing() -> (r: Self)
        ensures
            r.blank(),
    ;

    fn stage<'t>(&mut self, view: Self::View<'t>, at: Horizon, bump: Option<usize>, h: V) -> (dh: V)
        requires
            Self::can_stage(view, at, slot_of(bump), h),
        ensures
            final(self).sound(),
            Self::alike(final(self).shown(at), Self::nudged(view, slot_of(bump), h)),
            dh == Self::applied(view, slot_of(bump), h),
    ;
}

impl<V: Scalar, T: Bump<V> + Stamped + 'static> Restage<V, T> for Rows<T> {
    open spec fn can_stage<'t>(view: Hist<'t, T>, at: Horizon, bump: Option<int>, h: V) -> bool {
        view.wf() && view.horizon == at && within_item::<V, T>(bump)
    }

    open spec fn nudged<'t>(view: Hist<'t, T>, bump: Option<int>, h: V) -> Hist<'t, T> where 't: 't {
        Hist { all: slice_of(run_nudged(view.all@, bump, h)), ..view }
    }

    open spec fn applied<'t>(view: Hist<'t, T>, bump: Option<int>, h: V) -> V {
        run_applied(view.all@, bump, h)
    }

    open spec fn shown<'l>(&'l self, at: Horizon) -> Hist<'l, T> where 'l: 'l {
        Hist {
            all: slice_of(self@.all),
            fresh: self@.fresh as usize,
            horizon: at,
            watermark: self@.watermark as i64,
        }
    }

    proof fn one_view<'l>(&'l self, at: Horizon, view: Hist<'l, T>) {
        lemma_slice_of(view.all);
    }

    open spec fn blank(&self) -> bool {
        self.wf() && self@.all.len() == 0
    }

    fn nothing() -> (r: Rows<T>) {
        Rows::default()
    }

    fn stage<'t>(&mut self, view: Hist<'t, T>, at: Horizon, bump: Option<usize>, h: V) -> (dh: V) {
        let mut all: Vec<T> = Vec::new();
        let dh: V = stage_run(view.all, &mut all, bump, h);
        *self = Rows::of(all, view.fresh, view.watermark);
        dh
    }
}

/// The scratch is the retention itself: what one hands out is its own to own again.
impl<V: Scalar, C: Series, R: Reach> Nudge<V> for Buffering<C, R> where
    for <'x>C: Cell<Out<'x> = &'x [<C as Series>::Item]>,
    C::Item: Bump<V> + 'static,
    C::Batch: Restage<V, C::Item>,
 {
    type Scratch = C::Batch;

    open spec fn can_stage<'t>(out: Self::Out<'t>, bump: Option<int>, h: V) -> bool {
        <C::Batch as Restage<V, C::Item>>::can_stage(out, R::reach(), bump, h)
    }

    open spec fn nudged<'t>(out: Self::Out<'t>, bump: Option<int>, h: V) -> Self::Out<'t> where 't: 't {
        <C::Batch as Restage<V, C::Item>>::nudged(out, bump, h)
    }

    open spec fn applied<'t>(out: Self::Out<'t>, bump: Option<int>, h: V) -> V {
        <C::Batch as Restage<V, C::Item>>::applied(out, bump, h)
    }

    open spec fn shown<'l>(scratch: &'l C::Batch) -> Self::Out<'l> {
        <C::Batch as Restage<V, C::Item>>::shown(scratch, R::reach())
    }

    open spec fn holds(scratch: &C::Batch) -> bool {
        scratch.sound()
    }

    open spec fn alike<'t>(a: Self::Out<'t>, b: Self::Out<'t>) -> bool {
        <C::Batch as Restage<V, C::Item>>::alike(a, b)
    }

    open spec fn unstaged(scratch: &C::Batch) -> bool {
        <C::Batch as Restage<V, C::Item>>::blank(scratch)
    }

    fn fresh() -> (r: C::Batch) {
        <C::Batch as Restage<V, C::Item>>::nothing()
    }

    fn stage<'t>(out: Self::Out<'t>, scratch: &mut C::Batch, bump: Option<usize>, h: V) -> (dh: V) {
        scratch.stage(out, R::horizon(), bump, h)
    }

    fn view<'l>(scratch: &'l C::Batch) -> (r: Self::Out<'l>) {
        let r: <C::Batch as Batch<C::Item>>::View<'l> = scratch.read(R::horizon());
        proof {
            <C::Batch as Restage<V, C::Item>>::one_view(scratch, R::reach(), r);
        }
        r
    }
}

/// The level is its own scratch.
impl<V: Scalar, C: Series> Nudge<V> for Sampling<C> where
    for <'x>C: Cell<Out<'x> = &'x [<C as Series>::Item]>,
    C::Item: Present,
    <C::Item as Present>::Val: Bump<V>,
 {
    type Scratch = Option<Option<<C::Item as Present>::Val>>;

    open spec fn can_stage<'t>(
        out: Option<<C::Item as Present>::Val>,
        bump: Option<int>,
        h: V,
    ) -> bool {
        within_item::<V, <C::Item as Present>::Val>(bump)
    }

    open spec fn nudged<'t>(
        out: Option<<C::Item as Present>::Val>,
        bump: Option<int>,
        h: V,
    ) -> Option<<C::Item as Present>::Val> where 't: 't {
        value_nudged(out, bump, h)
    }

    open spec fn applied<'t>(out: Option<<C::Item as Present>::Val>, bump: Option<int>, h: V) -> V {
        value_applied(out, bump, h)
    }

    open spec fn shown<'l>(scratch: &'l Option<Option<<C::Item as Present>::Val>>) -> Option<
        <C::Item as Present>::Val,
    > {
        scratch->Some_0
    }

    open spec fn holds(scratch: &Option<Option<<C::Item as Present>::Val>>) -> bool {
        scratch is Some
    }

    open spec fn unstaged(scratch: &Option<Option<<C::Item as Present>::Val>>) -> bool {
        scratch is None
    }

    fn fresh() -> (r: Option<Option<<C::Item as Present>::Val>>) {
        None
    }

    fn stage<'t>(
        out: Option<<C::Item as Present>::Val>,
        scratch: &mut Option<Option<<C::Item as Present>::Val>>,
        bump: Option<usize>,
        h: V,
    ) -> (dh: V) {
        stage_value(out, scratch, bump, h)
    }

    fn view<'l>(scratch: &'l Option<Option<<C::Item as Present>::Val>>) -> (r: Option<
        <C::Item as Present>::Val,
    >) {
        scratch.unwrap()
    }
}

impl<V: Scalar, C: Nudge<V>, R: Reach> Nudge<V> for Folding<C, R> {
    type Scratch = C::Scratch;

    open spec fn can_stage<'t>(out: C::Out<'t>, bump: Option<int>, h: V) -> bool {
        C::can_stage(out, bump, h)
    }

    open spec fn nudged<'t>(out: C::Out<'t>, bump: Option<int>, h: V) -> C::Out<'t> where 't: 't {
        C::nudged(out, bump, h)
    }

    open spec fn applied<'t>(out: C::Out<'t>, bump: Option<int>, h: V) -> V {
        C::applied(out, bump, h)
    }

    open spec fn shown<'l>(scratch: &'l C::Scratch) -> C::Out<'l> {
        C::shown(scratch)
    }

    open spec fn holds(scratch: &C::Scratch) -> bool {
        C::holds(scratch)
    }

    open spec fn alike<'t>(a: C::Out<'t>, b: C::Out<'t>) -> bool {
        C::alike(a, b)
    }

    open spec fn unstaged(scratch: &C::Scratch) -> bool {
        C::unstaged(scratch)
    }

    fn fresh() -> (r: C::Scratch) {
        C::fresh()
    }

    fn stage<'t>(out: C::Out<'t>, scratch: &mut C::Scratch, bump: Option<usize>, h: V) -> (dh: V) {
        C::stage(out, scratch, bump, h)
    }

    fn view<'l>(scratch: &'l C::Scratch) -> (r: C::Out<'l>) {
        C::view(scratch)
    }
}

/// A gate carries no signal to differentiate against, so the column its slot owns stays absent.
impl<V: Scalar, C: Gate> Nudge<V> for Gating<C> where for <'x>C: Cell<Out<'x> = bool> {
    type Scratch = Option<bool>;

    open spec fn can_stage<'t>(out: bool, bump: Option<int>, h: V) -> bool {
        within_item::<V, bool>(bump)
    }

    open spec fn nudged<'t>(out: bool, bump: Option<int>, h: V) -> bool where 't: 't {
        out
    }

    open spec fn applied<'t>(out: bool, bump: Option<int>, h: V) -> V {
        V::whole(0)
    }

    open spec fn shown<'l>(scratch: &'l Option<bool>) -> bool {
        scratch->Some_0
    }

    open spec fn holds(scratch: &Option<bool>) -> bool {
        scratch is Some
    }

    open spec fn unstaged(scratch: &Option<bool>) -> bool {
        scratch is None
    }

    fn fresh() -> (r: Option<bool>) {
        None
    }

    fn stage<'t>(out: bool, scratch: &mut Option<bool>, bump: Option<usize>, h: V) -> (dh: V) {
        stage_value(out, scratch, bump, h)
    }

    fn view<'l>(scratch: &'l Option<bool>) -> (r: bool) {
        scratch.unwrap()
    }
}

/// What a node's deps are owned as, one slot of the whole bumped.
pub trait DepNudge<V: Scalar>: DepFlat<V> {
    type Scratch;

    open spec fn can_stage<'t>(outs: Self::Outs<'t>, slot: Option<int>, h: V) -> bool {
        arbitrary()
    }

    open spec fn nudged<'t>(outs: Self::Outs<'t>, slot: Option<int>, h: V) -> Self::Outs<'t> where 't: 't {
        arbitrary()
    }

    open spec fn applied<'t>(outs: Self::Outs<'t>, slot: Option<int>, h: V) -> V {
        arbitrary()
    }

    open spec fn shown<'l>(scratch: &'l Self::Scratch) -> Self::Outs<'l> {
        arbitrary()
    }

    open spec fn holds(scratch: &Self::Scratch) -> bool {
        arbitrary()
    }

    open spec fn alike<'t>(a: Self::Outs<'t>, b: Self::Outs<'t>) -> bool {
        arbitrary()
    }

    open spec fn unstaged(scratch: &Self::Scratch) -> bool {
        arbitrary()
    }

    fn fresh() -> (r: Self::Scratch)
        ensures
            Self::unstaged(&r),
    ;

    /// Owns the pulled outs, bumping the element owning `slot` by about `h` and returning the
    /// perturbation that dep actually applied.
    fn stage<'t>(outs: &Self::Outs<'t>, scratch: &mut Self::Scratch, slot: Option<usize>, h: V) -> (dh:
        V)
        requires
            Self::can_stage(*outs, slot_of(slot), h),
        ensures
            Self::holds(final(scratch)),
            Self::alike(Self::shown(final(scratch)), Self::nudged(*outs, slot_of(slot), h)),
            dh == Self::applied(*outs, slot_of(slot), h),
    ;

    fn view<'l>(scratch: &'l Self::Scratch) -> (r: Self::Outs<'l>)
        requires
            Self::holds(scratch),
        ensures
            r == Self::shown(scratch),
    ;
}

impl<V: Scalar> DepNudge<V> for () {
    type Scratch = ();

    open spec fn can_stage<'t>(outs: (), slot: Option<int>, h: V) -> bool {
        true
    }

    open spec fn nudged<'t>(outs: (), slot: Option<int>, h: V) -> () where 't: 't {
        ()
    }

    open spec fn applied<'t>(outs: (), slot: Option<int>, h: V) -> V {
        V::whole(0)
    }

    open spec fn shown<'l>(scratch: &'l ()) -> () {
        ()
    }

    open spec fn holds(scratch: &()) -> bool {
        true
    }

    open spec fn alike<'t>(a: (), b: ()) -> bool {
        true
    }

    open spec fn unstaged(scratch: &()) -> bool {
        true
    }

    fn fresh() -> (r: ()) {
    }

    fn stage<'t>(outs: &(), scratch: &mut (), slot: Option<usize>, h: V) -> (dh: V) {
        V::of(0)
    }

    fn view<'l>(scratch: &'l ()) -> (r: ()) {
    }
}

/// The slot of the leading dep, where it owns it.
pub open spec fn own(slot: Option<int>, width: int) -> Option<int> {
    match slot {
        Some(s) if s < width => Some(s),
        _ => None,
    }
}

/// The slot among the deps behind it, where one of them owns it.
pub open spec fn rest(slot: Option<int>, width: int) -> Option<int> {
    match slot {
        Some(s) if s >= width => Some(s - width),
        _ => None,
    }
}

impl<V: Scalar, H: Nudge<V>, T: DepNudge<V>> DepNudge<V> for (H, T) where for <'x>H::Out<'x>: Flat<V> {
    type Scratch = (H::Scratch, T::Scratch);

    open spec fn can_stage<'t>(outs: (H::Out<'t>, T::Outs<'t>), slot: Option<int>, h: V) -> bool {
        let w = <H::Out<'static> as Flat<V>>::len_spec() as int;
        H::can_stage(outs.0, own(slot, w), h) && T::can_stage(outs.1, rest(slot, w), h)
    }

    open spec fn nudged<'t>(outs: (H::Out<'t>, T::Outs<'t>), slot: Option<int>, h: V) -> (
        H::Out<'t>,
        T::Outs<'t>,
    ) where 't: 't {
        let w = <H::Out<'static> as Flat<V>>::len_spec() as int;
        (H::nudged(outs.0, own(slot, w), h), T::nudged(outs.1, rest(slot, w), h))
    }

    open spec fn applied<'t>(outs: (H::Out<'t>, T::Outs<'t>), slot: Option<int>, h: V) -> V {
        let w = <H::Out<'static> as Flat<V>>::len_spec() as int;
        if own(slot, w) is Some {
            H::applied(outs.0, own(slot, w), h)
        } else {
            T::applied(outs.1, rest(slot, w), h)
        }
    }

    open spec fn shown<'l>(scratch: &'l (H::Scratch, T::Scratch)) -> (H::Out<'l>, T::Outs<'l>) {
        (H::shown(&scratch.0), T::shown(&scratch.1))
    }

    open spec fn holds(scratch: &(H::Scratch, T::Scratch)) -> bool {
        H::holds(&scratch.0) && T::holds(&scratch.1)
    }

    open spec fn alike<'t>(a: (H::Out<'t>, T::Outs<'t>), b: (H::Out<'t>, T::Outs<'t>)) -> bool {
        H::alike(a.0, b.0) && T::alike(a.1, b.1)
    }

    open spec fn unstaged(scratch: &(H::Scratch, T::Scratch)) -> bool {
        H::unstaged(&scratch.0) && T::unstaged(&scratch.1)
    }

    fn fresh() -> (r: (H::Scratch, T::Scratch)) {
        (H::fresh(), T::fresh())
    }

    fn stage<'t>(
        outs: &(H::Out<'t>, T::Outs<'t>),
        scratch: &mut (H::Scratch, T::Scratch),
        slot: Option<usize>,
        h: V,
    ) -> (dh: V) {
        let w: usize = <H::Out<'static> as Flat<V>>::len();
        let (mine, theirs): (Option<usize>, Option<usize>) = match slot {
            Some(s) => if s < w {
                (Some(s), None)
            } else {
                (None, Some(s - w))
            },
            None => (None, None),
        };
        let head: V = H::stage(outs.0, &mut scratch.0, mine, h);
        let tail: V = T::stage(&outs.1, &mut scratch.1, theirs, h);
        if mine.is_some() {
            head
        } else {
            tail
        }
    }

    fn view<'l>(scratch: &'l (H::Scratch, T::Scratch)) -> (r: (H::Out<'l>, T::Outs<'l>)) {
        (H::view(&scratch.0), T::view(&scratch.1))
    }
}

/// A node that computes in code, and therefore has no algebra reading. It can be copied, so it can be
/// stepped again, and stepping it over deps that read alike shows the same out.
pub trait Blind<V: Scalar>: Node where for <'x>Self::Out<'x>: Flat<V>, Self::Deps: DepNudge<V> {
    /// What an advance over these deps flattens to, and whether it fires.
    open spec fn shows<'t>(&self, deps: <Self::Deps as DepSet>::Outs<'t>) -> (Seq<V>, bool) {
        arbitrary()
    }

    /// Whether what an advance over these deps puts out can be flattened.
    open spec fn presentable<'t>(&self, deps: <Self::Deps as DepSet>::Outs<'t>) -> bool {
        true
    }

    /// Whether a node shows what this one does.
    open spec fn twin(&self, other: &Self) -> bool {
        *self == *other
    }

    proof fn an_advance_shows<'t>(
        &self,
        deps: <Self::Deps as DepSet>::Outs<'t>,
        after: &Self,
        out: Self::Out<'t>,
    )
        requires
            self.presentable(deps),
            self.advances(deps, after, out),
        ensures
            out.sound(),
            out.slots() == self.shows(deps).0,
            out.fired() == self.shows(deps).1,
    ;

    proof fn a_twin_shows_alike<'t>(
        &self,
        other: &Self,
        a: <Self::Deps as DepSet>::Outs<'t>,
        b: <Self::Deps as DepSet>::Outs<'t>,
    )
        requires
            self.twin(other),
            self.can_advance(a),
            self.presentable(a),
            <Self::Deps as DepNudge<V>>::alike(b, a),
        ensures
            other.can_advance(b),
            other.presentable(b),
            other.shows(b) == self.shows(a),
    ;

    open spec fn reason() -> Seq<char> {
        arbitrary()
    }

    /// Why there is no algebra.
    fn why() -> (r: &'static str)
        ensures
            r@ == Self::reason(),
    ;

    fn copied(&self) -> (r: Self)
        ensures
            self.twin(&r),
    ;
}

/// A node as it stood before an advance, to be stepped again.
pub struct Restep<N>(pub N);

impl<'d, V: Scalar, N: Blind<V>> Column<V, <N::Deps as DepSet>::Outs<'d>> for Restep<N> where
    for <'x>N::Out<'x>: Flat<V>,
    N::Deps: DepNudge<V>,
 {
    open spec fn ready(&self, deps: <N::Deps as DepSet>::Outs<'d>, slot: int, h: V) -> bool {
        &&& 0 <= slot
        &&& <N::Deps as DepNudge<V>>::can_stage(deps, Some(slot), h)
        &&& self.0.can_advance(<N::Deps as DepNudge<V>>::nudged(deps, Some(slot), h))
        &&& self.0.presentable(<N::Deps as DepNudge<V>>::nudged(deps, Some(slot), h))
    }

    open spec fn bumped(&self, deps: <N::Deps as DepSet>::Outs<'d>, slot: int, h: V) -> (
        Seq<V>,
        bool,
        V,
    ) {
        let (vals, fired) = self.0.shows(<N::Deps as DepNudge<V>>::nudged(deps, Some(slot), h));
        (vals, fired, <N::Deps as DepNudge<V>>::applied(deps, Some(slot), h))
    }

    fn col(
        &self,
        deps: &<N::Deps as DepSet>::Outs<'d>,
        slot: usize,
        h: V,
        bumped: &mut Vec<V>,
    ) -> (r: (bool, V)) {
        let mut scratch: <N::Deps as DepNudge<V>>::Scratch = <N::Deps as DepNudge<V>>::fresh();
        let dh: V = <N::Deps as DepNudge<V>>::stage(deps, &mut scratch, Some(slot), h);
        let mut node: N = self.0.copied();
        let owned = <N::Deps as DepNudge<V>>::view(&scratch);
        proof {
            let nudged = <N::Deps as DepNudge<V>>::nudged(*deps, Some(slot as int), h);
            self.0.a_twin_shows_alike(&node, nudged, owned);
        }
        let fired: bool = restepped(&mut node, owned, bumped);
        (fired, dh)
    }
}

/// One advance, flattened.
fn restepped<'t, V: Scalar, N: Blind<V>>(
    node: &'t mut N,
    deps: <N::Deps as DepSet>::Outs<'t>,
    bumped: &mut Vec<V>,
) -> (fired: bool) where for <'x>N::Out<'x>: Flat<V>, N::Deps: DepNudge<V>
    requires
        old(node).can_advance(deps),
        old(node).presentable(deps),
    ensures
        final(bumped)@ == old(node).shows(deps).0,
        fired == old(node).shows(deps).1,
{
    let ghost was = *node;
    *bumped = blanked(<N::Out<'t> as Flat<V>>::len());
    let ghost pulled = deps;
    let out: N::Out<'t> = node.advance(deps);
    proof {
        let after = choose|after: N| was.advances(pulled, &after, out);
        was.an_advance_shows(pulled, &after, out);
    }
    out.flat(bumped.as_mut_slice())
}

/// What a [`Blind`] node is captured as: below a Jacobian nothing, and a copy of it from there on.
pub fn refire<V: Scalar, N: Blind<V>>(node: &N, want: Want) -> (r: Refired<Restep<N>>) where
    for <'x>N::Out<'x>: Flat<V>,
    N::Deps: DepNudge<V>,

    ensures
        match r.0 {
            None => want.rank() < Want::Jac.rank(),
            Some(c) => want.rank() >= Want::Jac.rank() && node.twin(&c.0),
        },
{
    if want.at_least(Want::Jac) {
        Refired(Some(Restep(node.copied())))
    } else {
        Refired(None)
    }
}

/// The run-shaped sibling of [`Blind`].
pub trait Runs<V: Scalar>: Emit where
    for <'x>Self: Cell<Out<'x> = &'x [<Self as Series>::Item]>,
    Self::Item: Flat<V>,
    Self::Deps: DepNudge<V>,
 {
    /// The run emitted off these deps.
    open spec fn run_of<'t>(&self, deps: <Self::Deps as DepSet>::Outs<'t>) -> Seq<Self::Item> {
        arbitrary()
    }

    /// Whether a node emits what this one does.
    open spec fn twin(&self, other: &Self) -> bool {
        *self == *other
    }

    proof fn an_emission_is_the_run<'t>(
        &self,
        deps: <Self::Deps as DepSet>::Outs<'t>,
        after: &Self,
    )
        ensures
            forall|run: Seq<Self::Item>| #[trigger]
                self.emits(deps, after, run) ==> run == self.run_of(deps) && (run.len() > 0
                    ==> run.last().sound()),
    ;

    proof fn a_twin_emits_alike<'t>(
        &self,
        other: &Self,
        a: <Self::Deps as DepSet>::Outs<'t>,
        b: <Self::Deps as DepSet>::Outs<'t>,
    )
        requires
            self.twin(other),
            self.can_emit(a),
            <Self::Deps as DepNudge<V>>::alike(b, a),
        ensures
            other.can_emit(b),
            other.run_of(b) == self.run_of(a),
    ;

    open spec fn reason() -> Seq<char> {
        arbitrary()
    }

    /// Why there is no algebra.
    fn why() -> (r: &'static str)
        ensures
            r@ == Self::reason(),
    ;

    fn copied(&self) -> (r: Self)
        ensures
            self.twin(&r),
    ;
}

/// A run-shaped node as it stood before it emitted, to emit again.
pub struct Reemit<E>(pub E);

impl<'d, V: Scalar, E: Runs<V>> Column<V, <E::Deps as DepSet>::Outs<'d>> for Reemit<E> where
    for <'x>E: Cell<Out<'x> = &'x [<E as Series>::Item]>,
    E::Item: Flat<V>,
    E::Deps: DepNudge<V>,
 {
    open spec fn ready(&self, deps: <E::Deps as DepSet>::Outs<'d>, slot: int, h: V) -> bool {
        &&& 0 <= slot
        &&& <E::Deps as DepNudge<V>>::can_stage(deps, Some(slot), h)
        &&& self.0.can_emit(<E::Deps as DepNudge<V>>::nudged(deps, Some(slot), h))
    }

    open spec fn bumped(&self, deps: <E::Deps as DepSet>::Outs<'d>, slot: int, h: V) -> (
        Seq<V>,
        bool,
        V,
    ) {
        let run = self.0.run_of(<E::Deps as DepNudge<V>>::nudged(deps, Some(slot), h));
        (
            last_slots(run),
            last_fired::<V, E::Item>(run),
            <E::Deps as DepNudge<V>>::applied(deps, Some(slot), h),
        )
    }

    fn col(
        &self,
        deps: &<E::Deps as DepSet>::Outs<'d>,
        slot: usize,
        h: V,
        bumped: &mut Vec<V>,
    ) -> (r: (bool, V)) {
        let mut scratch: <E::Deps as DepNudge<V>>::Scratch = <E::Deps as DepNudge<V>>::fresh();
        let dh: V = <E::Deps as DepNudge<V>>::stage(deps, &mut scratch, Some(slot), h);
        let mut node: E = self.0.copied();
        let mut run: Vec<E::Item> = Vec::new();
        let owned = <E::Deps as DepNudge<V>>::view(&scratch);
        let ghost was = node;
        proof {
            let nudged = <E::Deps as DepNudge<V>>::nudged(*deps, Some(slot as int), h);
            self.0.a_twin_emits_alike(&node, nudged, owned);
        }
        node.emit(owned, &mut run);
        proof {
            was.an_emission_is_the_run(owned, &node);
        }
        *bumped = blanked(<E::Item as Flat<V>>::len());
        let fired: bool = run.as_slice().flat(bumped.as_mut_slice());
        (fired, dh)
    }
}

pub fn refire_run<V: Scalar, E: Runs<V>>(node: &E, want: Want) -> (r: Refired<Reemit<E>>) where
    for <'x>E: Cell<Out<'x> = &'x [<E as Series>::Item]>,
    E::Item: Flat<V>,
    E::Deps: DepNudge<V>,

    ensures
        match r.0 {
            None => want.rank() < Want::Jac.rank(),
            Some(c) => want.rank() >= Want::Jac.rank() && node.twin(&c.0),
        },
{
    if want.at_least(Want::Jac) {
        Refired(Some(Reemit(node.copied())))
    } else {
        Refired(None)
    }
}

} // verus!
