//! The kernel of a node whose elements are periods.

use vstd::prelude::*;

use crate::algebra::Slots;
use crate::algebra::all_lowerable;
use crate::ast::Ast;
use crate::env::{Blindfold, Env};
use crate::flat::{Flat, Unflat};
use crate::horizon::{Horizon, Timeframe};
use crate::kernel::{blanked, zeroed, PerElem, Reads};
use crate::kernel::{captured, capture_view, zeros, Captured, Reading};
use crate::scalar::Scalar;
use crate::shape::Fidelity;
use crate::want::Want;

verus! {

/// The period a [`Closes`] node is part way through: the accumulator's slots and the time they close
/// at. Held by the node because the engine owns no storage for one, and read by nothing but the
/// kernel: the body sees the slots as an env and never this struct.
pub struct Pending<V> {
    pub slots: Vec<V>,
    pub ts_close: i64,
    /// A period nothing has opened yet, which is not the same as one whose slots happen to be zero.
    pub live: bool,
}

/// A period part way through, as a value.
#[verifier::ext_equal]
pub struct PendingView<V> {
    pub slots: Seq<V>,
    pub ts_close: int,
    pub live: bool,
}

impl<V> View for Pending<V> {
    type V = PendingView<V>;

    open spec fn view(&self) -> PendingView<V> {
        PendingView { slots: self.slots@, ts_close: self.ts_close as int, live: self.live }
    }
}

impl<V> Pending<V> {
    /// No period yet.
    pub fn none() -> (r: Self)
        ensures
            !r@.live,
            r@.slots == Seq::<V>::empty(),
    {
        Pending { slots: Vec::new(), ts_close: 0, live: false }
    }
}

/// A run-shaped node whose elements are *periods*, closed by the first driving element past a
/// boundary. The kernel owns the walk and the close time; the body owns the numbers, as two
/// expressions: what a period's first element opens with, and what a further element folds into it.
///
/// Rate-changing by construction: a batch spanning two boundaries emits two elements, one spanning
/// none emits nothing, and the period still open stays in [`Pending`].
pub trait Closes<V: Scalar, D>: Reads<V, D> {
    type Item: Unflat<V>;

    type Open: Slots<V>;

    type Fold: Slots<V>;

    open spec fn period_spec() -> Timeframe {
        arbitrary()
    }

    /// How many slots a reading fills.
    open spec fn element_width() -> nat {
        arbitrary()
    }

    open spec fn open_spec(&self) -> Self::Open {
        arbitrary()
    }

    open spec fn fold_spec(&self) -> Self::Fold {
        arbitrary()
    }

    open spec fn pending_spec(&self) -> PendingView<V> {
        arbitrary()
    }

    /// The period the walk closes on, floored from the epoch.
    fn period() -> (r: Timeframe)
        ensures
            r == Self::period_spec(),
    ;

    /// What a period's first element opens the accumulator with, over the element's slots alone.
    fn open(&self) -> (r: Self::Open)
        ensures
            r == self.open_spec(),
    ;

    /// What a further element folds into it. The accumulator's own slots follow the element's, so
    /// both bodies read the element at one set of indices.
    fn fold(&self) -> (r: Self::Fold)
        ensures
            r == self.fold_spec(),
    ;

    fn pending(&self) -> (r: &Pending<V>)
        ensures
            r@ == self.pending_spec(),
    ;

    fn pending_mut(&mut self) -> (r: &mut Pending<V>)
        ensures
            r@ == old(self).pending_spec(),
            final(r)@ == final(self).pending_spec(),
            final(self).open_spec() == old(self).open_spec(),
            final(self).fold_spec() == old(self).fold_spec(),
    ;
}

/// The nanoseconds of a period.
pub open spec fn step_of(tf: Timeframe) -> int {
    tf.0 * 1_000_000
}

/// When the period an event falls into closes.
pub open spec fn closes_at(ts: int, step: int) -> int {
    ts - ts % step + step
}

/// Where a walk over some elements stands.
#[verifier::ext_equal]
pub struct Walk<V, T> {
    pub pending: PendingView<V>,
    /// The periods closed so far.
    pub closed: Seq<T>,
    /// The env of the newest element to have touched the open period, and whether it folded into it
    /// or opened it.
    pub newest: Option<(Seq<V>, bool)>,
    /// The same of the element that the newest *closed* period was last computed from.
    pub last: Option<(Seq<V>, bool)>,
}

/// The kernel of a [`Closes`] node.
pub struct Close;

impl Close {
    /// The column stands for the element that *closed* the reported period; those before it reached it
    /// only through the accumulator, which is no dep.
    pub open spec fn claim() -> Fidelity {
        Fidelity::Partial(
            "the elements earlier in the period, which the accumulator carries and no column stands for",
        )
    }

    pub fn fidelity() -> (r: Fidelity)
        ensures
            r == Self::claim(),
    {
        Fidelity::Partial(
            "the elements earlier in the period, which the accumulator carries and no column stands for",
        )
    }

    /// Whether the two bodies fill the item over the envs the walk hands them, and every close time
    /// can be told.
    pub open spec fn sound<V: Scalar, D, E: Closes<V, D>>(e: E, deps: D) -> bool {
        let (elem, slots) = (E::element_width(), E::Item::len_spec());
        &&& E::readable(deps)
        &&& E::Open::width() == slots
        &&& E::Fold::width() == slots
        &&& 0 < step_of(E::period_spec()) <= i64::MAX
        &&& slots * (elem + slots) <= usize::MAX
        &&& e.open_spec().slots_fit(elem)
        &&& e.open_spec().slots_fit(elem + slots)
        &&& e.fold_spec().slots_fit(elem + slots)
        &&& all_lowerable(e.open_spec().slot_trees())
        &&& all_lowerable(e.fold_spec().slot_trees())
        &&& e.pending_spec().live ==> e.pending_spec().slots.len() == slots
        &&& forall|i: int|
            0 <= i < E::lead(deps) ==> (#[trigger] E::reading(deps, i) matches Some(x)
                ==> x.slots.len() == elem && closes_at(x.ts as int, step_of(E::period_spec()))
                <= i64::MAX)
    }

    /// Where a walk stands after one element more.
    pub open spec fn stepped<V: Scalar, D, E: Closes<V, D>>(
        e: E,
        w: Walk<V, E::Item>,
        x: Option<Reading<V>>,
    ) -> Walk<V, E::Item> {
        match x {
            None => w,
            Some(x) => {
                let ts_close = closes_at(x.ts as int, step_of(E::period_spec()));
                let p = w.pending;
                if p.live && p.ts_close == ts_close {
                    let env = x.slots + p.slots;
                    let slots = e.fold_spec().slot_values(env);
                    Walk {
                        pending: PendingView { slots, ts_close, live: true },
                        newest: Some((env, true)),
                        ..w
                    }
                } else {
                    let slots = e.open_spec().slot_values(x.slots);
                    Walk {
                        pending: PendingView { slots, ts_close, live: true },
                        closed: if p.live {
                            w.closed.push(E::Item::item(p.ts_close as i64, p.slots))
                        } else {
                            w.closed
                        },
                        newest: Some((x.slots + zeros(E::Item::len_spec()), false)),
                        last: if p.live {
                            w.newest
                        } else {
                            w.last
                        },
                    }
                }
            },
        }
    }

    /// Where the walk over the first `n` elements of a batch stands.
    pub open spec fn walk<V: Scalar, D, E: Closes<V, D>>(e: E, deps: D, n: nat) -> Walk<V, E::Item>
        decreases n,
    {
        if n == 0 {
            Walk { pending: e.pending_spec(), closed: Seq::empty(), newest: None, last: None }
        } else {
            Close::stepped::<V, D, E>(
                e,
                Close::walk::<V, D, E>(e, deps, (n - 1) as nat),
                E::reading(deps, n - 1),
            )
        }
    }

    pub fn emit<V: Scalar, D, E: Closes<V, D>>(e: &mut E, deps: &D, out: &mut Vec<E::Item>)
        requires
            Close::sound::<V, D, E>(*old(e), *deps),
        ensures
            final(out)@ == old(out)@ + Close::walk::<V, D, E>(
                *old(e),
                *deps,
                E::lead(*deps),
            ).closed,
            final(e).pending_spec() == Close::walk::<V, D, E>(
                *old(e),
                *deps,
                E::lead(*deps),
            ).pending,
            final(e).open_spec() == old(e).open_spec(),
            final(e).fold_spec() == old(e).fold_spec(),
    {
        let ghost first = *e;
        let step: i64 = Horizon::ns(E::period());
        let slots_w: usize = <E::Item as Flat<V>>::len();
        let n: usize = E::lead_fires(deps);
        let open: E::Open = e.open();
        let fold: E::Fold = e.fold();
        let ghost before = out@;
        let mut held: Vec<V> = Vec::new();
        let p: &Pending<V> = e.pending();
        copy_to(p.slots.as_slice(), &mut held);
        let mut ts_close: i64 = p.ts_close;
        let mut live: bool = p.live;
        let mut slots: Vec<V> = blanked(slots_w);
        let mut env: Env<V, Blindfold> = Env::new();
        let mut i: usize = 0;
        while i < n
            invariant
                i <= n == E::lead(*deps),
                Close::sound::<V, D, E>(first, *deps),
                step == step_of(E::period_spec()),
                slots_w == E::Item::len_spec() == slots@.len(),
                open == first.open_spec(),
                fold == first.fold_spec(),
                live ==> held@.len() == slots_w,
                Close::walk::<V, D, E>(first, *deps, i as nat).pending == (PendingView {
                    slots: held@,
                    ts_close: ts_close as int,
                    live,
                }),
                out@ == before + Close::walk::<V, D, E>(first, *deps, i as nat).closed,
            decreases n - i,
        {
            env.rewind();
            let ghost was = Close::walk::<V, D, E>(first, *deps, i as nat);
            let ghost x = E::reading(*deps, i as int);
            if let Some(ts) = E::read(deps, i, &mut env) {
                proof {
                    lemma_closes(ts as int, step as int);
                }
                let at: i64 = ts + (step - ts.checked_rem_euclid(step).unwrap());
                if live && ts_close == at {
                    let mut cur: Vec<V> = Vec::new();
                    copy_to(env.filled(), &mut cur);
                    append(held.as_slice(), &mut cur);
                    fold.eval_slots(cur.as_slice(), slots.as_mut_slice());
                    proof {
                        fold.slots_fill(cur@);
                    }
                } else {
                    if live {
                        let item: E::Item = E::Item::unflat(ts_close, held.as_slice());
                        let ghost so_far = out@;
                        out.push(item);
                        assert(out@ =~= before + was.closed.push(item));
                    }
                    open.eval_slots(env.filled(), slots.as_mut_slice());
                    proof {
                        open.slots_fill(env.values());
                    }
                }
                copy_to(slots.as_slice(), &mut held);
                ts_close = at;
                live = true;
            }
            i += 1;
        }
        let p: &mut Pending<V> = e.pending_mut();
        p.slots = held;
        p.ts_close = ts_close;
        p.live = live;
    }

    /// What is captured before the emit: the slopes at the element that *closed* the last period of
    /// the batch, not at the batch's newest, whose period nothing has emitted yet. Nothing where
    /// nobody reads that far, nothing closed, or what closed was carried in from before the batch:
    /// then no element of this tick's deps is the one to differentiate against.
    pub open spec fn capture<V: Scalar, D, E: Closes<V, D>>(
        e: E,
        want: Want,
        deps: D,
    ) -> Option<Captured<V>> {
        match Close::walk::<V, D, E>(e, deps, E::lead(deps)).last {
            Some((env, folding)) if want.rank() >= Want::Jac.rank() => Some(
                if folding {
                    captured(e.fold_spec().slot_trees(), e.fold_spec(), env)
                } else {
                    captured(e.fold_spec().slot_trees(), e.open_spec(), env)
                },
            ),
            _ => None,
        }
    }

    /// The walk again, for its indices alone.
    pub fn pre<V: Scalar, D, E: Closes<V, D>>(
        e: &E,
        want: Want,
        deps: &D,
    ) -> (r: Option<PerElem<V>>)
        requires
            Close::sound::<V, D, E>(*e, *deps),
        ensures
            capture_view(r) == Close::capture::<V, D, E>(*e, want, *deps),
    {
        if !want.at_least(Want::Jac) {
            return None;
        }
        let step: i64 = Horizon::ns(E::period());
        let slots_w: usize = <E::Item as Flat<V>>::len();
        let n: usize = E::lead_fires(deps);
        let open: E::Open = e.open();
        let fold: E::Fold = e.fold();
        let p: &Pending<V> = e.pending();
        let mut held: Vec<V> = Vec::new();
        copy_to(p.slots.as_slice(), &mut held);
        let mut ts_close: i64 = p.ts_close;
        let mut live: bool = p.live;
        let mut slots: Vec<V> = blanked(slots_w);
        // the newest element to have touched the open period, and whether it folded or opened it,
        // which is what the element closed by the *next* boundary was last computed from.
        let mut newest: Option<(Vec<V>, bool)> = None;
        let mut closed: Option<(Vec<V>, bool)> = None;
        let mut env: Env<V, Blindfold> = Env::new();
        let mut i: usize = 0;
        while i < n
            invariant
                i <= n == E::lead(*deps),
                Close::sound::<V, D, E>(*e, *deps),
                step == step_of(E::period_spec()),
                slots_w == E::Item::len_spec() == slots@.len(),
                open == e.open_spec(),
                fold == e.fold_spec(),
                live ==> held@.len() == slots_w,
                Close::walk::<V, D, E>(*e, *deps, i as nat).pending == (PendingView {
                    slots: held@,
                    ts_close: ts_close as int,
                    live,
                }),
                Close::walk::<V, D, E>(*e, *deps, i as nat).newest == noted(newest),
                Close::walk::<V, D, E>(*e, *deps, i as nat).last == noted(closed),
                noted(newest) matches Some((v, f)) ==> v.len() == E::element_width() + slots_w,
                noted(closed) matches Some((v, f)) ==> v.len() == E::element_width() + slots_w,
            decreases n - i,
        {
            env.rewind();
            let ghost x = E::reading(*deps, i as int);
            if let Some(ts) = E::read(deps, i, &mut env) {
                proof {
                    lemma_closes(ts as int, step as int);
                }
                let at: i64 = ts + (step - ts.checked_rem_euclid(step).unwrap());
                let folding: bool = live && ts_close == at;
                let mut cur: Vec<V> = Vec::new();
                copy_to(env.filled(), &mut cur);
                if folding {
                    append(held.as_slice(), &mut cur);
                    fold.eval_slots(cur.as_slice(), slots.as_mut_slice());
                    proof {
                        fold.slots_fill(cur@);
                    }
                } else {
                    let none: Vec<V> = zeroed(slots_w);
                    append(none.as_slice(), &mut cur);
                    if live {
                        closed = newest;
                    }
                    open.eval_slots(env.filled(), slots.as_mut_slice());
                    proof {
                        open.slots_fill(env.values());
                    }
                }
                newest = Some((cur, folding));
                copy_to(slots.as_slice(), &mut held);
                ts_close = at;
                live = true;
            }
            i += 1;
        }
        match closed {
            None => None,
            Some((cur, folding)) => {
                let stride: usize = cur.len();
                let mut grad: Vec<V> = zeroed(slots_w * stride);
                if folding {
                    fold.grad_slots(cur.as_slice(), grad.as_mut_slice());
                } else {
                    open.grad_slots(cur.as_slice(), grad.as_mut_slice());
                }
                let formulas: Vec<Ast<V>> = fold.lower_slots();
                Some(PerElem { formulas, grad, stride })
            },
        }
    }
}

/// An env kept for later, and whether it folded.
pub open spec fn noted<V>(x: Option<(Vec<V>, bool)>) -> Option<(Seq<V>, bool)> {
    match x {
        Some((v, f)) => Some((v@, f)),
        None => None,
    }
}

/// A period closes within its length of any event in it.
proof fn lemma_closes(ts: int, step: int)
    requires
        step > 0,
    ensures
        ts < closes_at(ts, step) <= ts + step,
        0 <= ts % step < step,
{
    vstd::arithmetic::div_mod::lemma_fundamental_div_mod(ts, step);
    vstd::arithmetic::div_mod::lemma_mod_bound(ts, step);
}

pub(crate) fn append<V: Scalar>(from: &[V], to: &mut Vec<V>)
    ensures
        final(to)@ == old(to)@ + from@,
{
    let ghost before = to@;
    let mut i: usize = 0;
    while i < from.len()
        invariant
            i <= from@.len(),
            to@ == before + from@.take(i as int),
        decreases from@.len() - i,
    {
        to.push(from[i]);
        assert(from@.take(i + 1) =~= from@.take(i as int).push(from@[i as int]));
        i += 1;
    }
    assert(from@.take(i as int) =~= from@);
}

pub(crate) fn copy_to<V: Scalar>(from: &[V], to: &mut Vec<V>)
    ensures
        final(to)@ == from@,
{
    *to = Vec::new();
    append(from, to);
    assert(to@ =~= from@);
}

} // verus!
