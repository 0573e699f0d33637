//! The kernel of a node that carries state between its elements.

use vstd::prelude::*;

use crate::algebra::Slots;
use crate::algebra::all_lowerable;
use crate::ast::Ast;
use crate::block::{lemma_inside, lemma_place};
use crate::close::{append, copy_to};
use crate::env::{Blindfold, Env};
use crate::flat::{Flat, Unflat};
use crate::flat::blank;
use crate::kernel::{blanked, zeroed, PerElem, Reads};
use crate::kernel::{capture_view, zeros, Captured, Reading};
use crate::scalar::Scalar;
use crate::shape::Fidelity;
use crate::want::Want;

verus! {

/// What a [`Folds`] node carries between its elements. Zero at the start of a run and at every
/// reset: a recurrence that needs a different zero says so with a counter slot and a `select`, which
/// is also how it says it is not warm yet.
pub struct Carried<V> {
    pub slots: Vec<V>,
}

impl<V> View for Carried<V> {
    type V = Seq<V>;

    open spec fn view(&self) -> Seq<V> {
        self.slots@
    }
}

impl<V: Scalar> Carried<V> {
    pub fn new(n: usize) -> (r: Self)
        ensures
            r@ == zeros::<V>(n as nat),
    {
        Carried { slots: zeroed(n) }
    }
}

/// A run-shaped node computing one out element per element of its driving dep, carrying state
/// between them. Two expressions over one env: what the state becomes, and what the element then is.
///
/// The state is not a dep and has no column, so what the Jacobian omits is every earlier element's
/// reach through it, permanently and by design.
pub trait Folds<V: Scalar, D>: Reads<V, D> {
    type Item: Unflat<V>;

    type Step: Slots<V>;

    type Value: Slots<V>;

    /// How many of a reading's slots are the deps' own.
    open spec fn dep_width() -> nat {
        arbitrary()
    }

    /// How many slots a reading fills; the state follows them.
    open spec fn base() -> nat {
        arbitrary()
    }

    open spec fn step_spec(&self) -> Self::Step {
        arbitrary()
    }

    open spec fn value_spec(&self) -> Self::Value {
        arbitrary()
    }

    open spec fn carried_spec(&self) -> Seq<V> {
        arbitrary()
    }

    fn dep_slots() -> (r: usize)
        ensures
            r == Self::dep_width(),
    ;

    /// What the state becomes, over the env with the state as it stood.
    fn step(&self) -> (r: Self::Step)
        ensures
            r == self.step_spec(),
    ;

    /// What the element is, over the same env with the *stepped* state in place.
    fn value(&self) -> (r: Self::Value)
        ensures
            r == self.value_spec(),
    ;

    fn carried(&self) -> (r: &Carried<V>)
        ensures
            r@ == self.carried_spec(),
    ;

    fn carried_mut(&mut self) -> (r: &mut Carried<V>)
        ensures
            r@ == old(self).carried_spec(),
            final(r)@ == final(self).carried_spec(),
            final(self).step_spec() == old(self).step_spec(),
            final(self).value_spec() == old(self).value_spec(),
    ;
}

/// Where a fold over some elements stands.
#[verifier::ext_equal]
pub struct Folded<V, T> {
    pub state: Seq<V>,
    pub run: Seq<T>,
    /// The last element's two envs: before the state moved, and after.
    pub last: Option<(Seq<V>, Seq<V>)>,
}

/// The part of a slope that reaches the out through the first `n` state slots.
pub open spec fn through_state<V: Scalar>(
    dv: Seq<V>,
    ds: Seq<V>,
    env_w: int,
    base: int,
    row: int,
    col: int,
    n: nat,
) -> V
    decreases n,
{
    if n == 0 {
        V::whole(0)
    } else {
        through_state(dv, ds, env_w, base, row, col, (n - 1) as nat).plus(
            dv[row * env_w + base + n - 1].times(ds[(n - 1) * env_w + col]),
        )
    }
}

/// The chain rule across the two bodies: the element reaches the out directly and through the state
/// it just moved, and holding the *prior* state fixed is what makes the sum the one-step reading
/// rather than the recurrence's full derivative.
pub open spec fn chained<V: Scalar>(
    dv: Seq<V>,
    ds: Seq<V>,
    env_w: int,
    base: int,
    dep_w: int,
    rows: int,
    carry: nat,
) -> Seq<V> {
    Seq::new(
        (rows * env_w) as nat,
        |i: int|
            if i % env_w < dep_w {
                dv[i].plus(through_state(dv, ds, env_w, base, i / env_w, i % env_w, carry))
            } else {
                V::whole(0)
            },
    )
}

/// The kernel of a [`Folds`] node.
pub struct Fold;

impl Fold {
    /// The state's history has no column.
    pub open spec fn claim() -> Fidelity {
        Fidelity::Partial("state history, by design")
    }

    pub fn fidelity() -> (r: Fidelity)
        ensures
            r == Self::claim(),
    {
        Fidelity::Partial("state history, by design")
    }

    /// Whether the two bodies fill the state and the item over the envs the fold hands them.
    pub open spec fn sound<V: Scalar, D, E: Folds<V, D>>(e: E, deps: D) -> bool {
        let (carry, slots) = (E::Step::width(), E::Item::len_spec());
        let env = E::base() + carry;
        &&& E::readable(deps)
        &&& E::Value::width() == slots
        &&& E::dep_width() <= E::base()
        &&& slots * env <= usize::MAX
        &&& carry * env <= usize::MAX
        &&& e.step_spec().slots_fit(env)
        &&& e.value_spec().slots_fit(env)
        &&& all_lowerable(e.step_spec().slot_trees())
        &&& all_lowerable(e.value_spec().slot_trees())
        &&& e.carried_spec().len() == carry
        &&& forall|i: int|
            0 <= i < E::lead(deps) ==> (#[trigger] E::reading(deps, i) matches Some(x)
                ==> x.slots.len() == E::base())
    }

    /// Where a fold stands after one element more. An element that carried nothing keeps its place
    /// in the run and leaves the state where it stood: an average is not advanced by an absence.
    pub open spec fn stepped<V: Scalar, D, E: Folds<V, D>>(
        e: E,
        w: Folded<V, E::Item>,
        x: Option<Reading<V>>,
    ) -> Folded<V, E::Item> {
        match x {
            None => Folded {
                run: w.run.push(E::Item::item(0, blank(E::Item::len_spec()))),
                ..w
            },
            Some(x) => {
                let before = x.slots + w.state;
                let state = e.step_spec().slot_values(before);
                let after = x.slots + state;
                Folded {
                    state,
                    run: w.run.push(E::Item::item(x.ts, e.value_spec().slot_values(after))),
                    last: Some((before, after)),
                }
            },
        }
    }

    /// Where the fold over the first `n` elements of a batch stands.
    pub open spec fn walk<V: Scalar, D, E: Folds<V, D>>(
        e: E,
        deps: D,
        n: nat,
    ) -> Folded<V, E::Item>
        decreases n,
    {
        if n == 0 {
            Folded { state: e.carried_spec(), run: Seq::empty(), last: None }
        } else {
            Fold::stepped::<V, D, E>(
                e,
                Fold::walk::<V, D, E>(e, deps, (n - 1) as nat),
                E::reading(deps, n - 1),
            )
        }
    }

    pub fn emit<V: Scalar, D, E: Folds<V, D>>(e: &mut E, deps: &D, out: &mut Vec<E::Item>)
        requires
            Fold::sound::<V, D, E>(*old(e), *deps),
        ensures
            final(out)@ == old(out)@ + Fold::walk::<V, D, E>(*old(e), *deps, E::lead(*deps)).run,
            final(e).carried_spec() == Fold::walk::<V, D, E>(
                *old(e),
                *deps,
                E::lead(*deps),
            ).state,
            final(e).step_spec() == old(e).step_spec(),
            final(e).value_spec() == old(e).value_spec(),
    {
        let ghost first = *e;
        let slots_w: usize = <E::Item as Flat<V>>::len();
        let n: usize = E::lead_fires(deps);
        let step: E::Step = e.step();
        let value: E::Value = e.value();
        let ghost before = out@;
        let mut state: Vec<V> = Vec::new();
        copy_to(e.carried().slots.as_slice(), &mut state);
        let mut slots: Vec<V> = blanked(slots_w);
        let none: Vec<V> = blanked(slots_w);
        let mut env: Env<V, Blindfold> = Env::new();
        let mut i: usize = 0;
        while i < n
            invariant
                i <= n == E::lead(*deps),
                Fold::sound::<V, D, E>(first, *deps),
                slots_w == E::Item::len_spec() == slots@.len(),
                none@ == blank::<V>(slots_w as nat),
                step == first.step_spec(),
                value == first.value_spec(),
                state@.len() == E::Step::width(),
                state@ == Fold::walk::<V, D, E>(first, *deps, i as nat).state,
                out@ == before + Fold::walk::<V, D, E>(first, *deps, i as nat).run,
            decreases n - i,
        {
            env.rewind();
            let ghost was = Fold::walk::<V, D, E>(first, *deps, i as nat);
            let ghost x = E::reading(*deps, i as int);
            let item: E::Item = match E::read(deps, i, &mut env) {
                // rate-preserving, and the state untouched: nothing arrived to advance it.
                None => E::Item::unflat(0, none.as_slice()),
                Some(ts) => {
                    let mut cur: Vec<V> = Vec::new();
                    copy_to(env.filled(), &mut cur);
                    append(state.as_slice(), &mut cur);
                    proof {
                        step.slots_fill(cur@);
                    }
                    step.eval_slots(cur.as_slice(), state.as_mut_slice());
                    let mut after: Vec<V> = Vec::new();
                    copy_to(env.filled(), &mut after);
                    append(state.as_slice(), &mut after);
                    proof {
                        value.slots_fill(after@);
                    }
                    value.eval_slots(after.as_slice(), slots.as_mut_slice());
                    E::Item::unflat(ts, slots.as_slice())
                },
            };
            out.push(item);
            assert(out@ =~= before + was.run.push(item));
            i += 1;
        }
        let c: &mut Carried<V> = e.carried_mut();
        c.slots = state;
    }

    /// What is captured before the emit: the one-step slopes of the last element that carried
    /// anything, and nothing where nobody reads that far or no element did.
    pub open spec fn capture<V: Scalar, D, E: Folds<V, D>>(
        e: E,
        want: Want,
        deps: D,
    ) -> Option<Captured<V>> {
        let (carry, rows) = (E::Step::width(), E::Item::len_spec());
        let env_w = E::base() + carry;
        match Fold::walk::<V, D, E>(e, deps, E::lead(deps)).last {
            Some((before, after)) if want.rank() >= Want::Jac.rank() => Some(
                Captured {
                    formulas: e.value_spec().slot_trees(),
                    grad: chained(
                        e.value_spec().slot_slopes(after, zeros(rows * env_w)),
                        e.step_spec().slot_slopes(before, zeros(carry * env_w)),
                        env_w as int,
                        E::base() as int,
                        E::dep_width() as int,
                        rows as int,
                        carry,
                    ),
                    stride: env_w as int,
                },
            ),
            _ => None,
        }
    }

    /// The walk again, for the last element's two envs: a recurrence's derivative is of the state the
    /// value was computed from, and that state is only reached by replaying the batch.
    pub fn pre<V: Scalar, D, E: Folds<V, D>>(
        e: &E,
        want: Want,
        deps: &D,
    ) -> (r: Option<PerElem<V>>)
        requires
            Fold::sound::<V, D, E>(*e, *deps),
        ensures
            capture_view(r) == Fold::capture::<V, D, E>(*e, want, *deps),
    {
        if !want.at_least(Want::Jac) {
            return None;
        }
        let n: usize = E::lead_fires(deps);
        let step: E::Step = e.step();
        let value: E::Value = e.value();
        let mut state: Vec<V> = Vec::new();
        copy_to(e.carried().slots.as_slice(), &mut state);
        let carry: usize = state.len();
        let mut last: Option<(Vec<V>, Vec<V>)> = None;
        let mut env: Env<V, Blindfold> = Env::new();
        let mut i: usize = 0;
        while i < n
            invariant
                i <= n == E::lead(*deps),
                Fold::sound::<V, D, E>(*e, *deps),
                step == e.step_spec(),
                state@.len() == carry == E::Step::width(),
                state@ == Fold::walk::<V, D, E>(*e, *deps, i as nat).state,
                Fold::walk::<V, D, E>(*e, *deps, i as nat).last == envs(last),
                envs(last) matches Some((b, a)) ==> b.len() == a.len() == E::base() + carry,
            decreases n - i,
        {
            env.rewind();
            let ghost x = E::reading(*deps, i as int);
            if E::read(deps, i, &mut env).is_some() {
                let mut before: Vec<V> = Vec::new();
                copy_to(env.filled(), &mut before);
                append(state.as_slice(), &mut before);
                proof {
                    step.slots_fill(before@);
                }
                step.eval_slots(before.as_slice(), state.as_mut_slice());
                let mut after: Vec<V> = Vec::new();
                copy_to(env.filled(), &mut after);
                append(state.as_slice(), &mut after);
                last = Some((before, after));
            }
            i += 1;
        }
        match last {
            None => None,
            Some((before, after)) => {
                let rows: usize = <E::Item as Flat<V>>::len();
                let env_w: usize = before.len();
                let mut ds: Vec<V> = zeroed(carry * env_w);
                step.grad_slots(before.as_slice(), ds.as_mut_slice());
                let mut dv: Vec<V> = zeroed(rows * env_w);
                value.grad_slots(after.as_slice(), dv.as_mut_slice());
                let grad: Vec<V> = chain(
                    dv.as_slice(),
                    ds.as_slice(),
                    env_w,
                    env_w - carry,
                    E::dep_slots(),
                    rows,
                    carry,
                );
                let formulas: Vec<Ast<V>> = value.lower_slots();
                Some(PerElem { formulas, grad, stride: env_w })
            },
        }
    }
}

/// Two envs kept for later.
pub open spec fn envs<V>(x: Option<(Vec<V>, Vec<V>)>) -> Option<(Seq<V>, Seq<V>)> {
    match x {
        Some((a, b)) => Some((a@, b@)),
        None => None,
    }
}

fn chain<V: Scalar>(
    dv: &[V],
    ds: &[V],
    env_w: usize,
    base: usize,
    dep_w: usize,
    rows: usize,
    carry: usize,
) -> (grad: Vec<V>)
    requires
        dep_w <= base,
        base + carry == env_w,
        dv@.len() == rows * env_w,
        ds@.len() == carry * env_w,
    ensures
        grad@ == chained(
            dv@,
            ds@,
            env_w as int,
            base as int,
            dep_w as int,
            rows as int,
            carry as nat,
        ),
{
    let ghost whole = chained(
        dv@,
        ds@,
        env_w as int,
        base as int,
        dep_w as int,
        rows as int,
        carry as nat,
    );
    let n: usize = dv.len();
    let mut grad: Vec<V> = Vec::new();
    let mut i: usize = 0;
    while i < n
        invariant
            i <= n == dv@.len() == rows * env_w,
            dep_w <= base,
            base + carry == env_w,
            ds@.len() == carry * env_w,
            whole == chained(
                dv@,
                ds@,
                env_w as int,
                base as int,
                dep_w as int,
                rows as int,
                carry as nat,
            ),
            grad@ == whole.take(i as int),
        decreases n - i,
    {
        assert(env_w > 0) by (nonlinear_arith)
            requires
                0 <= i < rows * env_w,
                env_w >= 0,
        ;
        proof {
            lemma_place(i as int, rows as int, env_w as int);
        }
        let (row, col): (usize, usize) = (i / env_w, i % env_w);
        let v: V = if col < dep_w {
            dv[i].add(through(dv, ds, env_w, base, row, rows, col, carry))
        } else {
            V::of(0)
        };
        grad.push(v);
        assert(whole[i as int] == v);
        assert(whole.take(i + 1) =~= whole.take(i as int).push(whole[i as int]));
        i += 1;
    }
    assert(whole.take(n as int) =~= whole);
    grad
}

fn through<V: Scalar>(
    dv: &[V],
    ds: &[V],
    env_w: usize,
    base: usize,
    row: usize,
    rows: usize,
    col: usize,
    carry: usize,
) -> (r: V)
    requires
        row < rows,
        col < env_w,
        base + carry == env_w,
        dv@.len() == rows * env_w,
        ds@.len() == carry * env_w,
    ensures
        r == through_state(
            dv@,
            ds@,
            env_w as int,
            base as int,
            row as int,
            col as int,
            carry as nat,
        ),
{
    let (nv, ns): (usize, usize) = (dv.len(), ds.len());
    let mut acc: V = V::of(0);
    let mut s: usize = 0;
    while s < carry
        invariant
            s <= carry,
            row < rows,
            col < env_w,
            base + carry == env_w,
            nv == dv@.len() == rows * env_w,
            ns == ds@.len() == carry * env_w,
            acc == through_state(
                dv@,
                ds@,
                env_w as int,
                base as int,
                row as int,
                col as int,
                s as nat,
            ),
        decreases carry - s,
    {
        proof {
            lemma_inside(row as int, rows as int, base + s, env_w as int);
            lemma_inside(s as int, carry as int, col as int, env_w as int);
            assert(0 <= row * env_w && 0 <= s * env_w) by (nonlinear_arith)
                requires
                    0 <= row,
                    0 <= s,
                    0 <= env_w,
            ;
        }
        acc = acc.add(dv[row * env_w + base + s].mul(ds[s * env_w + col]));
        s += 1;
    }
    acc
}

} // verus!
