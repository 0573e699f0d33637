//! The per-element kernels: what a run-shaped node computes off each element of its driving dep.

use vstd::prelude::*;

use crate::algebra::Slots;
use crate::algebra::all_lowerable;
use crate::ast::{trees, Ast};
use crate::block::{copy_rows, lagged_block, point_block};
use crate::block::{
    countable, gathered, lagged, lagged_part, lagged_widths, lags_of, leading, part_fits, points,
    width_sum,
};
use crate::env::{Blindfold, Env, Provenance, Source, Witness};
use crate::flat::{Flat, Unflat};
use crate::flat::blank;
use crate::scalar::Scalar;
use crate::shape::Fidelity;
use crate::tree::Tree;
use crate::want::Want;

verus! {

/// What a reading takes off one element: its own event time, the slots it fills, and where each came
/// from.
pub struct Reading<V> {
    pub ts: i64,
    pub slots: Seq<V>,
    pub sources: Seq<Source>,
}

/// What a reading owes of an element it took, and of the env it filled.
pub open spec fn took<V>(
    x: Option<Reading<V>>,
    r: Option<i64>,
    filled: Seq<V>,
    seen: Option<Seq<Source>>,
) -> bool {
    match x {
        None => r is None,
        Some(x) => {
            &&& r == Some(x.ts)
            &&& filled == x.slots
            &&& seen matches Some(s) ==> s.len() >= x.slots.len() && s.take(
                x.slots.len() as int,
            ) == x.sources
        },
    }
}

/// How a per-element node reads its deps, `D` being what a tick pulls of them. The leading dep
/// drives: its rate is the node's.
pub trait Reads<V: Scalar, D>: Sized {
    /// How many elements the leading dep fired.
    open spec fn lead(deps: D) -> nat {
        arbitrary()
    }

    /// Whether the deps can be read at all.
    open spec fn readable(deps: D) -> bool {
        arbitrary()
    }

    /// What is read for element `i`: `None` where the driving element carried nothing, which is
    /// absence arriving rather than the body declining.
    open spec fn reading(deps: D, i: int) -> Option<Reading<V>> {
        arbitrary()
    }

    fn lead_fires(deps: &D) -> (r: usize)
        requires
            Self::readable(*deps),
        ensures
            r == Self::lead(*deps),
    ;

    /// Fills the env for element `i` and returns that element's own event time.
    fn read<W: Witness>(deps: &D, i: usize, env: &mut Env<V, W>) -> (r: Option<i64>)
        requires
            Self::readable(*deps),
            i < Self::lead(*deps),
            old(env).values() == Seq::<V>::empty(),
        ensures
            took(
                Self::reading(*deps, i as int),
                r,
                final(env).values(),
                final(env).sees(),
            ),
    ;
}

/// So many zeros.
pub open spec fn zeros<V: Scalar>(n: nat) -> Seq<V> {
    Seq::new(n, |i: int| V::whole(0))
}

pub(crate) fn zeroed<V: Scalar>(n: usize) -> (r: Vec<V>)
    ensures
        r@ == zeros::<V>(n as nat),
{
    let mut r: Vec<V> = Vec::new();
    while r.len() < n
        invariant
            r@.len() <= n,
            forall|j: int| 0 <= j < r@.len() ==> #[trigger] r@[j] == V::whole(0),
        decreases n - r@.len(),
    {
        r.push(V::of(0));
    }
    assert(r@ =~= zeros::<V>(n as nat));
    r
}

pub(crate) fn blanked<V: Scalar>(n: usize) -> (r: Vec<V>)
    ensures
        r@ == blank::<V>(n as nat),
{
    let mut r: Vec<V> = zeroed(n);
    crate::flat::erase(r.as_mut_slice());
    r
}

/// A per-element node's capture before it emits: the slot equations, and their gradients at the env
/// of the element the out will flatten to. Taken *before* the emit because the derivative belongs to
/// the state the value was computed from.
pub struct PerElem<V> {
    pub formulas: Vec<Ast<V>>,
    /// Row-major, a row per slot; only the leading columns are a Jacobian, the rest being the env
    /// slots no column stands for.
    pub grad: Vec<V>,
    /// `grad`'s row width: the env the body was read over.
    pub stride: usize,
}

/// What a capture holds.
#[verifier::ext_equal]
pub struct Captured<V> {
    pub formulas: Seq<Tree<V>>,
    pub grad: Seq<V>,
    pub stride: int,
}

impl<V> View for PerElem<V> {
    type V = Captured<V>;

    open spec fn view(&self) -> Captured<V> {
        Captured { formulas: trees(self.formulas@), grad: self.grad@, stride: self.stride as int }
    }
}

/// What a capture of the slopes of some slots over an env holds.
pub open spec fn captured<V: Scalar, S: Slots<V>>(
    formulas: Seq<Tree<V>>,
    slots: S,
    env: Seq<V>,
) -> Captured<V> {
    Captured {
        formulas,
        grad: slots.slot_slopes(env, zeros(S::width() * env.len())),
        stride: env.len() as int,
    }
}

pub open spec fn capture_view<V>(pre: Option<PerElem<V>>) -> Option<Captured<V>> {
    match pre {
        Some(p) => Some(p@),
        None => None,
    }
}

impl<V: Scalar> PerElem<V> {
    /// Whether the gradient has so many rows, each at least so wide.
    pub open spec fn holds(&self, rows: nat, w: nat) -> bool {
        w <= self.stride && rows * self.stride <= self.grad@.len()
    }

    /// Slot zero's equation. A multi-slot item has one per slot, and the reading that carries all of
    /// them is the Jacobian.
    pub fn formula(&self) -> (r: Option<&Ast<V>>)
        ensures
            match r {
                Some(f) => self.formulas@.len() > 0 && *f == self.formulas@[0],
                None => self.formulas@.len() == 0,
            },
    {
        if self.formulas.len() > 0 {
            Some(&self.formulas[0])
        } else {
            None
        }
    }

    /// The one-step Jacobian: the leading columns of every row.
    pub fn jac(&self, dep_w: usize, rows: usize, out: &mut [V])
        requires
            self.holds(rows as nat, dep_w as nat),
            old(out)@.len() == rows * dep_w,
        ensures
            final(out)@ == leading(
                self.grad@,
                self.stride as int,
                rows as int,
                dep_w as int,
            ),
    {
        copy_rows(self.grad.as_slice(), self.stride, rows, dep_w, out);
    }

    /// Lag zero and no further, which is the [`jac`](PerElem::jac) column re-laid per dep.
    pub fn point(&self, rows: usize, slots: &[usize], out: &mut Vec<V>, widths: &mut Vec<usize>)
        requires
            self.holds(rows as nat, width_sum(slots@)),
        ensures
            final(widths)@ == slots@,
            final(out)@ == points(self.grad@, self.stride as int, rows as int, slots@),
    {
        point_block(self.grad.as_slice(), self.stride, rows, slots, out, widths);
    }
}

/// A run-shaped node computing one out element per element of its **driving** dep, whose rate it
/// therefore preserves, carrying nothing between elements. Every number is an expression, one per
/// slot of the item; *which* elements of which deps the expression reads is code, since an index is
/// constant over every differentiation variable and has no slope to state.
///
/// Declining is an absent slot, which [`Unflat`] reads back as absence.
pub trait Scans<V: Scalar, D>: Reads<V, D> {
    type Item: Unflat<V>;

    type Body: Slots<V>;

    open spec fn body_spec(&self) -> Self::Body {
        arbitrary()
    }

    /// One expression per slot of the item, over the env the reading filled.
    fn body(&self) -> (r: Self::Body)
        ensures
            r == self.body_spec(),
    ;
}

/// The kernel of a [`Scans`] node: one out element per driving element, each slot the body's value,
/// and the Jacobian the body's gradient at the last element: exact, and one pass rather than a clone
/// and a re-emit per dep slot.
pub struct Scan;

impl Scan {
    /// Every slot of a reading is a copy of one element's, so whatever the body reached back over is
    /// covered.
    pub open spec fn claim() -> Fidelity {
        Fidelity::Exact
    }

    pub fn fidelity() -> (r: Fidelity)
        ensures
            r == Self::claim(),
    {
        Fidelity::Exact
    }

    /// Whether the body fills the item, and reads no further than any reading reaches.
    pub open spec fn sound<V: Scalar, D, E: Scans<V, D>>(e: E, deps: D) -> bool {
        &&& E::readable(deps)
        &&& E::Body::width() == E::Item::len_spec()
        &&& all_lowerable(e.body_spec().slot_trees())
        &&& forall|i: int|
            0 <= i < E::lead(deps) ==> (#[trigger] E::reading(deps, i) matches Some(x)
                ==> e.body_spec().slots_fit(x.slots.len()) && E::Body::width() * x.slots.len()
                <= usize::MAX && x.sources.len() == x.slots.len())
    }

    /// What one element of the run is: nothing where the driving element carried nothing, which still
    /// occupies its place in the run.
    pub open spec fn element<V: Scalar, D, E: Scans<V, D>>(e: E, deps: D, i: int) -> E::Item {
        match E::reading(deps, i) {
            Some(x) => E::Item::item(x.ts, e.body_spec().slot_values(x.slots)),
            None => E::Item::item(0, blank(E::Item::len_spec())),
        }
    }

    pub fn emit<V: Scalar, D, E: Scans<V, D>>(e: &E, deps: &D, out: &mut Vec<E::Item>)
        requires
            Scan::sound(*e, *deps),
        ensures
            final(out)@ == old(out)@ + Seq::new(
                E::lead(*deps),
                |i: int| Scan::element(*e, *deps, i),
            ),
    {
        let w: usize = <E::Item as Flat<V>>::len();
        let body: E::Body = e.body();
        let n: usize = E::lead_fires(deps);
        let ghost run = Seq::new(E::lead(*deps), |i: int| Scan::element(*e, *deps, i));
        let ghost before = out@;
        let none: Vec<V> = blanked(w);
        let mut slots: Vec<V> = blanked(w);
        let mut env: Env<V, Blindfold> = Env::new();
        let mut i: usize = 0;
        while i < n
            invariant
                i <= n == E::lead(*deps),
                Scan::sound(*e, *deps),
                w == E::Item::len_spec(),
                body == e.body_spec(),
                none@ == blank::<V>(w as nat),
                slots@.len() == w,
                run == Seq::new(E::lead(*deps), |i: int| Scan::element(*e, *deps, i)),
                out@ == before + run.take(i as int),
            decreases n - i,
        {
            env.rewind();
            let item: E::Item = match E::read(deps, i, &mut env) {
                Some(ts) => {
                    body.eval_slots(env.filled(), slots.as_mut_slice());
                    proof {
                        body.slots_fill(env.values());
                    }
                    E::Item::unflat(ts, slots.as_slice())
                },
                None => E::Item::unflat(0, none.as_slice()),
            };
            out.push(item);
            assert(run[i as int] == Scan::element(*e, *deps, i as int));
            assert(run.take(i + 1) =~= run.take(i as int).push(run[i as int]));
            i += 1;
        }
        assert(run.take(n as int) =~= run);
    }

    /// What is read for the element the out will flatten to.
    pub open spec fn last<V: Scalar, D, E: Reads<V, D>>(deps: D) -> Option<Reading<V>> {
        if E::lead(deps) == 0 {
            None
        } else {
            E::reading(deps, E::lead(deps) - 1)
        }
    }

    /// Whether the last reading is as wide as the gradient captured over it.
    pub open spec fn scatters<V: Scalar, D, E: Reads<V, D>>(
        pre: Option<PerElem<V>>,
        deps: D,
        rows: nat,
        dep_slots: Seq<usize>,
    ) -> bool {
        match (pre, Scan::last::<V, D, E>(deps)) {
            (Some(alg), Some(x)) => {
                &&& x.slots.len() == alg.stride == x.sources.len()
                &&& rows * alg.stride <= alg.grad@.len()
                &&& countable(x.sources, alg.stride as nat, dep_slots, rows)
            },
            _ => true,
        }
    }

    /// What is captured before the emit: the slopes at the element the out will flatten to, and
    /// nothing where nobody reads that far, the run is empty or its last element carried nothing.
    pub open spec fn capture<V: Scalar, D, E: Scans<V, D>>(
        e: E,
        want: Want,
        deps: D,
    ) -> Option<Captured<V>> {
        match Scan::last::<V, D, E>(deps) {
            Some(x) if want.rank() >= Want::Jac.rank() => Some(
                captured(e.body_spec().slot_trees(), e.body_spec(), x.slots),
            ),
            _ => None,
        }
    }

    pub fn pre<V: Scalar, D, E: Scans<V, D>>(e: &E, want: Want, deps: &D) -> (r: Option<PerElem<V>>)
        requires
            Scan::sound(*e, *deps),
        ensures
            capture_view(r) == Scan::capture(*e, want, *deps),
    {
        if !want.at_least(Want::Jac) {
            return None;
        }
        let n: usize = E::lead_fires(deps);
        if n == 0 {
            return None;
        }
        let mut env: Env<V, Blindfold> = Env::new();
        let ghost x = E::reading(*deps, n - 1);
        if E::read(deps, n - 1, &mut env).is_none() {
            return None;
        }
        let stride: usize = env.filled().len();
        let body: E::Body = e.body();
        let mut grad: Vec<V> = zeroed(body.len() * stride);
        body.grad_slots(env.filled(), grad.as_mut_slice());
        let formulas: Vec<Ast<V>> = body.lower_slots();
        Some(PerElem { formulas, grad, stride })
    }

    /// The reading again, watched: it names the dep and the lag of every slot it fills, so the
    /// gradient taken over that env scatters into the block in one pass.
    pub fn exact<V: Scalar, D, E: Scans<V, D>>(
        pre: &Option<PerElem<V>>,
        deps: &D,
        rows: usize,
        dep_slots: &[usize],
        out: &mut Vec<V>,
        widths: &mut Vec<usize>,
    ) -> (filled: bool)
        requires
            E::readable(*deps),
            Scan::scatters::<V, D, E>(*pre, *deps, rows as nat, dep_slots@),
        ensures
            filled == (pre is Some && Scan::last::<V, D, E>(*deps) is Some),
            filled ==> {
                let alg = pre->Some_0;
                let x = Scan::last::<V, D, E>(*deps)->Some_0;
                &&& final(widths)@ == lagged_widths(x.sources, alg.stride as nat, dep_slots@)
                &&& final(out)@ == lagged(
                    alg.grad@,
                    alg.stride as int,
                    x.sources,
                    rows as int,
                    dep_slots@,
                    dep_slots@.len(),
                )
            },
            !filled ==> final(out)@ == old(out)@ && final(widths)@ == old(widths)@,
    {
        match pre {
            None => false,
            Some(alg) => {
                let n: usize = E::lead_fires(deps);
                if n == 0 {
                    return false;
                }
                let mut env: Env<V, Provenance> = Env::new();
                let ghost x = E::reading(*deps, n - 1);
                if E::read(deps, n - 1, &mut env).is_none() {
                    return false;
                }
                let seen: &[Source] = env.seen().as_slice();
                proof {
                    let s = x->Some_0.sources;
                    assert(seen@.take(alg.stride as int) == s);
                    lemma_prefix(seen@, s, alg.grad@, alg.stride as int, rows as int, dep_slots@);
                }
                lagged_block(
                    alg.grad.as_slice(),
                    alg.stride,
                    rows,
                    dep_slots,
                    seen,
                    out,
                    widths,
                );
                true
            },
        }
    }
}

/// A block reads the sources of the slots its gradient covers, and no more.
proof fn lemma_prefix<V: Scalar>(
    seen: Seq<Source>,
    s: Seq<Source>,
    grad: Seq<V>,
    stride: int,
    rows: int,
    slots: Seq<usize>,
)
    requires
        0 <= stride <= seen.len(),
        seen.take(stride) == s,
    ensures
        forall|d: int|
            #[trigger] lags_of(seen, stride as nat, d) == lags_of(
                s,
                stride as nat,
                d,
            ),
        countable(s, stride as nat, slots, rows as nat) ==> countable(
            seen,
            stride as nat,
            slots,
            rows as nat,
        ),
        lagged_widths(seen, stride as nat, slots) == lagged_widths(s, stride as nat, slots),
        lagged(grad, stride, seen, rows, slots, slots.len()) == lagged(
            grad,
            stride,
            s,
            rows,
            slots,
            slots.len(),
        ),
{
    assert forall|d: int|
        #[trigger] lags_of(seen, stride as nat, d) == lags_of(
            s,
            stride as nat,
            d,
        ) by {
        lemma_prefix_lags(seen, s, stride as nat, d);
    }
    if countable(s, stride as nat, slots, rows as nat) {
        assert forall|d: int| 0 <= d < slots.len() implies part_fits(
            lags_of(seen, stride as nat, d),
            #[trigger] slots[d],
            rows as nat,
        ) by {
            assert(part_fits(lags_of(s, stride as nat, d), slots[d], rows as nat));
        }
    }
    assert(lagged_widths(seen, stride as nat, slots) =~= lagged_widths(s, stride as nat, slots));
    lemma_prefix_lagged(seen, s, grad, stride, rows, slots, slots.len());
}

proof fn lemma_prefix_lags(seen: Seq<Source>, s: Seq<Source>, n: nat, d: int)
    requires
        n <= s.len() <= seen.len(),
        seen.take(s.len() as int) == s,
    ensures
        lags_of(seen, n, d) == lags_of(s, n, d),
    decreases n,
{
    if n > 0 {
        lemma_prefix_lags(seen, s, (n - 1) as nat, d);
        assert(seen.take(s.len() as int)[n - 1] == seen[n - 1]);
    }
}

proof fn lemma_prefix_gathered<V: Scalar>(
    seen: Seq<Source>,
    s: Seq<Source>,
    grad: Seq<V>,
    stride: int,
    n: nat,
    row: int,
    d: int,
    lags: int,
    per: int,
    col: int,
)
    requires
        n <= s.len() <= seen.len(),
        seen.take(s.len() as int) == s,
    ensures
        gathered(grad, stride, seen, n, row, d, lags, per, col)
            == gathered(grad, stride, s, n, row, d, lags, per, col),
    decreases n,
{
    if n > 0 {
        lemma_prefix_gathered(seen, s, grad, stride, (n - 1) as nat, row, d, lags, per, col);
        assert(seen.take(s.len() as int)[n - 1] == seen[n - 1]);
    }
}

proof fn lemma_prefix_lagged<V: Scalar>(
    seen: Seq<Source>,
    s: Seq<Source>,
    grad: Seq<V>,
    stride: int,
    rows: int,
    slots: Seq<usize>,
    n: nat,
)
    requires
        0 <= stride == s.len() <= seen.len(),
        seen.take(stride) == s,
    ensures
        lagged(grad, stride, seen, rows, slots, n) == lagged(grad, stride, s, rows, slots, n),
    decreases n,
{
    if n > 0 {
        lemma_prefix_lagged(seen, s, grad, stride, rows, slots, (n - 1) as nat);
        let d = n - 1;
        let per = slots[d] as int;
        lemma_prefix_lags(seen, s, stride as nat, d);
        let lags = lags_of(s, stride as nat, d) as int;
        let a = lagged_part(grad, stride, seen, rows, d, per);
        let b = lagged_part(grad, stride, s, rows, d, per);
        assert forall|i: int| 0 <= i < a.len() implies a[i] == b[i] by {
            let w = lags * per;
            lemma_prefix_gathered(
                seen,
                s,
                grad,
                stride,
                stride as nat,
                i / w,
                d,
                lags,
                per,
                i % w,
            );
        }
        assert(a =~= b);
    }
}

} // verus!
