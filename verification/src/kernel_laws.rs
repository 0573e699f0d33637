//! What holds of the per-element kernels over every batch.

use vstd::prelude::*;

use crate::close::{closes_at, step_of, Close, Closes};
use crate::flat::Unflat;
use crate::fold::{Fold, Folds};
use crate::kernel::{Captured, Reads, Scan, Scans};
use crate::scalar::Scalar;
use crate::want::Want;

verus! {

/// Whether a batch is two others, one after the other.
pub open spec fn in_parts<V: Scalar, D, E: Reads<V, D>>(whole: D, first: D, second: D) -> bool {
    let (n, m) = (E::lead(first), E::lead(second));
    &&& E::lead(whole) == n + m
    &&& forall|i: int|
        0 <= i < n ==> #[trigger] E::reading(whole, i) == E::reading(first, i)
    &&& forall|i: int|
        n <= i < n + m ==> #[trigger] E::reading(whole, i) == E::reading(second, i - n)
}

proof fn lemma_close_prefix<V: Scalar, D, E: Closes<V, D>>(e: E, whole: D, first: D, n: nat)
    requires
        forall|i: int|
            0 <= i < n ==> #[trigger] E::reading(whole, i) == E::reading(first, i),
    ensures
        Close::walk::<V, D, E>(e, whole, n) == Close::walk::<V, D, E>(e, first, n),
    decreases n,
{
    if n > 0 {
        lemma_close_prefix::<V, D, E>(e, whole, first, (n - 1) as nat);
        assert(E::reading(whole, n - 1) == E::reading(first, n - 1));
    }
}

proof fn lemma_close_rest<V: Scalar, D, E: Closes<V, D>>(
    e: E,
    next: E,
    whole: D,
    first: D,
    second: D,
    k: nat,
)
    requires
        in_parts::<V, D, E>(whole, first, second),
        k <= E::lead(second),
        next.open_spec() == e.open_spec(),
        next.fold_spec() == e.fold_spec(),
        next.pending_spec() == Close::walk::<V, D, E>(e, first, E::lead(first)).pending,
    ensures
        ({
            let all = Close::walk::<V, D, E>(e, whole, E::lead(first) + k);
            let rest = Close::walk::<V, D, E>(next, second, k);
            &&& all.pending == rest.pending
            &&& all.closed == Close::walk::<V, D, E>(e, first, E::lead(first)).closed + rest.closed
        }),
    decreases k,
{
    let n = E::lead(first);
    if k == 0 {
        lemma_close_prefix::<V, D, E>(e, whole, first, n);
        let head = Close::walk::<V, D, E>(e, first, n).closed;
        assert(head + Seq::<E::Item>::empty() =~= head);
    } else {
        let j = (k - 1) as nat;
        lemma_close_rest::<V, D, E>(e, next, whole, first, second, j);
        assert(E::reading(whole, n + k - 1) == E::reading(second, n + k - 1 - n));
        let head = Close::walk::<V, D, E>(e, first, n).closed;
        let all = Close::walk::<V, D, E>(e, whole, n + j);
        let rest = Close::walk::<V, D, E>(next, second, j);
        assert((n + k - 1) as nat == n + j);
        let p = rest.pending;
        let item = E::Item::item(p.ts_close as i64, p.slots);
        assert((head + rest.closed).push(item) =~= head + rest.closed.push(item));
    }
}

/// How a tape is cut into batches is no fact about it: a batch that comes in two parts closes the
/// periods that it closes whole, and leaves the same one open.
pub proof fn a_closing_batch_may_come_in_parts<V: Scalar, D, E: Closes<V, D>>(
    e: E,
    next: E,
    whole: D,
    first: D,
    second: D,
)
    requires
        in_parts::<V, D, E>(whole, first, second),
        next.open_spec() == e.open_spec(),
        next.fold_spec() == e.fold_spec(),
        next.pending_spec() == Close::walk::<V, D, E>(e, first, E::lead(first)).pending,
    ensures
        ({
            let all = Close::walk::<V, D, E>(e, whole, E::lead(whole));
            let rest = Close::walk::<V, D, E>(next, second, E::lead(second));
            &&& all.pending == rest.pending
            &&& all.closed == Close::walk::<V, D, E>(e, first, E::lead(first)).closed + rest.closed
        }),
{
    lemma_close_rest::<V, D, E>(e, next, whole, first, second, E::lead(second));
}

/// A batch all of whose elements fall into the period already open closes nothing: it folds.
pub proof fn a_batch_within_a_period_closes_nothing<V: Scalar, D, E: Closes<V, D>>(
    e: E,
    deps: D,
    n: nat,
)
    requires
        n <= E::lead(deps),
        e.pending_spec().live,
        forall|i: int|
            0 <= i < n ==> (#[trigger] E::reading(deps, i) matches Some(x) ==> closes_at(
                x.ts as int,
                step_of(E::period_spec()),
            ) == e.pending_spec().ts_close),
    ensures
        Close::walk::<V, D, E>(e, deps, n).closed == Seq::<E::Item>::empty(),
        Close::walk::<V, D, E>(e, deps, n).pending.live,
        Close::walk::<V, D, E>(e, deps, n).pending.ts_close == e.pending_spec().ts_close,
    decreases n,
{
    if n > 0 {
        a_batch_within_a_period_closes_nothing::<V, D, E>(e, deps, (n - 1) as nat);
        assert(E::reading(deps, n - 1) == E::reading(deps, n - 1));
    }
}

/// An element past the open period closes exactly it, once, and opens the period it falls into.
pub proof fn an_element_past_the_boundary_closes_the_period<V: Scalar, D, E: Closes<V, D>>(
    e: E,
    deps: D,
    n: nat,
)
    requires
        n < E::lead(deps),
        Close::walk::<V, D, E>(e, deps, n).pending.live,
        E::reading(deps, n as int) is Some,
        closes_at(E::reading(deps, n as int)->Some_0.ts as int, step_of(E::period_spec()))
            != Close::walk::<V, D, E>(e, deps, n).pending.ts_close,
    ensures
        ({
            let (was, is) = (
                Close::walk::<V, D, E>(e, deps, n),
                Close::walk::<V, D, E>(e, deps, n + 1),
            );
            let x = E::reading(deps, n as int)->Some_0;
            &&& is.closed == was.closed.push(
                E::Item::item(was.pending.ts_close as i64, was.pending.slots),
            )
            &&& is.pending.live
            &&& is.pending.ts_close == closes_at(x.ts as int, step_of(E::period_spec()))
        }),
{
}

proof fn lemma_fold_prefix<V: Scalar, D, E: Folds<V, D>>(e: E, whole: D, first: D, n: nat)
    requires
        forall|i: int|
            0 <= i < n ==> #[trigger] E::reading(whole, i) == E::reading(first, i),
    ensures
        Fold::walk::<V, D, E>(e, whole, n) == Fold::walk::<V, D, E>(e, first, n),
    decreases n,
{
    if n > 0 {
        lemma_fold_prefix::<V, D, E>(e, whole, first, (n - 1) as nat);
        assert(E::reading(whole, n - 1) == E::reading(first, n - 1));
    }
}

proof fn lemma_fold_rest<V: Scalar, D, E: Folds<V, D>>(
    e: E,
    next: E,
    whole: D,
    first: D,
    second: D,
    k: nat,
)
    requires
        in_parts::<V, D, E>(whole, first, second),
        k <= E::lead(second),
        next.step_spec() == e.step_spec(),
        next.value_spec() == e.value_spec(),
        next.carried_spec() == Fold::walk::<V, D, E>(e, first, E::lead(first)).state,
    ensures
        ({
            let all = Fold::walk::<V, D, E>(e, whole, E::lead(first) + k);
            let rest = Fold::walk::<V, D, E>(next, second, k);
            &&& all.state == rest.state
            &&& all.run == Fold::walk::<V, D, E>(e, first, E::lead(first)).run + rest.run
        }),
    decreases k,
{
    let n = E::lead(first);
    let head = Fold::walk::<V, D, E>(e, first, n).run;
    if k == 0 {
        lemma_fold_prefix::<V, D, E>(e, whole, first, n);
        assert(head + Seq::<E::Item>::empty() =~= head);
    } else {
        let j = (k - 1) as nat;
        lemma_fold_rest::<V, D, E>(e, next, whole, first, second, j);
        assert(E::reading(whole, n + k - 1) == E::reading(second, n + k - 1 - n));
        assert((n + k - 1) as nat == n + j);
        let rest = Fold::walk::<V, D, E>(next, second, j).run;
        let item = Fold::walk::<V, D, E>(next, second, k).run.last();
        assert((head + rest).push(item) =~= head + rest.push(item));
    }
}

/// A batch that comes in two parts folds to the run and the state that it folds to whole: every
/// element is folded exactly once, whatever tick it came on.
pub proof fn a_folding_batch_may_come_in_parts<V: Scalar, D, E: Folds<V, D>>(
    e: E,
    next: E,
    whole: D,
    first: D,
    second: D,
)
    requires
        in_parts::<V, D, E>(whole, first, second),
        next.step_spec() == e.step_spec(),
        next.value_spec() == e.value_spec(),
        next.carried_spec() == Fold::walk::<V, D, E>(e, first, E::lead(first)).state,
    ensures
        ({
            let all = Fold::walk::<V, D, E>(e, whole, E::lead(whole));
            let rest = Fold::walk::<V, D, E>(next, second, E::lead(second));
            &&& all.state == rest.state
            &&& all.run == Fold::walk::<V, D, E>(e, first, E::lead(first)).run + rest.run
        }),
{
    lemma_fold_rest::<V, D, E>(e, next, whole, first, second, E::lead(second));
}

/// A fold preserves its driver's rate: one element out per element in, absent ones included.
pub proof fn a_fold_preserves_the_rate<V: Scalar, D, E: Folds<V, D>>(e: E, deps: D, n: nat)
    ensures
        Fold::walk::<V, D, E>(e, deps, n).run.len() == n,
    decreases n,
{
    if n > 0 {
        a_fold_preserves_the_rate::<V, D, E>(e, deps, (n - 1) as nat);
    }
}

/// An element that carried nothing moves no state.
pub proof fn an_absence_advances_nothing<V: Scalar, D, E: Folds<V, D>>(e: E, deps: D, n: nat)
    requires
        E::reading(deps, n as int) is None,
    ensures
        Fold::walk::<V, D, E>(e, deps, n + 1).state == Fold::walk::<V, D, E>(e, deps, n).state,
{
}

/// An observer that reads no derivative costs no capture, whatever the kernel.
pub proof fn nothing_is_captured_below_a_jacobian<V: Scalar, D, S, C, F>(
    s: S,
    c: C,
    f: F,
    want: Want,
    deps: D,
) where S: Scans<V, D>, C: Closes<V, D>, F: Folds<V, D>
    requires
        want == Want::Nothing || want == Want::Vals,
    ensures
        Scan::capture::<V, D, S>(s, want, deps) == None::<Captured<V>>,
        Close::capture::<V, D, C>(c, want, deps) == None::<Captured<V>>,
        Fold::capture::<V, D, F>(f, want, deps) == None::<Captured<V>>,
{
}

} // verus!
