//! What each kind of kernel is captured as: which equation it shows, and what its slopes are and claim.

use vstd::prelude::*;

use crate::bar::{candles, Bar, Bars, Ohlcs, Volumes};
use crate::block::{bump_of, lags_of, lagged_widths, leading, points, Column};
use crate::cell::Cell;
use crate::close::Close;
use crate::env::Source;
use crate::flat::slice_of;
use crate::fold::Fold;
use crate::kernel::{PerElem, Scan};
use crate::level::{Differentiated, Pointwise, Predicate, Pure, Refired, Verdict};
use crate::plot::{plain_plot, Plot};
use crate::rows::Rows;
use crate::rsi::{leg_names, AvgGain, AvgLoss, Rsi, RsiDelta, RsiSpec};
use crate::scalar::Scalar;
use crate::series::Series;
use crate::shape::Fidelity;
use crate::sweep::{Capture, ObservedRun};

verus! {

/// A body over one slot per dep is captured by its equation and its gradient, which is exact; where it
/// was not captured there is neither, and every slope is absent.
pub proof fn a_symbolic_node_shows_its_gradient<V: Scalar, D>(
    c: Differentiated<V>,
    deps: D,
    dep_vals: Seq<V>,
    out_vals: Seq<V>,
    i: int,
)
    ensures
        ({
            let (jac, exact) = <Differentiated<V> as Capture<V, D>>::slopes(&c, deps, dep_vals, out_vals);
            let shown = <Differentiated<V> as Capture<V, D>>::equation(&c);
            &&& c.0 matches Some(a) ==> shown == Some(a.formula@) && jac == a.grad@ && exact
            &&& c.0 is None ==> shown is None && !exact && jac.len() == out_vals.len() * dep_vals.len()
            &&& c.0 is None && 0 <= i < jac.len() ==> jac[i] == V::none()
            &&& !<Differentiated<V> as Capture<V, D>>::guarded(&c)
        }),
{
    vstd::arithmetic::mul::lemma_mul_nonnegative(out_vals.len() as int, dep_vals.len() as int);
}

/// A predicate is captured by its equation, and slopes nowhere: each of its slopes is zero, and exactly
/// so; nothing is traced over an absence.
pub proof fn a_predicate_slopes_nowhere<V: Scalar, D>(
    c: Verdict<V>,
    deps: D,
    dep_vals: Seq<V>,
    out_vals: Seq<V>,
    i: int,
)
    ensures
        ({
            let (jac, exact) = <Verdict<V> as Capture<V, D>>::slopes(&c, deps, dep_vals, out_vals);
            let shown = <Verdict<V> as Capture<V, D>>::equation(&c);
            &&& c.0 matches Some(a) ==> shown == Some(a@) && exact
            &&& c.0 is None ==> shown is None && !exact
            &&& jac.len() == out_vals.len() * dep_vals.len()
            &&& c.0 is Some && 0 <= i < jac.len() ==> jac[i] == V::whole(0)
            &&& c.0 is None && 0 <= i < jac.len() ==> jac[i] == V::none()
            &&& <Verdict<V> as Capture<V, D>>::guarded(&c)
        }),
{
    vstd::arithmetic::mul::lemma_mul_nonnegative(out_vals.len() as int, dep_vals.len() as int);
}

/// A kernel over elements is captured by the first of its equations and by the columns of its gradient
/// that stand for deps; over its whole reach it is the same gradient, parted by dep.
pub proof fn a_kernel_over_elements_shows_the_columns_of_its_deps<V: Scalar, D>(
    a: PerElem<V>,
    deps: D,
    dep_vals: Seq<V>,
    out_vals: Seq<V>,
    ws: Seq<usize>,
)
    ensures
        ({
            let c = Pointwise(Some(a));
            let (jac, exact) = <Pointwise<V> as Capture<V, D>>::slopes(&c, deps, dep_vals, out_vals);
            let shown = <Pointwise<V> as Capture<V, D>>::equation(&c);
            &&& jac == leading(a.grad@, a.stride as int, out_vals.len() as int, dep_vals.len() as int)
            &&& exact
            &&& a.formulas@.len() > 0 ==> shown == Some(a.formulas@[0]@)
            &&& a.formulas@.len() == 0 ==> shown is None
            &&& <Pointwise<V> as Capture<V, D>>::reach_block(&c, deps, ws, out_vals.len()) == Some(
                (points(a.grad@, a.stride as int, out_vals.len() as int, ws), ws),
            )
        }),
{
}

/// A node with no algebra shows no equation, claims no exactness and answers for no reach; each of its
/// slopes is a difference taken by stepping it again.
pub proof fn a_node_without_algebra_is_differenced<V: Scalar, D, C: Column<V, D>>(
    c: C,
    deps: D,
    dep_vals: Seq<V>,
    out_vals: Seq<V>,
    ws: Seq<usize>,
    row: int,
    slot: int,
)
    requires
        0 <= row < out_vals.len(),
        0 <= slot < dep_vals.len(),
    ensures
        ({
            let held = Refired(Some(c));
            let (jac, exact) = <Refired<C> as Capture<V, D>>::slopes(&held, deps, dep_vals, out_vals);
            let (b, fired, dh) = c.bumped(deps, slot, bump_of(dep_vals[slot]));
            let at = row * dep_vals.len() + slot;
            &&& !exact
            &&& <Refired<C> as Capture<V, D>>::equation(&held) is None
            &&& <Refired<C> as Capture<V, D>>::reach_block(&held, deps, ws, out_vals.len()) is None
            &&& jac.len() == out_vals.len() * dep_vals.len()
            &&& 0 <= at < jac.len()
            &&& dep_vals[slot].absent() || !fired || dh.equals(V::whole(0)) ==> jac[at] == V::none()
            &&& !dep_vals[slot].absent() && fired && !dh.equals(V::whole(0)) ==> jac[at] == b[row].minus(
                out_vals[row],
            ).over(dh)
        }),
{
    let n = dep_vals.len() as int;
    let at = row * n + slot;
    assert(0 <= at < out_vals.len() * n) by (nonlinear_arith)
        requires
            at == row * n + slot,
            0 <= row < out_vals.len(),
            0 <= slot < n,
    ;
    vstd::arithmetic::div_mod::lemma_fundamental_div_mod_converse(at, n, row, slot);
}

/// A dep's part of a block over its whole reach is one group of columns per lag, each as wide as the
/// dep.
pub proof fn a_dep_s_part_is_one_group_per_lag(prov: Seq<Source>, stride: nat, slots: Seq<usize>, d: int)
    requires
        0 <= d < slots.len(),
        lags_of(prov, stride, d) * slots[d] <= usize::MAX,
    ensures
        lagged_widths(prov, stride, slots).len() == slots.len(),
        lagged_widths(prov, stride, slots)[d] == lags_of(prov, stride, d) * slots[d],
{
    vstd::arithmetic::mul::lemma_mul_nonnegative(lags_of(prov, stride, d) as int, slots[d] as int);
}

/// What reads its deps at one point or element by element claims to leave nothing out; what carries a
/// state or a period says so.
pub proof fn what_carries_a_past_claims_less()
    ensures
        Pure::claim() == Fidelity::Exact,
        Predicate::claim() == Fidelity::Exact,
        Scan::claim() == Fidelity::Exact,
        Fold::claim() is Partial,
        Close::claim() is Partial,
{
}

/// Bars are drawn as candles over the price: their four prices, and not their volume; what they are
/// joined from is not drawn, and what says nothing of it is drawn whole, alone on a pane.
pub proof fn bars_are_drawn_as_candles<const MS: u64, V: Scalar + 'static>()
    ensures
        Bars::<MS, V>::plots_spec() == seq![candles()],
        Ohlcs::<MS, V>::plots_spec() == Seq::<Plot>::empty(),
        Volumes::<MS, V>::plots_spec() == Seq::<Plot>::empty(),
        candles().candles && candles().overlay && !candles().solo && !candles().bars,
        !plain_plot(Seq::empty()).candles && !plain_plot(Seq::empty()).overlay,
        !plain_plot(Seq::empty()).solo && !plain_plot(Seq::empty()).bars,
{
}

/// The candles of a bar are drawn of its first four slots, and an index of both its slots, by name.
pub proof fn candles_are_drawn_of_the_prices<B, S: RsiSpec, V: Scalar + 'static>() where
    B: Series<Item = Bar<V>, Batch = Rows<Bar<V>>> + 'static,
    for <'x>B: Cell<Out<'x> = &'x [<B as Series>::Item]>,

    ensures
        candles().slots == slice_of(seq![0usize, 1, 2, 3]),
        candles().labels == slice_of(Seq::<&'static [&'static str]>::empty()),
        Rsi::<B, S, V>::plots_spec() == seq![plain_plot(leg_names())],
        leg_names() == seq![slice_of(seq!["actual", "smooth"])],
        plain_plot(leg_names()).labels == slice_of(leg_names()),
        plain_plot(leg_names()).slots == slice_of(Seq::<usize>::empty()),
        RsiDelta::<B, V>::plots_spec() == seq![plain_plot(Seq::empty())],
        AvgGain::<B, S, V>::plots_spec() == seq![plain_plot(Seq::empty())],
        AvgLoss::<B, S, V>::plots_spec() == seq![plain_plot(Seq::empty())],
        RsiDelta::<B, V>::fidelity_spec() == Fidelity::Exact,
        AvgGain::<B, S, V>::fidelity_spec() is Partial,
        AvgLoss::<B, S, V>::fidelity_spec() is Partial,
        Rsi::<B, S, V>::fidelity_spec() is Partial,
{
}

} // verus!
