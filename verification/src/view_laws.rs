//! What is shown of a node: which element its slopes are taken at, what an observer is handed, and what
//! stands in which slot.

use vstd::prelude::*;

use crate::algebra::Slots;
use crate::book::{shape_of, Book, BookShape};
use crate::book_laws::listed;
use crate::bump::Bump;
use crate::cell::Cell;
use crate::chunk::BookChunk;
use crate::close::{Close, Closes};
use crate::dep_flat::DepFlat;
use crate::deps::DepSet;
use crate::flat::{blank, last_fired, last_slots, whole_item, Flat, Unflat};
use crate::fold::{Fold, Folds};
use crate::glance::Glance;
use crate::kernel::{captured, zeros, Scan, Scans};
use crate::ladder::{lemma_level_absent, lemma_level_at, levels, listing};
use crate::lanes::top_price;
use crate::nudge::Blind;
use crate::nudge::{own, rest, run_applied, run_nudged, value_applied, value_nudged};
use crate::observe::{Fired, Observer};
use crate::plot::Plot;
use crate::scalar::{raised, Scalar};
use crate::series::Series;
use crate::shape::Fidelity;
use crate::side::Side;
use crate::sweep::{flats_of, shown, showing, showing_dark, showing_run};
use crate::sweep::{Capture, FlatsView, Observed, ObservedRun};
use crate::tree::Tree;
use crate::want::Want;

verus! {

/// The slopes of a scan are those of its body at the newest element, where that carried anything, and
/// are taken for an observer that reads slopes alone.
pub proof fn a_scan_is_captured_at_its_newest_element<V: Scalar, D, E: Scans<V, D>>(e: E, deps: D)
    ensures
        Scan::capture::<V, D, E>(e, Want::Nothing, deps) is None,
        Scan::capture::<V, D, E>(e, Want::Vals, deps) is None,
        E::lead(deps) == 0 ==> Scan::capture::<V, D, E>(e, Want::Exact, deps) is None,
        E::lead(deps) > 0 ==> match E::reading(deps, E::lead(deps) - 1) {
            Some(x) => {
                &&& Scan::capture::<V, D, E>(e, Want::Jac, deps) == Some(
                    captured(e.body_spec().slot_trees(), e.body_spec(), x.slots),
                )
                &&& Scan::capture::<V, D, E>(e, Want::Exact, deps) == Scan::capture::<V, D, E>(
                    e,
                    Want::Jac,
                    deps,
                )
            },
            None => Scan::capture::<V, D, E>(e, Want::Exact, deps) is None,
        },
{
}

/// What was captured is the formula of every slot and their slopes from nothing, a row as wide as what
/// was read for each.
pub proof fn what_is_captured_starts_from_nothing<V: Scalar, S: Slots<V>>(
    formulas: Seq<Tree<V>>,
    slots: S,
    env: Seq<V>,
)
    ensures
        captured(formulas, slots, env).formulas == formulas,
        captured(formulas, slots, env).stride == env.len(),
        captured(formulas, slots, env).grad == slots.slot_slopes(
            env,
            Seq::new(S::width() * env.len(), |i: int| V::whole(0)),
        ),
{
}

/// The newest element of a close: folded into the period it fell into, with what the period held beside
/// it, or the one that opened it, with nothing there.
pub proof fn an_element_folds_or_opens<V: Scalar, D, E: Closes<V, D>>(e: E, deps: D, n: nat)
    requires
        E::reading(deps, n as int) is Some,
        E::period_spec().0 > 0,
    ensures
        ({
            let x = E::reading(deps, n as int)->Some_0;
            let (was, is) = (
                Close::walk::<V, D, E>(e, deps, n),
                Close::walk::<V, D, E>(e, deps, n + 1),
            );
            let step = E::period_spec().0 * 1_000_000;
            let ends = (x.ts as int / step + 1) * step;
            let within = was.pending.live && was.pending.ts_close == ends;
            &&& is.pending.live && is.pending.ts_close == ends
            &&& within ==> {
                &&& is.newest == Some((x.slots + was.pending.slots, true))
                &&& is.pending.slots == e.fold_spec().slot_values(x.slots + was.pending.slots)
                &&& is.closed == was.closed && is.last == was.last
            }
            &&& !within ==> {
                &&& is.newest == Some((x.slots + zeros::<V>(E::Item::len_spec()), false))
                &&& is.pending.slots == e.open_spec().slot_values(x.slots)
                &&& was.pending.live ==> is.last == was.newest && is.closed.len() == was.closed.len() + 1
                &&& !was.pending.live ==> is.last == was.last && is.closed == was.closed
            }
        }),
{
    let x = E::reading(deps, n as int)->Some_0;
    let step = E::period_spec().0 * 1_000_000;
    let ts = x.ts as int;
    vstd::arithmetic::div_mod::lemma_fundamental_div_mod(ts, step);
    assert((ts / step + 1) * step == step * (ts / step) + step) by (nonlinear_arith);
}

/// The slopes of a close are those at the last element of the last period that closed: of the folding
/// body where it was folded in, and of the opening one where it opened the period alone.
pub proof fn a_close_is_captured_where_it_closed<V: Scalar, D, E: Closes<V, D>>(e: E, deps: D)
    ensures
        ({
            let last = Close::walk::<V, D, E>(e, deps, E::lead(deps)).last;
            &&& last is None ==> Close::capture::<V, D, E>(e, Want::Exact, deps) is None
            &&& last matches Some((env, true)) ==> Close::capture::<V, D, E>(e, Want::Jac, deps) == Some(
                captured(e.fold_spec().slot_trees(), e.fold_spec(), env),
            )
            &&& last matches Some((env, false)) ==> Close::capture::<V, D, E>(e, Want::Jac, deps) == Some(
                captured(e.fold_spec().slot_trees(), e.open_spec(), env),
            )
        }),
{
}

/// A fold steps its state by each element that carries anything, and shows the value of the state it
/// came to.
pub proof fn a_fold_shows_the_state_it_came_to<V: Scalar, D, E: Folds<V, D>>(e: E, deps: D, n: nat)
    requires
        E::reading(deps, n as int) is Some,
    ensures
        ({
            let x = E::reading(deps, n as int)->Some_0;
            let (was, is) = (
                Fold::walk::<V, D, E>(e, deps, n),
                Fold::walk::<V, D, E>(e, deps, n + 1),
            );
            &&& is.state == e.step_spec().slot_values(x.slots + was.state)
            &&& is.run.last() == <E::Item as Unflat<V>>::item(
                x.ts,
                e.value_spec().slot_values(x.slots + is.state),
            )
            &&& is.run.drop_last() == was.run
            &&& is.last == Some((x.slots + was.state, x.slots + is.state))
            &&& Fold::walk::<V, D, E>(e, deps, 0).state == e.carried_spec()
        }),
{
    let (was, is) = (Fold::walk::<V, D, E>(e, deps, n), Fold::walk::<V, D, E>(e, deps, n + 1));
    assert(is.run.drop_last() =~= was.run);
}

/// An observer is handed a node's values, its slopes where it reads slopes and the node fired, and the
/// block of all its reach where it reads that too.
pub proof fn an_observer_is_handed_what_it_wants<'d, V, O, D, C>(
    out: O,
    deps: D::Outs<'d>,
    pre: C,
    want: Want,
) where V: Scalar, O: Flat<V>, D: DepFlat<V>, C: Capture<V, D::Outs<'d>>
    ensures
        ({
            let got = flats_of::<V, O, D, C>(out, deps, pre, want);
            let (jac, exact) = pre.slopes(deps, D::dep_values(deps), out.slots());
            let slopes = out.fired() && (want == Want::Jac || want == Want::Exact);
            &&& got.fired == out.fired() && got.vals == out.slots() && got.deps == D::dep_values(deps)
            &&& slopes ==> got.jac == Some(jac) && got.exact == exact
            &&& !slopes ==> got.jac is None && !got.exact
            &&& slopes && want == Want::Exact ==> got.block == pre.reach_block(
                deps,
                D::dep_widths(),
                O::len_spec(),
            )
            &&& !slopes || want != Want::Exact ==> got.block is None
        }),
{
}

/// What did not fire shows no values; a formula is shown with its derivatives, and traced through the
/// values it was computed from, unless it decides over them and one of them is absent.
pub proof fn what_did_not_fire_shows_no_values<V: Scalar>(
    headline: Seq<char>,
    dims: Seq<usize>,
    plots: Seq<Plot>,
    fidelity: Fidelity,
    fires: nat,
    dep_dims: Seq<Seq<usize>>,
    flat: FlatsView<V>,
    formula: Option<Tree<V>>,
    guarded: bool,
    names: Seq<Seq<char>>,
)
    ensures
        ({
            let got = shown(
                headline,
                dims,
                plots,
                None,
                fidelity,
                fires,
                dep_dims,
                Some(flat),
                formula,
                guarded,
                names,
            );
            &&& got.glance == headline && got.dims == dims && got.fires == fires
            &&& flat.fired ==> got.vals == Some(flat.vals)
            &&& !flat.fired ==> got.vals is None
            &&& got.jac == flat.jac && got.exact_block == flat.block && got.exact == flat.exact
            &&& formula is None ==> got.formula is None && got.deriv is None && got.trace is None
            &&& formula matches Some(t) ==> got.formula == Some(t.infix())
            &&& formula matches Some(t) ==> (!guarded || whole_item(flat.deps) ==> got.trace == Some(
                t.traced(flat.deps).drawn(),
            ))
            &&& guarded && !whole_item(flat.deps) ==> got.trace is None
        }),
{
}

/// A run is nudged in its newest element alone, by what that element moves by; an empty one not at all.
pub proof fn a_run_is_nudged_in_its_newest_element<V: Scalar, T: Bump<V>>(
    xs: Seq<T>,
    slot: int,
    h: V,
    i: int,
)
    requires
        0 <= i < xs.len(),
    ensures
        run_nudged(xs, Some(slot), h).len() == xs.len(),
        i < xs.len() - 1 ==> run_nudged(xs, Some(slot), h)[i] == xs[i],
        i == xs.len() - 1 ==> run_nudged(xs, Some(slot), h)[i] == xs[i].bumped(slot, h).0,
        run_applied(xs, Some(slot), h) == xs.last().bumped(slot, h).1,
        run_nudged(xs, None, h) == xs,
        run_applied(xs, None, h) == V::whole(0),
        run_applied(Seq::<T>::empty(), Some(slot), h) == V::whole(0),
{
}

/// Of a slot among all the deps' the first dep has those within its width and the rest have the others,
/// counted from its end: one of the two has it, and never both.
pub proof fn a_slot_falls_to_one_dep(slot: int, width: int)
    requires
        0 <= slot,
        0 <= width,
    ensures
        slot < width ==> own(Some(slot), width) == Some(slot) && rest(Some(slot), width) is None,
        slot >= width ==> own(Some(slot), width) is None && rest(Some(slot), width) == Some(slot - width),
        own(None, width) is None && rest(None, width) is None,
{
}

/// The values of a node's deps are the first dep's, and behind them those of the rest.
pub proof fn deps_are_read_in_their_order<'t, V: Scalar, H: Cell, T: DepFlat<V>>(
    head: H::Out<'t>,
    tail: T::Outs<'t>,
) where for <'x>H::Out<'x>: Flat<V>
    ensures
        ({
            let all = <(H, T) as DepFlat<V>>::dep_values((head, tail));
            let first = <H::Out<'t> as Flat<V>>::slots(&head);
            &&& all == first + T::dep_values(tail)
            &&& <(H, T) as DepFlat<V>>::dep_widths().len() == 1 + T::dep_widths().len()
            &&& <(H, T) as DepFlat<V>>::dep_widths().drop_first() == T::dep_widths()
            &&& <(H, T) as DepSet>::labels().first() == H::label()
            &&& <(H, T) as DepSet>::labels().drop_first() == T::labels()
        }),
{
    assert(<(H, T) as DepFlat<V>>::dep_widths().drop_first() =~= T::dep_widths());
    assert(<(H, T) as DepSet>::labels().drop_first() =~= T::labels());
}

/// A run shows its newest element, and has fired where that has; an empty one shows nothing and has not.
pub proof fn a_run_shows_its_newest_element<V: Scalar, T: Flat<V>>(xs: Seq<T>, x: T, i: int)
    ensures
        last_slots::<V, T>(xs.push(x)) == x.slots(),
        last_fired::<V, T>(xs.push(x)) == x.fired(),
        !last_fired::<V, T>(Seq::<T>::empty()),
        0 <= i < T::len_spec() ==> last_slots::<V, T>(Seq::<T>::empty())[i].absent(),
{
    V::none_is_absent();
}

/// A book shows its best bid and its best ask, each as the number its ticks are worth: the highest price
/// bid and the lowest asked, and no number where a side has none.
pub proof fn a_book_shows_its_best_prices<V: Scalar>(m: Map<i32, u32>, shape: &BookShape, price: i32)
    requires
        listed(Side::Buy, m),
        listed(Side::Sell, m),
    ensures
        m.contains_key(price) && (forall|p: i32| #[trigger] m.contains_key(p) ==> p <= price)
            ==> top_price::<V>(Side::Buy, m, shape.prec) == V::whole(price as int).over(
            raised(V::whole(10), shape.prec.price.0 as int),
        ),
        m.contains_key(price) && (forall|p: i32| #[trigger] m.contains_key(p) ==> price <= p)
            ==> top_price::<V>(Side::Sell, m, shape.prec) == V::whole(price as int).over(
            raised(V::whole(10), shape.prec.price.0 as int),
        ),
        (forall|p: i32| !(#[trigger] m.contains_key(p))) ==> top_price::<V>(
            Side::Buy,
            m,
            shape.prec,
        ) == V::none() && top_price::<V>(Side::Sell, m, shape.prec) == V::none(),
        <&BookShape as Flat<V>>::slots(&shape) == seq![
            top_price::<V>(Side::Buy, shape.bids@, shape.prec),
            top_price::<V>(Side::Sell, shape.asks@, shape.prec),
        ],
{
    lemma_first(Side::Buy, m, price);
    lemma_first(Side::Sell, m, price);
}

proof fn lemma_first(side: Side, m: Map<i32, u32>, price: i32)
    requires
        listed(side, m),
    ensures
        ({
            let s = listing(side, m);
            &&& s.len() > 0 ==> m.contains_key(s[0].0)
            &&& m.contains_key(price) ==> s.len() > 0 && match side {
                Side::Buy => price <= s[0].0,
                Side::Sell => s[0].0 <= price,
            }
        }),
{
    let s = listing(side, m);
    assert(levels(s) == m);
    if s.len() > 0 {
        lemma_level_at(side, s, 0);
    }
    if m.contains_key(price) {
        if forall|i: int| 0 <= i < s.len() ==> #[trigger] s[i].0 != price {
            lemma_level_absent(s, price);
        }
        let i = choose|i: int| 0 <= i < s.len() && #[trigger] s[i].0 == price;
        if i > 0 {
            assert(s[0].0 != s[i].0);
        }
    }
}

/// A step shows what it put out, under the node's own name for its shape, its plots, its clock and its
/// claim, and with the equation it was captured by; a step that did not run shows no values, no slopes
/// and no equation.
pub proof fn a_step_shows_what_it_put_out<'t, V, N>(
    deps: <N::Deps as DepSet>::Outs<'t>,
    pre: N::Pre,
    want: Want,
    out: N::Out<'t>,
) where
    V: Scalar,
    N: Observed<V>,
    N::Deps: DepFlat<V>,
    N::Out<'t>: Flat<V> + Glance,
    N::Pre: Capture<V, <N::Deps as DepSet>::Outs<'t>>,

    ensures
        ({
            let ran = showing::<V, N>(deps, pre, want, out);
            let dark = showing_dark::<V, N>(out);
            &&& ran.glance == out.headline() && dark.glance == out.headline()
            &&& ran.fires == out.count() && dark.fires == out.count()
            &&& ran.dims == <N::Out<'t> as Flat<V>>::dims_spec() && dark.dims == ran.dims
            &&& ran.plots == N::plots_spec() && dark.plots == ran.plots
            &&& ran.clock == N::facts_spec().clock && dark.clock == ran.clock
            &&& ran.fidelity == N::fidelity_spec() && dark.fidelity == ran.fidelity
            &&& ran.vals is Some <==> out.fired()
            &&& out.fired() ==> ran.vals == Some(out.slots())
            &&& pre.equation() matches Some(t) ==> ran.formula == Some(t.infix())
            &&& pre.equation() is None ==> ran.formula is None && ran.deriv is None && ran.trace is None
            &&& dark.vals is None && dark.jac is None && dark.exact_block is None && !dark.exact
            &&& dark.formula is None && dark.deriv is None && dark.trace is None
        }),
{
}

/// A fire of a run shows its last element and how many there were, and no equation; where nothing was
/// read off it, no values and no slopes either.
pub proof fn a_fire_of_a_run_shows_its_last<'t, V, E>(run: &'t [E::Item], flat: Option<FlatsView<V>>) where
    V: Scalar,
    E: ObservedRun<V>,
    for <'x>E: Cell<Out<'x> = &'x [<E as Series>::Item]>,
    E::Item: Flat<V> + Glance,
    E::Deps: DepFlat<V>,

    ensures
        ({
            let seen = showing_run::<V, E>(run, flat);
            &&& run@.len() > 0 ==> seen.glance == run@.last().headline()
            &&& seen.fires == run@.len()
            &&& seen.clock == E::facts_spec().clock
            &&& seen.fidelity == E::fidelity_spec()
            &&& seen.formula is None && seen.deriv is None && seen.trace is None
            &&& flat matches Some(f) ==> {
                &&& f.fired ==> seen.vals == Some(f.vals)
                &&& !f.fired ==> seen.vals is None
                &&& seen.jac == f.jac && seen.exact == f.exact && seen.exact_block == f.block
            }
            &&& flat is None ==> seen.vals is None && seen.jac is None && !seen.exact && seen.exact_block is None
        }),
{
}

/// Two observers of one sweep are each shown as much as the deeper of them wants, and both see each
/// fire; one that observes nothing wants nothing.
pub proof fn two_observers_see_the_same_sweep<V: Scalar, A: Observer<V>, B: Observer<V>>(
    both: (A, B),
    node: Seq<char>,
    deps: Seq<Seq<char>>,
    gates: Seq<bool>,
    fire: Fired<V>,
    after: (A, B),
)
    ensures
        ({
            let want = <(A, B) as Observer<V>>::wants(&both, node);
            let (one, other) = (both.0.wants(node), both.1.wants(node));
            &&& want == one || want == other
            &&& want.rank() >= one.rank() && want.rank() >= other.rank()
        }),
        <(A, B) as Observer<V>>::saw(&both, node, deps, gates, fire, &after) <==> both.0.saw(
            node,
            deps,
            gates,
            fire,
            &after.0,
        ) && both.1.saw(node, deps, gates, fire, &after.1),
        <() as Observer<V>>::wants(&(), node) == Want::Nothing,
{
}

/// A book is shown by its best prices once it is stepped, where it is synced, and by nothing where it is
/// not.
pub proof fn a_stepped_book_shows_its_best_prices<'t, V: Scalar>(
    book: Book,
    anchor: Option<&'t BookShape>,
    chunk: &'t BookChunk,
)
    ensures
        ({
            let next = book@.step(shape_of(anchor), chunk@);
            let (vals, fired) = <Book as Blind<V>>::shows(&book, (anchor, (chunk, ())));
            &&& fired == next.synced
            &&& next.synced ==> vals == seq![
                top_price::<V>(Side::Buy, next.bids, next.prec),
                top_price::<V>(Side::Sell, next.asks, next.prec),
            ]
            &&& !next.synced ==> vals == seq![V::none(), V::none()]
        }),
{
    let next = book@.step(shape_of(anchor), chunk@);
    let (vals, fired) = <Book as Blind<V>>::shows(&book, (anchor, (chunk, ())));
    assert(!next.synced ==> vals =~= seq![V::none(), V::none()]);
}

/// A value is nudged as far as it can be, and says how far that was; where it is not nudged it stays as it
/// is and moved by nothing.
pub proof fn a_value_says_how_far_it_was_nudged<V: Scalar, T: Bump<V>>(x: T, slot: int, h: V)
    ensures
        (value_nudged(x, Some(slot), h), value_applied(x, Some(slot), h)) == x.bumped(slot, h),
        value_nudged(x, None, h) == x,
        value_applied(x, None, h) == V::whole(0),
{
}

/// An element off which nothing could be read has no numbers in it; every other holds what the body comes
/// to over what was read off it, at its time.
pub proof fn an_element_off_which_nothing_is_read_is_absent<V: Scalar, D, E: Scans<V, D>>(e: E, deps: D, i: int)
    ensures
        E::reading(deps, i) is None ==> Scan::element::<V, D, E>(e, deps, i) == E::Item::item(
            0,
            Seq::new(E::Item::len_spec(), |k: int| V::none()),
        ),
        E::reading(deps, i) matches Some(x) ==> Scan::element::<V, D, E>(e, deps, i) == E::Item::item(
            x.ts,
            e.body_spec().slot_values(x.slots),
        ),
{
    assert(blank::<V>(E::Item::len_spec()) =~= Seq::new(E::Item::len_spec(), |k: int| V::none()));
}

} // verus!
