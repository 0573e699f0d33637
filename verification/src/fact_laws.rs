//! What each cell states of itself, and what the wrappers in dep position add to it.

use vstd::prelude::*;

use crate::bar::{Bar, Bars, Ohlcs, Volumes};
use crate::retain::Batch;
use crate::book::Book;
use crate::cell::{Cell, Facts, Folding, Bit, No, Yes};
use crate::cells::{BookAnchors, BookDeltas, Trades};
use crate::dep_flat::DepFlat;
use crate::deps::{folds, orderly, DepSet};
use crate::flat::Flat;
use crate::horizon::{Horizon, Reach, Timeframe};
use crate::latch::{Armed, Episodic, Gate, Gating};
use crate::rows::Present;
use crate::rsi::{AvgGain, AvgLoss, Rsi, RsiDelta, RsiSpec};
use crate::scalar::Scalar;
use crate::series::{Buffer, Buffering, Latest, Sampling, Series};
use crate::tag::{horizon_text, timeframe_text};

verus! {

/// Whether facts state nothing beyond a batch that is read as it comes.
pub open spec fn states_nothing(f: Facts) -> bool {
    f.reach == Horizon::Unit && !f.folded && !f.retained && !f.rewarms && f.clock is None
}

/// A root states nothing beyond its batch; a book states that it warms up again after a sleep, and that
/// alone.
pub proof fn a_root_states_nothing_and_a_book_that_it_rewarms()
    ensures
        states_nothing(Facts::plain()),
        states_nothing(Trades::facts_spec()),
        states_nothing(BookAnchors::facts_spec()),
        states_nothing(BookDeltas::facts_spec()),
        Book::facts_spec().rewarms,
        states_nothing(Facts { rewarms: false, ..Book::facts_spec() }),
        Trades::label() == "Trades"@ && BookAnchors::label() == "BookAnchors"@,
        BookDeltas::label() == "BookDeltas"@ && Book::label() == "Book"@,
{
}

/// A folded dep is held by the node that names it, as far back as it says; it is published as the cell
/// itself is, and goes by its name.
pub proof fn a_folded_dep_is_the_node_s_own_to_hold<C: Cell, R: Reach>()
    ensures
        ({
            let f = Folding::<C, R>::facts_spec();
            f.reach == R::reach() && f.folded && !f.retained && !f.rewarms && f.clock == C::facts_spec().clock
        }),
        Folding::<C, R>::label() == C::label(),
{
}

/// A buffered dep is kept by the engine, as far back as it says, and a sampled one as a level; each is
/// published as its series is, and goes by its name.
pub proof fn a_retained_dep_is_the_engine_s_to_keep<C: Series, R: Reach>() where
    for <'x>C: Cell<Out<'x> = &'x [<C as Series>::Item]>,
    C::Batch: Batch<C::Item>,
    C::Item: Present,

    ensures
        ({
            let f = Buffering::<C, R>::facts_spec();
            f.reach == R::reach() && !f.folded && f.retained && !f.rewarms && f.clock == C::facts_spec().clock
        }),
        ({
            let f = Sampling::<C>::facts_spec();
            f.reach == Horizon::Unit && !f.folded && f.retained && !f.rewarms && f.clock
                == C::facts_spec().clock
        }),
        Buffering::<C, R>::label() == C::label(),
        Sampling::<C>::label() == C::label(),
        ({
            let f = Buffer::<C, R>::facts_spec();
            f.reach == R::reach() && !f.folded && !f.retained && !f.rewarms && f.clock is None
        }),
        states_nothing(Latest::<C>::facts_spec()),
        Buffer::<C, R>::label() == "Buffer"@ + "<"@ + C::label() + ", "@ + horizon_text(R::reach()) + ">"@,
        Latest::<C>::label() == "Latest"@ + "<"@ + C::label() + ">"@,
{
    let (a, b) = (C::label(), horizon_text(R::reach()));
    assert("Buffer"@ + "<"@ + (a + ", "@ + b) + ">"@ =~= "Buffer"@ + "<"@ + a + ", "@ + b + ">"@);
}

/// A gating dep permits where its gate reads true, and only a gating dep gates; a latch states nothing
/// beyond its batch.
pub proof fn a_gating_dep_permits_what_its_gate_reads<C: Gate, N: Episodic>(out: bool) where
    for <'t>C: Cell<Out<'t> = bool>,

    ensures
        Gating::<C>::permits(out) <==> out,
        Gating::<C>::label() == C::label(),
        Gating::<C>::facts_spec().clock == C::facts_spec().clock,
        states_nothing(Facts { clock: None, ..Gating::<C>::facts_spec() }),
        states_nothing(Armed::<N>::facts_spec()),
        Armed::<N>::label() == "Armed"@ + "<"@ + N::label() + ">"@,
        Yes::set(),
        !No::set(),
{
}

/// What is gathered by periods publishes once a period, of its own length, and is named by it.
pub proof fn a_bar_is_published_once_a_period<const MS: u64, V: Scalar + 'static>()
    ensures
        Ohlcs::<MS, V>::facts_spec().clock == Some(Timeframe(MS)),
        Volumes::<MS, V>::facts_spec().clock == Some(Timeframe(MS)),
        Bars::<MS, V>::facts_spec().clock == Some(Timeframe(MS)),
        states_nothing(Facts { clock: None, ..Ohlcs::<MS, V>::facts_spec() }),
        states_nothing(Facts { clock: None, ..Volumes::<MS, V>::facts_spec() }),
        states_nothing(Facts { clock: None, ..Bars::<MS, V>::facts_spec() }),
        Ohlcs::<MS, V>::label() == "Ohlc:"@ + timeframe_text(Timeframe(MS)),
        Volumes::<MS, V>::label() == "Vol:"@ + timeframe_text(Timeframe(MS)),
        Bars::<MS, V>::label() == "Bar:"@ + timeframe_text(Timeframe(MS)),
{
}

/// The legs of an index state nothing beyond their batches, and are named by their bars and the index
/// they are legs of.
pub proof fn the_legs_of_an_index_state_nothing<B, S: RsiSpec, V: Scalar + 'static>() where
    B: Series<Item = Bar<V>> + 'static,
    for <'x>B: Cell<Out<'x> = &'x [<B as Series>::Item]>,

    ensures
        states_nothing(RsiDelta::<B, V>::facts_spec()),
        states_nothing(AvgGain::<B, S, V>::facts_spec()),
        states_nothing(AvgLoss::<B, S, V>::facts_spec()),
        states_nothing(Rsi::<B, S, V>::facts_spec()),
        RsiDelta::<B, V>::label() == "RsiDelta"@ + "<"@ + B::label() + ">"@,
        AvgGain::<B, S, V>::label() == "AvgGain"@ + "<"@ + B::label() + ", "@ + S::label() + ">"@,
        AvgLoss::<B, S, V>::label() == "AvgLoss"@ + "<"@ + B::label() + ", "@ + S::label() + ">"@,
        Rsi::<B, S, V>::label() == "Rsi"@ + "<"@ + B::label() + ", "@ + S::label() + ">"@,
{
    let (a, b) = (B::label(), S::label());
    assert("AvgGain"@ + "<"@ + (a + ", "@ + b) + ">"@ =~= "AvgGain"@ + "<"@ + a + ", "@ + b + ">"@);
    assert("AvgLoss"@ + "<"@ + (a + ", "@ + b) + ">"@ =~= "AvgLoss"@ + "<"@ + a + ", "@ + b + ">"@);
    assert("Rsi"@ + "<"@ + (a + ", "@ + b) + ">"@ =~= "Rsi"@ + "<"@ + a + ", "@ + b + ">"@);
}

/// A list of deps states what each of them does, in order: its name, its facts and whether it gates.
pub proof fn deps_state_what_each_of_them_does<H: Cell, T: DepSet>(i: int)
    requires
        T::labels().len() == T::all_facts().len() == T::gate_flags().len(),
        0 <= i < T::labels().len(),
    ensures
        <(H, T) as DepSet>::labels().len() == T::labels().len() + 1,
        <(H, T) as DepSet>::labels()[0] == H::label(),
        <(H, T) as DepSet>::labels()[i + 1] == T::labels()[i],
        <(H, T) as DepSet>::all_facts()[0] == H::facts_spec(),
        <(H, T) as DepSet>::all_facts()[i + 1] == T::all_facts()[i],
        <(H, T) as DepSet>::gate_flags()[0] == H::Gates::set(),
        <(H, T) as DepSet>::gate_flags()[i + 1] == T::gate_flags()[i],
{
}

/// Deps are as wide as each of them is, one behind the other, and a node is driven as often as the first
/// of them fires; a node without deps is never driven.
pub proof fn deps_are_as_wide_as_each_of_them<'t, V: Scalar, H: Cell, T: DepFlat<V>>(
    outs: (H::Out<'t>, T::Outs<'t>),
    i: int,
) where
    for <'x>H::Out<'x>: Flat<V>,

    requires
        0 <= i < T::dep_widths().len(),
        T::dep_widths().len() == T::dep_dims().len(),
        <H::Out<'static> as Flat<V>>::len_spec() <= usize::MAX,
    ensures
        <(H, T) as DepFlat<V>>::dep_len() == <H::Out<'static> as Flat<V>>::len_spec() + T::dep_len(),
        <(H, T) as DepFlat<V>>::dep_widths().len() == T::dep_widths().len() + 1,
        <(H, T) as DepFlat<V>>::dep_widths()[0] == <H::Out<'static> as Flat<V>>::len_spec(),
        <(H, T) as DepFlat<V>>::dep_widths()[i + 1] == T::dep_widths()[i],
        <(H, T) as DepFlat<V>>::dep_dims()[0] == <H::Out<'static> as Flat<V>>::dims_spec(),
        <(H, T) as DepFlat<V>>::dep_dims()[i + 1] == T::dep_dims()[i],
        <(H, T) as DepFlat<V>>::lead_count(outs) == outs.0.count(),
        <() as DepFlat<V>>::lead_count(()) == 0,
        <() as DepFlat<V>>::dep_len() == 0,
{
}

/// Deps are in order where no gating dep follows one that does not gate, and where a node that is gated
/// folds none of them itself: what a shut gate withholds from a fold is lost to it.
pub proof fn deps_in_order_lead_with_their_gates_and_fold_none<D: DepSet>(i: int, j: int)
    requires
        0 <= i < D::gate_flags().len(),
        0 <= j < D::gate_flags().len(),
        D::gate_flags().len() == D::all_facts().len(),
    ensures
        orderly::<D>() && i < j && D::gate_flags()[j] ==> D::gate_flags()[i],
        orderly::<D>() && D::gate_flags()[i] ==> !D::all_facts()[j].folded,
        (forall|k: int| 0 <= k < D::gate_flags().len() ==> !D::gate_flags()[k]) ==> orderly::<D>(),
        (forall|k: int| 0 <= k < D::gate_flags().len() ==> D::gate_flags()[k]) && (forall|k: int|
            0 <= k < D::all_facts().len() ==> !(#[trigger] D::all_facts()[k]).folded) ==> orderly::<D>(),
{
    let held = folds(D::all_facts());
    assert(held[j] == D::all_facts()[j].folded);
    if forall|k: int| 0 <= k < D::all_facts().len() ==> !(#[trigger] D::all_facts()[k]).folded {
        assert forall|k: int| 0 <= k < held.len() implies !#[trigger] held[k] by {
            assert(held[k] == D::all_facts()[k].folded);
        }
    }
}

} // verus!
