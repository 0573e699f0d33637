//! What observing a sweep does to it: nothing.

use vstd::prelude::*;

use crate::bar::{Bar, Bars, Ohlc, Ohlcs, Volume, Volumes};
use crate::book::{Book, BookShape};
use crate::book_node::same_book;
use crate::cell::{Cell, Dark};
use crate::chunk::BookChunk;
use crate::cols::TradeCols;
use crate::delta::BookDelta;
use crate::deps::{DepSet, Pull};
use crate::emit::{emitted, runs, Emit, Emitter};
use crate::horizon::Reach;
use crate::latch::{Armed, Episodic};
use crate::node::{stepped, Node};
use crate::rows::{Hist, Present, Rows};
use crate::rsi::{AvgGain, AvgLoss, Rsi, RsiDelta, RsiSpec, Sample};
use crate::scalar::Scalar;
use crate::series::{Buffer, Latest, Series};
use crate::stamped::Stamped;
use crate::sweep::seen;

verus! {

/// Whether an advance over these deps comes to one thing: any two of them put out what is the `same`
/// and leave nodes that are `alike`, be that one and the same or all that is seen of them.
pub open spec fn settles<'t, N: Node>(
    node: N,
    deps: <N::Deps as DepSet>::Outs<'t>,
    alike: spec_fn(N, N) -> bool,
    same: spec_fn(N::Out<'t>, N::Out<'t>) -> bool,
) -> bool {
    forall|a: N, x: N::Out<'t>, b: N, y: N::Out<'t>|
        #![trigger node.advances(deps, &a, x), node.advances(deps, &b, y)]
        node.advances(deps, &a, x) && node.advances(deps, &b, y) ==> alike(a, b) && same(x, y)
}

/// Whether a node that is not run reads one way.
pub open spec fn one_dark<'t, N>(same: spec_fn(N::Out<'t>, N::Out<'t>) -> bool) -> bool where
    N: Node,
    N::Out<'t>: Dark<<N::Deps as DepSet>::Lead>,
 {
    forall|x: N::Out<'t>, y: N::Out<'t>|
        #[trigger] x.darkened() && #[trigger] y.darkened() ==> same(x, y)
}

/// Observing changes neither an out nor a state: of two steps of one node over one frame, each bare or
/// under an observer of whatever depth, both put out the same and leave nodes that are alike.
pub proof fn observing_changes_nothing<'t, N, F, I>(
    frame: &F,
    node: N,
    a: N,
    x: N::Out<'t>,
    b: N,
    y: N::Out<'t>,
    alike: spec_fn(N, N) -> bool,
    same: spec_fn(N::Out<'t>, N::Out<'t>) -> bool,
) where N: Node, N::Deps: Pull<'t, F, I>, N::Out<'t>: Dark<<N::Deps as DepSet>::Lead>
    requires
        stepped::<N, F, I>(frame, node, a, x),
        stepped::<N, F, I>(frame, node, b, y),
        settles(node, <N::Deps as Pull<'t, F, I>>::pulled(frame), alike, same),
        one_dark::<N>(same),
        alike(node, node),
    ensures
        same(x, y),
        alike(a, b),
        !<N::Deps as Pull<'t, F, I>>::opened(frame) ==> a == node && b == node,
{
}

/// The same of two steps told alike whether to run and what to read if not: with `run` false the node
/// is where it stood and reads as it was told to.
pub proof fn what_is_wanted_changes_nothing<'t, N: Node>(
    node: N,
    run: bool,
    deps: <N::Deps as DepSet>::Outs<'t>,
    unrun: Option<N::Out<'t>>,
    a: N,
    x: N::Out<'t>,
    b: N,
    y: N::Out<'t>,
    alike: spec_fn(N, N) -> bool,
    same: spec_fn(N::Out<'t>, N::Out<'t>) -> bool,
)
    requires
        seen(node, run, deps, unrun, a, x),
        seen(node, run, deps, unrun, b, y),
        settles(node, deps, alike, same),
        alike(node, node),
    ensures
        run ==> same(x, y),
        !run ==> x == y,
        alike(a, b),
        !run ==> a == node && b == node && unrun == Some(x),
{
}

/// Whether an emission over these deps comes to one thing.
pub open spec fn emission_settles<'t, E>(
    node: E,
    deps: <E::Deps as DepSet>::Outs<'t>,
    alike: spec_fn(E, E) -> bool,
) -> bool where E: Emit, for <'x>E: Cell<Out<'x> = &'x [<E as Series>::Item]> {
    forall|a: E, x: Seq<E::Item>, b: E, y: Seq<E::Item>|
        #![trigger node.emits(deps, &a, x), node.emits(deps, &b, y)]
        node.emits(deps, &a, x) && node.emits(deps, &b, y) ==> alike(a, b) && x == y
}

/// An observed emission is the bare one: of two steps of one emitter over one frame on one tick, each
/// bare or observed, both put out the same run and leave emitters that hold it, stand at the same
/// period, and hold nodes that are alike. The run is empty, and the node as it stood, wherever nobody
/// demanded it, a gating dep read false, or its period had not come round.
pub proof fn an_observed_emission_is_the_bare_one<'t, E, F, I>(
    frame: &F,
    e: Emitter<E>,
    demanded: bool,
    ts: int,
    a: Emitter<E>,
    x: Seq<E::Item>,
    b: Emitter<E>,
    y: Seq<E::Item>,
    alike: spec_fn(E, E) -> bool,
) where E: Emit, for <'x>E: Cell<Out<'x> = &'x [<E as Series>::Item]>, E::Deps: Pull<'t, F, I>
    requires
        emitted::<E, F, I>(frame, e, demanded, ts, a, x),
        emitted::<E, F, I>(frame, e, demanded, ts, b, y),
        emission_settles(e.held(), <E::Deps as Pull<'t, F, I>>::pulled(frame), alike),
        alike(e.held(), e.held()),
    ensures
        x == y,
        a.run() == x && b.run() == x,
        a.period() == b.period(),
        alike(a.held(), b.held()),
        !demanded || !<E::Deps as Pull<'t, F, I>>::opened(frame) ==> x.len() == 0,
        !runs::<E, F, I>(frame, e, demanded, ts) ==> x.len() == 0 && a.held() == e.held()
            && b.held() == e.held(),
{
    assert(!runs::<E, F, I>(frame, e, demanded, ts) ==> x =~= y);
}

/// A level settles: it stands at one value.
pub proof fn a_level_settles<'t, C: Series>(node: Latest<C>, run: &'t [C::Item]) where
    for <'x>C: Cell<Out<'x> = &'x [<C as Series>::Item]>,
    C::Item: Present,

    ensures
        settles(
            node,
            (run, ()),
            |a: Latest<C>, b: Latest<C>| a == b,
            |x: Option<<C::Item as Present>::Val>, y: Option<<C::Item as Present>::Val>| x == y,
        ),
{
}

/// A contact settles: it is open or closed.
pub proof fn a_contact_settles<'t, N: Episodic>(
    node: Armed<N>,
    trigger: <N::Trigger as Cell>::Out<'t>,
)
    ensures
        settles(
            node,
            (trigger, ()),
            |a: Armed<N>, b: Armed<N>| a.contact == b.contact,
            |x: bool, y: bool| x == y,
        ),
{
}

/// The accumulators settle: one run of closed periods and one partial period, whatever trades came.
pub proof fn the_accumulators_settle<'t, const MS: u64, V: Scalar + 'static>(
    prices: Ohlcs<MS, V>,
    volumes: Volumes<MS, V>,
    trades: TradeCols<'t>,
)
    ensures
        emission_settles(
            prices,
            (trades, ()),
            |a: Ohlcs<MS, V>, b: Ohlcs<MS, V>| a.pending@ == b.pending@,
        ),
        emission_settles(
            volumes,
            (trades, ()),
            |a: Volumes<MS, V>, b: Volumes<MS, V>| a.pending@ == b.pending@,
        ),
{
}

/// A bar settles: it is the join of its two halves.
pub proof fn the_bars_settle<'t, const MS: u64, V: Scalar + 'static>(
    bars: Bars<MS, V>,
    prices: &'t [Ohlc<V>],
    volumes: &'t [Volume<V>],
)
    ensures
        emission_settles(bars, (prices, (volumes, ())), |a: Bars<MS, V>, b: Bars<MS, V>| true),
{
}

/// A book settles: the same levels at the same place, readable or not.
pub proof fn a_book_settles<'t>(node: Book, anchor: Option<&'t BookShape>, chunk: &'t BookChunk)
    ensures
        settles(
            node,
            (anchor, (chunk, ())),
            |a: Book, b: Book| a@ == b@ && a.wf() && b.wf(),
            |x: Option<&'t Book>, y: Option<&'t Book>| same_book(x, y),
        ),
{
}

/// Whether two views of some rows read alike.
pub open spec fn same_rows<'t, T>(x: Hist<'t, T>, y: Hist<'t, T>) -> bool {
    &&& x.all@ == y.all@
    &&& x.fresh == y.fresh
    &&& x.horizon == y.horizon
    &&& x.watermark == y.watermark
}

/// A buffer that keeps its rows settles: one window of them, and one batch at its end.
pub proof fn a_buffer_of_rows_settles<'t, C, T, R>(node: Buffer<C, R>, run: &'t [T]) where
    T: Copy + Stamped + 'static,
    C: Series<Item = T, Batch = Rows<T>>,
    for <'x>C: Cell<Out<'x> = &'x [<C as Series>::Item]>,
    R: Reach,

    ensures
        settles(
            node,
            (run, ()),
            |a: Buffer<C, R>, b: Buffer<C, R>| a.batch@ == b.batch@,
            |x: Hist<'t, T>, y: Hist<'t, T>| same_rows(x, y),
        ),
{
}

/// A buffer that folds its levels settles: one net of the period, and one of the period before.
pub proof fn a_buffer_of_levels_settles<'t, C, R>(node: Buffer<C, R>, run: &'t [BookDelta]) where
    C: Series<Item = BookDelta, Batch = BookChunk>,
    for <'x>C: Cell<Out<'x> = &'x [<C as Series>::Item]>,
    R: Reach,

    ensures
        settles(
            node,
            (run, ()),
            |a: Buffer<C, R>, b: Buffer<C, R>| a.batch@ == b.batch@,
            |x: &'t BookChunk, y: &'t BookChunk| x@ == y@,
        ),
{
}

/// The changes between bars settle: they are the bars' own.
pub proof fn the_changes_settle<'t, B, V>(node: RsiDelta<B, V>, bars: Hist<'t, Bar<V>>) where
    B: Series<Item = Bar<V>, Batch = Rows<Bar<V>>> + 'static,
    V: Scalar + 'static,
    for <'x>B: Cell<Out<'x> = &'x [<B as Series>::Item]>,

    ensures
        emission_settles(node, (bars, ()), |a: RsiDelta<B, V>, b: RsiDelta<B, V>| a == b),
{
}

/// The averages settle: one value per change, and one running average.
pub proof fn the_averages_settle<'t, B, S, V>(
    gain: AvgGain<B, S, V>,
    loss: AvgLoss<B, S, V>,
    changes: &'t [Sample<V>],
) where
    B: Series<Item = Bar<V>, Batch = Rows<Bar<V>>> + 'static,
    S: RsiSpec,
    V: Scalar + 'static,
    for <'x>B: Cell<Out<'x> = &'x [<B as Series>::Item]>,

    ensures
        emission_settles(
            gain,
            (changes, ()),
            |a: AvgGain<B, S, V>, b: AvgGain<B, S, V>| a.avg@ == b.avg@,
        ),
        emission_settles(
            loss,
            (changes, ()),
            |a: AvgLoss<B, S, V>, b: AvgLoss<B, S, V>| a.avg@ == b.avg@,
        ),
{
}

/// The index settles: one pair of readings per pair of averages, and one running smoothing.
pub proof fn the_index_settles<'t, B, S, V>(
    node: Rsi<B, S, V>,
    gains: &'t [Sample<V>],
    losses: &'t [Sample<V>],
) where
    B: Series<Item = Bar<V>, Batch = Rows<Bar<V>>> + 'static,
    S: RsiSpec,
    V: Scalar + 'static,
    for <'x>B: Cell<Out<'x> = &'x [<B as Series>::Item]>,

    ensures
        emission_settles(
            node,
            (gains, (losses, ())),
            |a: Rsi<B, S, V>, b: Rsi<B, S, V>| a.smooth@ == b.smooth@,
        ),
{
}

} // verus!
