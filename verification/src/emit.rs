//! Run-shaped nodes: the engine's buffer, the clock that admits them, and the step that fills it.

use vstd::prelude::*;

use crate::cell::{Cell, Cons, Facts};
use crate::deps::{orderly, retains};
use crate::deps::{DepSet, Pull};
use crate::horizon::{Horizon, Timeframe};
use crate::manifest::all_set;
use crate::manifest::all;
use crate::series::Series;

verus! {

/// A node's run-shaped sibling: the out is the run of items filled each tick.
pub trait Emit: Series where for <'x>Self: Cell<Out<'x> = &'x [<Self as Series>::Item]> {
    type Deps: DepSet;

    /// Whether the node can fill a run off these deps.
    open spec fn can_emit<'t>(&self, deps: <Self::Deps as DepSet>::Outs<'t>) -> bool {
        arbitrary()
    }

    /// What filling a run off these deps makes of the node, and the run.
    open spec fn emits<'t>(
        &self,
        deps: <Self::Deps as DepSet>::Outs<'t>,
        after: &Self,
        run: Seq<Self::Item>,
    ) -> bool {
        arbitrary()
    }

    /// Fills the run. The engine owns it, so the node holds only what it remembers between ticks, and
    /// cannot read what it wrote last tick.
    fn emit<'t>(&mut self, deps: <Self::Deps as DepSet>::Outs<'t>, out: &mut Vec<Self::Item>)
        requires
            old(self).can_emit(deps),
            old(out)@.len() == 0,
        ensures
            old(self).emits(deps, final(self), final(out)@),
    ;
}

/// The engine-owned buffer an [`Emit`] fills, and the node itself.
pub struct Emitter<E: Emit> where for <'x>E: Cell<Out<'x> = &'x [<E as Series>::Item]> {
    node: E,
    buf: Vec<E::Item>,
    /// The period the node last ran in; the least number is "none yet". Carried by the wrapper rather
    /// than the node for the same reason the buffer is: the rate is declared, and what enforces it is
    /// not the declarer's to fiddle with.
    last_period: i64,
}

/// The period an event falls into, floored from the epoch.
pub open spec fn period_of(ts: int, ns: int) -> int {
    ts / ns
}

/// Whether a declared rate is the engine's to enforce: only a node reading nothing but what the
/// engine keeps is one a tick may be withheld from, since a withheld tick is a batch never delivered.
pub open spec fn enforced(clock: Option<Timeframe>, facts: Seq<Facts>) -> bool {
    clock is Some && all_set(retains(facts))
}

/// Whether a rate admits a tick, given the period the node last ran in.
pub open spec fn admits(
    clock: Option<Timeframe>,
    facts: Seq<Facts>,
    last_period: int,
    ts: int,
) -> bool {
    enforced(clock, facts) ==> period_of(ts, clock->Some_0.0 * 1_000_000) != last_period
}

/// The period the node last ran in, once a tick was offered to it.
pub open spec fn offered(
    clock: Option<Timeframe>,
    facts: Seq<Facts>,
    last_period: int,
    ts: int,
) -> int {
    if enforced(clock, facts) {
        period_of(ts, clock->Some_0.0 * 1_000_000)
    } else {
        last_period
    }
}

/// Whether a clock can be told the time.
pub open spec fn tells(clock: Option<Timeframe>) -> bool {
    clock matches Some(tf) ==> 0 < tf.0 * 1_000_000 <= i64::MAX
}

fn all_retained(facts: &[Facts]) -> (r: bool)
    ensures
        r == all_set(retains(facts@)),
{
    let mut flags: Vec<bool> = Vec::new();
    let mut i: usize = 0;
    while i < facts.len()
        invariant
            i <= facts@.len(),
            flags@ == retains(facts@).take(i as int),
        decreases facts@.len() - i,
    {
        flags.push(facts[i].retained);
        assert(retains(facts@).take(i + 1) =~= retains(facts@).take(i as int).push(
            retains(facts@)[i as int],
        ));
        i += 1;
    }
    assert(retains(facts@).take(i as int) =~= retains(facts@));
    all(flags.as_slice())
}

impl<E: Emit> Emitter<E> where for <'x>E: Cell<Out<'x> = &'x [<E as Series>::Item]> {
    /// The node.
    pub closed spec fn held(&self) -> E {
        self.node
    }

    pub fn node(&self) -> (r: &E)
        ensures
            *r == self.held(),
    {
        &self.node
    }

    /// The run standing in the buffer.
    pub closed spec fn run(&self) -> Seq<E::Item> {
        self.buf@
    }

    /// The period the node last ran in.
    pub closed spec fn period(&self) -> int {
        self.last_period as int
    }

    pub fn new(node: E) -> (r: Self)
        ensures
            r.held() == node,
            r.run() == Seq::<E::Item>::empty(),
            r.period() == i64::MIN,
    {
        Emitter { node, buf: Vec::new(), last_period: i64::MIN }
    }

    /// Empties the run, for the next tick's.
    pub fn clear(&mut self)
        ensures
            final(self).run() == Seq::<E::Item>::empty(),
            final(self).held() == old(self).held(),
            final(self).period() == old(self).period(),
    {
        self.buf = Vec::new();
    }

    /// Lets the node fill an empty run.
    pub fn fill<'t>(&mut self, deps: <E::Deps as DepSet>::Outs<'t>)
        requires
            old(self).run().len() == 0,
            old(self).held().can_emit(deps),
        ensures
            old(self).held().emits(deps, &final(self).held(), final(self).run()),
            final(self).period() == old(self).period(),
    {
        self.node.emit(deps, &mut self.buf);
    }

    pub fn filled(&self) -> (r: &[E::Item])
        ensures
            r@ == self.run(),
    {
        self.buf.as_slice()
    }

    /// The reset of a commutated episode: a fresh node, an empty run, and no period yet.
    pub fn reset(&mut self, node: E)
        ensures
            final(self).held() == node,
            final(self).run() == Seq::<E::Item>::empty(),
            final(self).period() == i64::MIN,
    {
        self.node = node;
        self.buf = Vec::new();
        self.last_period = i64::MIN;
    }

    /// Whether the node's rate admits this tick: an unclocked node every one, a clocked one the first
    /// of each of its periods. Read once gating has let the node through, so a shut node consumes no
    /// period and the first tick it is let through is a boundary rather than the remainder of one it
    /// slept out.
    pub fn opens(&mut self, ts: i64) -> (r: bool)
        requires
            tells(E::facts_spec().clock),
        ensures
            r == admits(
                E::facts_spec().clock,
                E::Deps::all_facts(),
                old(self).period(),
                ts as int,
            ),
            final(self).period() == offered(
                E::facts_spec().clock,
                E::Deps::all_facts(),
                old(self).period(),
                ts as int,
            ),
            final(self).held() == old(self).held(),
            final(self).run() == old(self).run(),
    {
        let tf: Timeframe = match E::facts().clock {
            None => return true,
            Some(tf) => tf,
        };
        if !all_retained(<E::Deps as DepSet>::facts().as_slice()) {
            return true;
        }
        let ns: i64 = Horizon::ns(tf);
        proof {
            lemma_period(ts as int, ns as int);
        }
        let period: i64 = ts.checked_div_euclid(ns).unwrap();
        let last: i64 = self.last_period;
        self.last_period = period;
        last != period
    }
}

/// A period is no further from zero than the event.
proof fn lemma_period(ts: int, ns: int)
    requires
        ns > 0,
    ensures
        ts >= 0 ==> 0 <= period_of(ts, ns) <= ts,
        ts < 0 ==> ts <= period_of(ts, ns) < 0,
{
    assert(ts >= 0 ==> 0 <= ts / ns <= ts) by (nonlinear_arith)
        requires
            ns > 0,
    ;
    assert(ts < 0 ==> ts <= ts / ns < 0) by (nonlinear_arith)
        requires
            ns > 0,
    ;
}

/// What a step makes of a run-shaped node, and the run it puts out: what the node emits over what it
/// pulls, or, where it does not run, nothing and the node as it stood. The run stands in the buffer,
/// and the tick's period is consumed where the node was offered it.
pub open spec fn emitted<'t, E, F, I>(
    frame: &F,
    was: Emitter<E>,
    demanded: bool,
    ts: int,
    after: Emitter<E>,
    run: Seq<E::Item>,
) -> bool where
    E: Emit,
    for <'x>E: Cell<Out<'x> = &'x [<E as Series>::Item]>,
    E::Deps: Pull<'t, F, I>,
 {
    &&& if runs::<E, F, I>(frame, was, demanded, ts) {
        was.held().emits(<E::Deps as Pull<'t, F, I>>::pulled(frame), &after.held(), run)
    } else {
        run.len() == 0 && after.held() == was.held()
    }
    &&& after.run() == run
    &&& after.period() == if demanded && <E::Deps as Pull<'t, F, I>>::opened(frame) {
        offered(E::facts_spec().clock, E::Deps::all_facts(), was.period(), ts)
    } else {
        was.period()
    }
}

/// The step of an [`Emit`]: clear the engine's buffer, let the node fill it, push it as the frame's
/// out. The frame is keyed on the node itself, so a dep naming it resolves as any other. A dark one
/// needs no dark reading: not emitting *is* the empty run, which is equally the reading of an
/// undemanded one, and of one whose rate has not come round.
///
/// `ts` is the tick's event time, which is what a clock is read against: a node's rate must be a
/// statement about the market, and the count of ticks is a statement about the feed's batching.
pub fn step_emit<'t, E, F, I>(
    frame: F,
    e: &'t mut Emitter<E>,
    demanded: bool,
    ts: i64,
) -> (r: Cons<'t, E, F>) where
    E: Emit,
    for <'x>E: Cell<Out<'x> = &'x [<E as Series>::Item]>,
    E::Deps: Pull<'t, F, I>,

    requires
        orderly::<E::Deps>(),
        tells(E::facts_spec().clock),
        <E::Deps as Pull<'t, F, I>>::answers(&frame),
        runs::<E, F, I>(&frame, *old(e), demanded, ts as int) ==> old(e).held().can_emit(
            <E::Deps as Pull<'t, F, I>>::pulled(&frame),
        ),
    ensures
        r.tail == frame,
        emitted::<E, F, I>(&frame, *old(e), demanded, ts as int, *final(e), r.out@),
{
    e.clear();
    if demanded && <E::Deps as Pull<'t, F, I>>::open(&frame) {
        if e.opens(ts) {
            e.fill(<E::Deps as Pull<'t, F, I>>::pull(&frame));
        }
    }
    Cons { out: e.filled(), tail: frame }
}

/// Whether a run-shaped node runs on a tick: somebody reads it, its gates are open, and its rate has
/// come round.
pub open spec fn runs<'t, E, F, I>(frame: &F, e: Emitter<E>, demanded: bool, ts: int) -> bool where
    E: Emit,
    for <'x>E: Cell<Out<'x> = &'x [<E as Series>::Item]>,
    E::Deps: Pull<'t, F, I>,
 {
    &&& demanded
    &&& <E::Deps as Pull<'t, F, I>>::opened(frame)
    &&& admits(E::facts_spec().clock, E::Deps::all_facts(), e.period(), ts)
}

/// A clock whose rate the engine enforces publishes once per period: a second tick of the period it
/// last ran in is refused, and the first tick of any other is admitted.
pub proof fn a_clock_publishes_once_per_period(
    clock: Option<Timeframe>,
    facts: Seq<Facts>,
    last: int,
    ts: int,
    next: int,
)
    requires
        tells(clock),
        enforced(clock, facts),
    ensures
        admits(clock, facts, offered(clock, facts, last, ts), next) <==> period_of(
            next,
            clock->Some_0.0 * 1_000_000,
        ) != period_of(ts, clock->Some_0.0 * 1_000_000),
{
}

/// The first tick offered to a clocked node is admitted, whenever it comes.
pub proof fn the_first_tick_is_admitted(clock: Option<Timeframe>, facts: Seq<Facts>, ts: int)
    requires
        tells(clock),
        i64::MIN <= ts <= i64::MAX,
    ensures
        admits(clock, facts, i64::MIN as int, ts),
{
    if let Some(tf) = clock {
        let ns = tf.0 * 1_000_000;
        assert(ts / ns >= i64::MIN / 2) by (nonlinear_arith)
            requires
                ts >= i64::MIN,
                ns >= 2,
        ;
    }
}

/// A node that reads anything the engine does not keep is never withheld a tick, whatever it
/// declares.
pub proof fn a_node_reading_a_batch_is_not_withheld_a_tick(
    clock: Option<Timeframe>,
    facts: Seq<Facts>,
    last: int,
    ts: int,
    i: int,
)
    requires
        0 <= i < facts.len(),
        !facts[i].retained,
    ensures
        admits(clock, facts, last, ts),
{
    assert(!retains(facts)[i]);
}

/// A node that nothing demands, or whose gates are shut, publishes nothing, keeps its state, and has no
/// tick counted against its clock; one that its clock withholds a tick publishes nothing either.
pub proof fn what_does_not_run_publishes_nothing<'t, E, F, I>(
    frame: &F,
    was: Emitter<E>,
    demanded: bool,
    ts: int,
    after: Emitter<E>,
    run: Seq<E::Item>,
) where
    E: Emit,
    for <'x>E: Cell<Out<'x> = &'x [<E as Series>::Item]>,
    E::Deps: Pull<'t, F, I>,

    requires
        emitted::<E, F, I>(frame, was, demanded, ts, after, run),
    ensures
        !demanded || !<E::Deps as Pull<'t, F, I>>::opened(frame) ==> run.len() == 0 && after.held()
            == was.held() && after.period() == was.period(),
        !admits(E::facts_spec().clock, E::Deps::all_facts(), was.period(), ts) ==> run.len() == 0
            && after.held() == was.held(),
        demanded && <E::Deps as Pull<'t, F, I>>::opened(frame) && E::facts_spec().clock is None
            ==> was.held().emits(<E::Deps as Pull<'t, F, I>>::pulled(frame), &after.held(), run),
        after.run() == run,
{
}

} // verus!
