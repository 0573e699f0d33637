//! Wilder's averages and the RSI over them, wired to a bar series.
//!
//! Wilder semantics throughout: warmup is the mean over the first `n` samples, then
//! `(prev * (n - 1) + x) / n`; nothing until warm.

use core::marker::PhantomData;
use vstd::prelude::*;
use vstd::utf8::encode_utf8;

use crate::algebra::{absent, constant, gt, lt, max, min, select, Ex, Slots, Vars};
use crate::algebra::all_lowerable;
use crate::bar::Bar;
use crate::cell::{Cell, Facts, Folding, No};
use crate::emit::Emit;
use crate::env::{Env, Source, Witness};
use crate::env::lemma_sourced;
use crate::expr;
use crate::expr::{Absent, Cmp, Const, Declines, Expr, Max, Min, Select, Var};
use crate::flat::{lemma_one_dim, one_dim};
use crate::flat::{Flat, Number, Unflat};
use crate::flat::{blank, lemma_slice_of, slice_of};
use crate::fold::{Carried, Fold, Folds};
use crate::glance::Glance;
use crate::horizon::{Elems, Unbounded};
use crate::kernel::{Reads, Scan, Scans};
use crate::kernel::{took, Reading};
use crate::level::{Pointwise, Scanned};
use crate::plot::{hang_together, named};
use crate::plot::Plot;
use crate::plot::{default_plots, plain_plot};
use crate::rows::{Hist, Lagged, Present, Rows};
use crate::scalar::Scalar;
use crate::series::{spell_one, spell_two, Buffering, Series};
use crate::series::tagged;
use crate::shape::Fidelity;
use crate::stamped::Stamped;
use crate::sweep::ObservedRun;
use crate::tag::TAG_CAP;
use crate::text;
use crate::want::Want;

verus! {

/// What Wilder's mean becomes.
pub type Mean<V, A, B, X> = Select<
    Cmp<B, Const<V>>,
    Select<Cmp<B, Const<V>>, expr::Add<A, X>, expr::Div<expr::Add<A, X>, Const<V>>>,
    expr::Div<expr::Add<expr::Mul<A, Const<V>>, X>, Const<V>>,
>;

/// How many samples have gone into it.
pub type Warmed<V, B> = Min<expr::Add<B, Const<V>>, Const<V>>;

pub open spec fn mean_of<V: Scalar, A, B, X>(value: A, warmed: B, x: X, n: V) -> Mean<V, A, B, X> {
    Select(
        Cmp(warmed, Const(n)),
        Select(
            Cmp(warmed, Const(n.minus(V::whole(1)))),
            expr::Add(value, x),
            expr::Div(expr::Add(value, x), Const(n)),
        ),
        expr::Div(expr::Add(expr::Mul(value, Const(n.minus(V::whole(1)))), x), Const(n)),
    )
}

pub open spec fn warmed_of<V: Scalar, B>(warmed: B, n: V) -> Warmed<V, B> {
    Min(expr::Add(warmed, Const(V::whole(1))), Const(n))
}

/// Wilder's running mean, as the two expressions a folding body steps its state by: what the mean
/// becomes, and how many samples have gone into it. Warmup is a plain mean over the first `n`, which
/// is the whole reason the count is carried, and `warmed < n` is equally how a reader of the state
/// knows it is still cold.
pub fn wilder<V: Scalar, A: Copy, B: Declines + Copy, X: Copy>(
    value: Ex<A>,
    warmed: Ex<B>,
    x: Ex<X>,
    n: V,
) -> (r: (Ex<Mean<V, A, B, X>>, Ex<Warmed<V, B>>))
    requires
        !B::may_decline(),
    ensures
        r.0 == Ex(mean_of(value.0, warmed.0, x.0, n)),
        r.1 == Ex(warmed_of(warmed.0, n)),
{
    let less: V = n.sub(V::of(1));
    let cold: Ex<expr::Add<A, X>> = value + x;
    (
        select(
            lt(warmed, constant(n)),
            select(lt(warmed, constant(less)), cold, cold / constant(n)),
            (value * constant(less) + x) / constant(n),
        ),
        min(warmed + constant(V::of(1)), constant(n)),
    )
}

/// What a Wilder mean of `n` samples is, one sample further.
pub open spec fn wilder_step<V: Scalar>(mean: V, warmed: V, x: V, n: V) -> V {
    let less = n.minus(V::whole(1));
    if !warmed.below(n) {
        mean.times(less).plus(x).over(n)
    } else if warmed.below(less) {
        mean.plus(x)
    } else {
        mean.plus(x).over(n)
    }
}

/// Wilder's recurrence: the running sum until the last of the first `n` samples, their mean on it,
/// and `(prev * (n - 1) + x) / n` from there; the count stops at `n`.
pub proof fn wilder_is_a_mean_and_then_a_decay<V: Scalar, A: Expr<V>, B: Expr<V>, X: Expr<V>>(
    value: A,
    warmed: B,
    x: X,
    n: V,
    env: Seq<V>,
)
    ensures
        mean_of(value, warmed, x, n).value(env) == wilder_step(
            value.value(env),
            warmed.value(env),
            x.value(env),
            n,
        ),
        warmed_of(warmed, n).value(env) == warmed.value(env).plus(V::whole(1)).lesser(n),
{
    V::zero_equals_zero();
    V::one_is_not_zero();
}

/// The RSI of a pair of averages. A loss of zero is every gain and no loss, which is the top of the
/// scale rather than a division.
pub open spec fn index_of<V: Scalar>(avg_gain: V, avg_loss: V) -> V {
    if avg_loss.equals(V::whole(0)) {
        V::whole(100)
    } else {
        V::whole(100).minus(V::whole(100).over(V::whole(1).plus(avg_gain.over(avg_loss))))
    }
}

pub fn rsi<V: Scalar>(avg_gain: V, avg_loss: V) -> (r: V)
    ensures
        r == index_of(avg_gain, avg_loss),
{
    if avg_loss.same(V::of(0)) {
        V::of(100)
    } else {
        V::of(100).sub(V::of(100).div(V::of(1).add(avg_gain.div(avg_loss))))
    }
}

/// The two Wilder lengths. Everything else about an RSI chain is wiring, the series it runs on being
/// a parameter, but these are numbers an app that reads them from a config file has no constant to
/// give, so they arrive through a type it implements once.
pub trait RsiSpec: 'static {
    /// How the chain spells this in its own name.
    open spec fn label() -> Seq<char> {
        arbitrary()
    }

    open spec fn base() -> nat {
        arbitrary()
    }

    open spec fn smoothing() -> nat {
        arbitrary()
    }

    fn name() -> (r: String)
        ensures
            r@ == Self::label(),
    ;

    fn base_len() -> (r: usize)
        ensures
            r == Self::base(),
            r <= i64::MAX,
    ;

    fn smooth_len() -> (r: usize)
        ensures
            r == Self::smoothing(),
            r <= i64::MAX,
    ;
}

/// One element of a rate-preserving stage: a number, or the absence of one.
pub type Sample<V> = Option<Number<V>>;

/// Close-to-close change on `B`: the one series both Wilder averages are taken of.
///
/// Rate-*preserving*, and the first bar declines: a change needs two closes, and the bar that has
/// only one is an element that carried nothing rather than an element that is not there. The lag is
/// a reading off the retention rather than a close the node remembers, which is what leaves nothing
/// for a state to be carried in.
pub struct RsiDelta<B, V>(pub PhantomData<(B, V)>);

impl<B: Series<Item = Bar<V>> + 'static, V: Scalar + 'static> Cell for RsiDelta<B, V> where
    for <'x>B: Cell<Out<'x> = &'x [<B as Series>::Item]>,
 {
    type Out<'t> = &'t [Sample<V>];

    type Gates = No;

    open spec fn label() -> Seq<char> {
        tagged("RsiDelta"@, B::label(), None)
    }

    open spec fn nameable() -> bool {
        B::nameable() && encode_utf8(Self::label()).len() <= TAG_CAP
    }

    open spec fn facts_spec() -> Facts {
        Facts::plain()
    }

    open spec fn permits<'t>(out: &'t [Sample<V>]) -> bool {
        true
    }

    fn name() -> (r: String) {
        spell_one("RsiDelta", B::name().as_str())
    }

    fn facts() -> (r: Facts) {
        Facts::bare()
    }

    fn opens<'t>(out: &'t [Sample<V>]) -> (r: bool) {
        true
    }
}

impl<B: Series<Item = Bar<V>> + 'static, V: Scalar + 'static> Series for RsiDelta<B, V> where
    for <'x>B: Cell<Out<'x> = &'x [<B as Series>::Item]>,
 {
    type Item = Sample<V>;

    type Batch = Rows<Sample<V>>;
}

/// What a change is read off: the bar itself, and the close of the one before it. The close is slot
/// three of a bar, and saying so is what puts this partial in the lagged element's own column rather
/// than in a column of its own.
pub open spec fn change_reading<'t, V: Scalar>(bars: Hist<'t, Bar<V>>, i: int) -> Option<Reading<V>> {
    if bars.place(i, 1) < 0 {
        None
    } else {
        let b = bars.declared()[bars.place(i, 0)];
        let p = bars.declared()[bars.place(i, 1)];
        let lag = (bars.fresh - 1 - i) as usize;
        Some(
            Reading {
                ts: b.ts_close.0,
                slots: b.slots() + seq![p.close],
                sources: seq![
                    Source::Dep { dep: 0, lag, slot: 0 },
                    Source::Dep { dep: 0, lag, slot: 1 },
                    Source::Dep { dep: 0, lag, slot: 2 },
                    Source::Dep { dep: 0, lag, slot: 3 },
                    Source::Dep { dep: 0, lag, slot: 4 },
                    Source::Dep { dep: 0, lag: (lag + 1) as usize, slot: 3 },
                ],
            },
        )
    }
}

impl<'t, B, V: Scalar> Reads<V, (Hist<'t, Bar<V>>, ())> for RsiDelta<B, V> {
    open spec fn lead(deps: (Hist<'t, Bar<V>>, ())) -> nat {
        deps.0.fresh as nat
    }

    open spec fn readable(deps: (Hist<'t, Bar<V>>, ())) -> bool {
        deps.0.cuttable()
    }

    open spec fn reading(deps: (Hist<'t, Bar<V>>, ()), i: int) -> Option<Reading<V>> {
        change_reading(deps.0, i)
    }

    fn lead_fires(deps: &(Hist<'t, Bar<V>>, ())) -> (r: usize) {
        deps.0.fresh
    }

    fn read<W: Witness>(deps: &(Hist<'t, Bar<V>>, ()), i: usize, env: &mut Env<V, W>) -> (r: Option<
        i64,
    >) {
        let ghost saw = env.sees();
        let bars: Hist<'t, Bar<V>> = deps.0;
        let size: usize = bars.all.len();
        // the first bar of a run has nothing behind it, and an absence is declined rather than put:
        // an absence in the env is an operand, where a decline is an out.
        match (bars.lagged_at(i, 0), bars.lagged_at(i, 1)) {
            (Some((b, lag)), Some((p, p_lag))) => {
                env.dep(0).lag(lag).put(b);
                let ghost mid = env.sees();
                env.dep(0).lag(p_lag).slot(3).put(&Number(p.close));
                proof {
                    let x = change_reading(bars, i as int)->Some_0;
                    assert(env.values() =~= x.slots);
                    if let Some(s) = saw {
                        let m = mid->Some_0;
                        lemma_sourced(s, 0, 5, Some((0usize, lag, 0usize)));
                        lemma_sourced(m, 5, 1, Some((0usize, p_lag, 3usize)));
                        let now = env.sees()->Some_0;
                        assert(now.take(6) =~= x.sources);
                    }
                }
                Some(b.ts_ns())
            },
            _ => None,
        }
    }
}

impl<'t, B, V: Scalar> Scans<V, (Hist<'t, Bar<V>>, ())> for RsiDelta<B, V> {
    type Item = Sample<V>;

    type Body = Ex<expr::Sub<Var<3>, Var<5>>>;

    open spec fn body_spec(&self) -> Self::Body {
        Ex(expr::Sub(Var, Var))
    }

    fn body(&self) -> (r: Self::Body) {
        let v: Vars = Vars;
        v.get::<3>() - v.get::<5>()
    }
}

/// One change: the bar's close less the close before it, where there is one and both are numbers.
pub open spec fn change<'t, V: Scalar>(bars: Hist<'t, Bar<V>>, i: int) -> Sample<V> {
    if bars.place(i, 1) < 0 {
        None
    } else {
        let d = bars.declared()[bars.place(i, 0)].close.minus(
            bars.declared()[bars.place(i, 1)].close,
        );
        if d.absent() {
            None
        } else {
            Some(Number(d))
        }
    }
}

impl<B, V: Scalar> RsiDelta<B, V> {
    proof fn lemma_sound<'t>(&self, deps: (Hist<'t, Bar<V>>, ()))
        requires
            deps.0.cuttable(),
        ensures
            Scan::sound::<V, (Hist<'t, Bar<V>>, ()), Self>(*self, deps),
    {
        reveal_with_fuel(crate::ast::lowerable, 3);
        let body = <Self as Scans<V, (Hist<'t, Bar<V>>, ())>>::body_spec(self);
        assert(all_lowerable::<V>(body.slot_trees()));
        assert forall|i: int| 0 <= i < deps.0.fresh implies (#[trigger] change_reading::<V>(
            deps.0,
            i,
        ) matches Some(x) ==> x.slots.len() == 6 && x.sources.len() == 6) by {}
    }
}

/// A bar series that keeps its rows, since the lag is read off the retention's own history; one that
/// folded them would have none to look one back through.
impl<B: Series<Item = Bar<V>, Batch = Rows<Bar<V>>> + 'static, V: Scalar + 'static> Emit for RsiDelta<
    B,
    V,
> where for <'x>B: Cell<Out<'x> = &'x [<B as Series>::Item]> {
    /// Two elements, because the lag reaches one behind the element being computed, and it is the
    /// engine's retention rather than the node's, so nothing here survives a tick.
    type Deps = (Buffering<B, Elems<2>>, ());

    open spec fn can_emit<'t>(&self, deps: (Hist<'t, Bar<V>>, ())) -> bool {
        deps.0.cuttable()
    }

    open spec fn emits<'t>(&self, deps: (Hist<'t, Bar<V>>, ()), after: &Self, run: Seq<Sample<V>>) -> bool {
        &&& run == Seq::new(deps.0.fresh as nat, |i: int| change(deps.0, i))
        &&& *after == *self
    }

    fn emit<'t>(&mut self, deps: (Hist<'t, Bar<V>>, ()), out: &mut Vec<Sample<V>>) {
        proof {
            self.lemma_sound(deps);
        }
        Scan::emit::<V, (Hist<'t, Bar<V>>, ()), Self>(self, &deps, out);
        proof {
            V::none_is_absent();
            let run = Seq::new(deps.0.fresh as nat, |i: int| change(deps.0, i));
            assert forall|i: int| 0 <= i < run.len() implies out@[i] == run[i] by {
                if let Some(x) = change_reading(deps.0, i) {
                    let body = <Self as Scans<V, (Hist<'t, Bar<V>>, ())>>::body_spec(self);
                    let got = body.slot_values(x.slots);
                    assert(got =~= seq![x.slots[3].minus(x.slots[5])]);
                    assert(got[0] == x.slots[3].minus(x.slots[5]));
                } else {
                    assert(crate::flat::blank::<V>(1)[0] == V::none());
                }
            }
            assert(out@ =~= run);
        }
    }
}

impl<B: Series<Item = Bar<V>, Batch = Rows<Bar<V>>> + 'static, V: Scalar + 'static> ObservedRun<
    V,
> for RsiDelta<B, V> where for <'x>B: Cell<Out<'x> = &'x [<B as Series>::Item]> {
    type Pre = Scanned<V, Self>;

    open spec fn fidelity_spec() -> Fidelity {
        Scan::claim()
    }

    open spec fn plots_spec() -> Seq<Plot> {
        seq![plain_plot(Seq::empty())]
    }

    open spec fn captures<'t>(
        &self,
        want: Want,
        deps: (Hist<'t, Bar<V>>, ()),
        pre: Scanned<V, Self>,
    ) -> bool {
        crate::kernel::capture_view(pre.0) == Scan::capture::<V, (Hist<'t, Bar<V>>, ()), Self>(
            *self,
            want,
            deps,
        )
    }

    fn fidelity() -> (r: Fidelity) {
        Scan::fidelity()
    }

    fn plots() -> (r: &'static [Plot])
        ensures
            forall|dims: Seq<usize>| #[trigger] hang_together(r@, dims),
    {
        default_plots()
    }

    fn pre<'t>(&self, want: Want, deps: &(Hist<'t, Bar<V>>, ())) -> (r: Scanned<V, Self>) {
        proof {
            self.lemma_sound(*deps);
        }
        Scanned(Scan::pre::<V, (Hist<'t, Bar<V>>, ()), Self>(self, want, deps), PhantomData)
    }
}

/// What an average is read off: the change, where there was one. The first bar has none, and an
/// average is not advanced by an absence, which is exactly what declining leaves the state doing.
pub open spec fn sample_reading<V: Scalar>(xs: Seq<Sample<V>>, i: int) -> Option<Reading<V>> {
    match xs[i] {
        Some(d) => Some(
            Reading {
                ts: 0,
                slots: seq![d.0],
                sources: seq![
                    Source::Dep { dep: 0, lag: (xs.len() - 1 - i) as usize, slot: 0 },
                ],
            },
        ),
        None => None,
    }
}

fn sample<'t, V: Scalar, W: Witness>(xs: &'t [Sample<V>], i: usize, env: &mut Env<V, W>) -> (r: Option<
    i64,
>)
    requires
        i < xs@.len(),
        old(env).values() == Seq::<V>::empty(),
    ensures
        took(sample_reading(xs@, i as int), r, final(env).values(), final(env).sees()),
{
    let ghost saw = env.sees();
    let size: usize = xs.len();
    match xs.at(i) {
        None => None,
        Some((d, lag)) => match d.present() {
            None => None,
            Some(d) => {
                env.dep(0).lag(lag).put(&d);
                proof {
                    let x = sample_reading(xs@, i as int)->Some_0;
                    assert(env.values() =~= x.slots);
                    if let Some(s) = saw {
                        lemma_sourced(s, 0, 1, Some((0usize, lag, 0usize)));
                        assert(env.sees()->Some_0.take(1) =~= x.sources);
                    }
                }
                Some(0)
            },
        },
    }
}

/// The up moves of a change, or its down moves as a positive magnitude.
pub type Half<V> = Max<expr::Mul<Const<V>, Var<0>>, Const<V>>;

/// RSI's numerator: the Wilder average of the up moves. Warm after as many changes as the spec's base says.
pub struct AvgGain<B, S, V> {
    pub avg: Carried<V>,
    pub wiring: PhantomData<(B, S)>,
}

impl<B, S, V: Scalar> AvgGain<B, S, V> {
    pub fn new() -> (r: Self)
        ensures
            r.avg@ == crate::kernel::zeros::<V>(2),
    {
        AvgGain { avg: Carried::new(2), wiring: PhantomData }
    }
}

impl<B: Series<Item = Bar<V>> + 'static, S: RsiSpec, V: Scalar + 'static> Cell for AvgGain<B, S, V> where
    for <'x>B: Cell<Out<'x> = &'x [<B as Series>::Item]>,
 {
    type Out<'t> = &'t [Sample<V>];

    type Gates = No;

    open spec fn label() -> Seq<char> {
        tagged("AvgGain"@, B::label(), Some(S::label()))
    }

    open spec fn nameable() -> bool {
        B::nameable() && encode_utf8(Self::label()).len() <= TAG_CAP
    }

    open spec fn facts_spec() -> Facts {
        Facts::plain()
    }

    open spec fn permits<'t>(out: &'t [Sample<V>]) -> bool {
        true
    }

    fn name() -> (r: String) {
        spell_two("AvgGain", B::name().as_str(), S::name().as_str())
    }

    fn facts() -> (r: Facts) {
        Facts::bare()
    }

    fn opens<'t>(out: &'t [Sample<V>]) -> (r: bool) {
        true
    }
}

impl<B: Series<Item = Bar<V>> + 'static, S: RsiSpec, V: Scalar + 'static> Series for AvgGain<B, S, V> where
    for <'x>B: Cell<Out<'x> = &'x [<B as Series>::Item]>,
 {
    type Item = Sample<V>;

    type Batch = Rows<Sample<V>>;
}

impl<'t, B, S: RsiSpec, V: Scalar> Reads<V, (&'t [Sample<V>], ())> for AvgGain<B, S, V> {
    open spec fn lead(deps: (&'t [Sample<V>], ())) -> nat {
        deps.0@.len()
    }

    open spec fn readable(deps: (&'t [Sample<V>], ())) -> bool {
        true
    }

    open spec fn reading(deps: (&'t [Sample<V>], ()), i: int) -> Option<Reading<V>> {
        sample_reading(deps.0@, i)
    }

    fn lead_fires(deps: &(&'t [Sample<V>], ())) -> (r: usize) {
        deps.0.len()
    }

    fn read<W: Witness>(deps: &(&'t [Sample<V>], ()), i: usize, env: &mut Env<V, W>) -> (r: Option<
        i64,
    >) {
        sample(deps.0, i, env)
    }
}

impl<'t, B, S: RsiSpec, V: Scalar> Folds<V, (&'t [Sample<V>], ())> for AvgGain<B, S, V> {
    type Item = Sample<V>;

    type Step = (Ex<Mean<V, Var<1>, Var<2>, Half<V>>>, Ex<Warmed<V, Var<2>>>);

    type Value = Ex<Select<Cmp<Var<2>, Const<V>>, Absent, Var<1>>>;

    open spec fn dep_width() -> nat {
        1
    }

    open spec fn base() -> nat {
        1
    }

    open spec fn step_spec(&self) -> Self::Step {
        let n = V::whole(S::base() as int);
        let half = Max(expr::Mul(Const(V::whole(1)), Var), Const(V::whole(0)));
        (Ex(mean_of(Var, Var, half, n)), Ex(warmed_of(Var, n)))
    }

    open spec fn value_spec(&self) -> Self::Value {
        Ex(Select(Cmp(Var, Const(V::whole(S::base() as int))), Absent, Var))
    }

    open spec fn carried_spec(&self) -> Seq<V> {
        self.avg@
    }

    fn dep_slots() -> (r: usize) {
        1
    }

    fn step(&self) -> (r: Self::Step) {
        let v: Vars = Vars;
        let half: Ex<Half<V>> = max(constant(V::of(1)) * v.get::<0>(), constant(V::of(0)));
        wilder(v.get::<1>(), v.get::<2>(), half, V::of(S::base_len() as i64))
    }

    fn value(&self) -> (r: Self::Value) {
        let v: Vars = Vars;
        select(lt(v.get::<2>(), constant(V::of(S::base_len() as i64))), absent(), v.get::<1>())
    }

    fn carried(&self) -> (r: &Carried<V>) {
        &self.avg
    }

    fn carried_mut(&mut self) -> (r: &mut Carried<V>) {
        &mut self.avg
    }
}

impl<B, S: RsiSpec, V: Scalar> AvgGain<B, S, V> {
    proof fn lemma_sound<'t>(&self, deps: (&'t [Sample<V>], ()))
        requires
            self.avg@.len() == 2,
        ensures
            Fold::sound::<V, (&'t [Sample<V>], ()), Self>(*self, deps),
    {
        reveal_with_fuel(crate::ast::lowerable, 8);
        let step = <Self as Folds<V, (&'t [Sample<V>], ())>>::step_spec(self);
        let value = <Self as Folds<V, (&'t [Sample<V>], ())>>::value_spec(self);
        assert(all_lowerable::<V>(step.slot_trees()));
        assert(all_lowerable::<V>(value.slot_trees()));
    }
}

impl<B: Series<Item = Bar<V>, Batch = Rows<Bar<V>>> + 'static, S: RsiSpec, V: Scalar + 'static> Emit for AvgGain<
    B,
    S,
    V,
> where for <'x>B: Cell<Out<'x> = &'x [<B as Series>::Item]> {
    /// A Wilder recurrence reaches to the start of the run.
    type Deps = (Folding<RsiDelta<B, V>, Unbounded>, ());

    open spec fn can_emit<'t>(&self, deps: (&'t [Sample<V>], ())) -> bool {
        self.avg@.len() == 2
    }

    open spec fn emits<'t>(&self, deps: (&'t [Sample<V>], ()), after: &Self, run: Seq<Sample<V>>) -> bool {
        let walk = Fold::walk::<V, (&'t [Sample<V>], ()), Self>(*self, deps, deps.0@.len());
        &&& run == walk.run
        &&& after.avg@ == walk.state
    }

    fn emit<'t>(&mut self, deps: (&'t [Sample<V>], ()), out: &mut Vec<Sample<V>>) {
        proof {
            self.lemma_sound(deps);
        }
        let ghost was = *self;
        Fold::emit::<V, (&'t [Sample<V>], ()), Self>(self, &deps, out);
        assert(out@ =~= Fold::walk::<V, (&'t [Sample<V>], ()), Self>(was, deps, deps.0@.len()).run);
    }
}

impl<B: Series<Item = Bar<V>, Batch = Rows<Bar<V>>> + 'static, S: RsiSpec, V: Scalar + 'static> ObservedRun<
    V,
> for AvgGain<B, S, V> where for <'x>B: Cell<Out<'x> = &'x [<B as Series>::Item]> {
    type Pre = Pointwise<V>;

    open spec fn fidelity_spec() -> Fidelity {
        Fold::claim()
    }

    open spec fn plots_spec() -> Seq<Plot> {
        seq![plain_plot(Seq::empty())]
    }

    open spec fn captures<'t>(
        &self,
        want: Want,
        deps: (&'t [Sample<V>], ()),
        pre: Pointwise<V>,
    ) -> bool {
        crate::kernel::capture_view(pre.0) == Fold::capture::<V, (&'t [Sample<V>], ()), Self>(
            *self,
            want,
            deps,
        )
    }

    fn fidelity() -> (r: Fidelity) {
        Fold::fidelity()
    }

    fn plots() -> (r: &'static [Plot])
        ensures
            forall|dims: Seq<usize>| #[trigger] hang_together(r@, dims),
    {
        default_plots()
    }

    fn pre<'t>(&self, want: Want, deps: &(&'t [Sample<V>], ())) -> (r: Pointwise<V>) {
        proof {
            self.lemma_sound(*deps);
        }
        Pointwise(Fold::pre::<V, (&'t [Sample<V>], ()), Self>(self, want, deps))
    }
}

/// RSI's denominator: the Wilder average of the down moves, as a positive magnitude. Warm after as
/// many changes as the spec's base says.
pub struct AvgLoss<B, S, V> {
    pub avg: Carried<V>,
    pub wiring: PhantomData<(B, S)>,
}

impl<B, S, V: Scalar> AvgLoss<B, S, V> {
    pub fn new() -> (r: Self)
        ensures
            r.avg@ == crate::kernel::zeros::<V>(2),
    {
        AvgLoss { avg: Carried::new(2), wiring: PhantomData }
    }
}

impl<B: Series<Item = Bar<V>> + 'static, S: RsiSpec, V: Scalar + 'static> Cell for AvgLoss<B, S, V> where
    for <'x>B: Cell<Out<'x> = &'x [<B as Series>::Item]>,
 {
    type Out<'t> = &'t [Sample<V>];

    type Gates = No;

    open spec fn label() -> Seq<char> {
        tagged("AvgLoss"@, B::label(), Some(S::label()))
    }

    open spec fn nameable() -> bool {
        B::nameable() && encode_utf8(Self::label()).len() <= TAG_CAP
    }

    open spec fn facts_spec() -> Facts {
        Facts::plain()
    }

    open spec fn permits<'t>(out: &'t [Sample<V>]) -> bool {
        true
    }

    fn name() -> (r: String) {
        spell_two("AvgLoss", B::name().as_str(), S::name().as_str())
    }

    fn facts() -> (r: Facts) {
        Facts::bare()
    }

    fn opens<'t>(out: &'t [Sample<V>]) -> (r: bool) {
        true
    }
}

impl<B: Series<Item = Bar<V>> + 'static, S: RsiSpec, V: Scalar + 'static> Series for AvgLoss<B, S, V> where
    for <'x>B: Cell<Out<'x> = &'x [<B as Series>::Item]>,
 {
    type Item = Sample<V>;

    type Batch = Rows<Sample<V>>;
}

impl<'t, B, S: RsiSpec, V: Scalar> Reads<V, (&'t [Sample<V>], ())> for AvgLoss<B, S, V> {
    open spec fn lead(deps: (&'t [Sample<V>], ())) -> nat {
        deps.0@.len()
    }

    open spec fn readable(deps: (&'t [Sample<V>], ())) -> bool {
        true
    }

    open spec fn reading(deps: (&'t [Sample<V>], ()), i: int) -> Option<Reading<V>> {
        sample_reading(deps.0@, i)
    }

    fn lead_fires(deps: &(&'t [Sample<V>], ())) -> (r: usize) {
        deps.0.len()
    }

    fn read<W: Witness>(deps: &(&'t [Sample<V>], ()), i: usize, env: &mut Env<V, W>) -> (r: Option<
        i64,
    >) {
        sample(deps.0, i, env)
    }
}

impl<'t, B, S: RsiSpec, V: Scalar> Folds<V, (&'t [Sample<V>], ())> for AvgLoss<B, S, V> {
    type Item = Sample<V>;

    type Step = (Ex<Mean<V, Var<1>, Var<2>, Half<V>>>, Ex<Warmed<V, Var<2>>>);

    type Value = Ex<Select<Cmp<Var<2>, Const<V>>, Absent, Var<1>>>;

    open spec fn dep_width() -> nat {
        1
    }

    open spec fn base() -> nat {
        1
    }

    open spec fn step_spec(&self) -> Self::Step {
        let n = V::whole(S::base() as int);
        let half = Max(expr::Mul(Const(V::whole(-1)), Var), Const(V::whole(0)));
        (Ex(mean_of(Var, Var, half, n)), Ex(warmed_of(Var, n)))
    }

    open spec fn value_spec(&self) -> Self::Value {
        Ex(Select(Cmp(Var, Const(V::whole(S::base() as int))), Absent, Var))
    }

    open spec fn carried_spec(&self) -> Seq<V> {
        self.avg@
    }

    fn dep_slots() -> (r: usize) {
        1
    }

    fn step(&self) -> (r: Self::Step) {
        let v: Vars = Vars;
        let half: Ex<Half<V>> = max(constant(V::of(-1)) * v.get::<0>(), constant(V::of(0)));
        wilder(v.get::<1>(), v.get::<2>(), half, V::of(S::base_len() as i64))
    }

    fn value(&self) -> (r: Self::Value) {
        let v: Vars = Vars;
        select(lt(v.get::<2>(), constant(V::of(S::base_len() as i64))), absent(), v.get::<1>())
    }

    fn carried(&self) -> (r: &Carried<V>) {
        &self.avg
    }

    fn carried_mut(&mut self) -> (r: &mut Carried<V>) {
        &mut self.avg
    }
}

impl<B, S: RsiSpec, V: Scalar> AvgLoss<B, S, V> {
    proof fn lemma_sound<'t>(&self, deps: (&'t [Sample<V>], ()))
        requires
            self.avg@.len() == 2,
        ensures
            Fold::sound::<V, (&'t [Sample<V>], ()), Self>(*self, deps),
    {
        reveal_with_fuel(crate::ast::lowerable, 8);
        let step = <Self as Folds<V, (&'t [Sample<V>], ())>>::step_spec(self);
        let value = <Self as Folds<V, (&'t [Sample<V>], ())>>::value_spec(self);
        assert(all_lowerable::<V>(step.slot_trees()));
        assert(all_lowerable::<V>(value.slot_trees()));
    }
}

impl<B: Series<Item = Bar<V>, Batch = Rows<Bar<V>>> + 'static, S: RsiSpec, V: Scalar + 'static> Emit for AvgLoss<
    B,
    S,
    V,
> where for <'x>B: Cell<Out<'x> = &'x [<B as Series>::Item]> {
    /// A Wilder recurrence reaches to the start of the run.
    type Deps = (Folding<RsiDelta<B, V>, Unbounded>, ());

    open spec fn can_emit<'t>(&self, deps: (&'t [Sample<V>], ())) -> bool {
        self.avg@.len() == 2
    }

    open spec fn emits<'t>(&self, deps: (&'t [Sample<V>], ()), after: &Self, run: Seq<Sample<V>>) -> bool {
        let walk = Fold::walk::<V, (&'t [Sample<V>], ()), Self>(*self, deps, deps.0@.len());
        &&& run == walk.run
        &&& after.avg@ == walk.state
    }

    fn emit<'t>(&mut self, deps: (&'t [Sample<V>], ()), out: &mut Vec<Sample<V>>) {
        proof {
            self.lemma_sound(deps);
        }
        let ghost was = *self;
        Fold::emit::<V, (&'t [Sample<V>], ()), Self>(self, &deps, out);
        assert(out@ =~= Fold::walk::<V, (&'t [Sample<V>], ()), Self>(was, deps, deps.0@.len()).run);
    }
}

impl<B: Series<Item = Bar<V>, Batch = Rows<Bar<V>>> + 'static, S: RsiSpec, V: Scalar + 'static> ObservedRun<
    V,
> for AvgLoss<B, S, V> where for <'x>B: Cell<Out<'x> = &'x [<B as Series>::Item]> {
    type Pre = Pointwise<V>;

    open spec fn fidelity_spec() -> Fidelity {
        Fold::claim()
    }

    open spec fn plots_spec() -> Seq<Plot> {
        seq![plain_plot(Seq::empty())]
    }

    open spec fn captures<'t>(
        &self,
        want: Want,
        deps: (&'t [Sample<V>], ()),
        pre: Pointwise<V>,
    ) -> bool {
        crate::kernel::capture_view(pre.0) == Fold::capture::<V, (&'t [Sample<V>], ()), Self>(
            *self,
            want,
            deps,
        )
    }

    fn fidelity() -> (r: Fidelity) {
        Fold::fidelity()
    }

    fn plots() -> (r: &'static [Plot])
        ensures
            forall|dims: Seq<usize>| #[trigger] hang_together(r@, dims),
    {
        default_plots()
    }

    fn pre<'t>(&self, want: Want, deps: &(&'t [Sample<V>], ())) -> (r: Pointwise<V>) {
        proof {
            self.lemma_sound(*deps);
        }
        Pointwise(Fold::pre::<V, (&'t [Sample<V>], ()), Self>(self, want, deps))
    }
}

/// Two readings on one element, and one presence over the pair: the RSI proper is a number from the
/// bar the averages warm on, where the smoothing over it needs some of those, so an element is
/// half-warm for a stretch, and publishes nothing until it is whole.
#[derive(Debug)]
pub struct RsiValues<V> {
    pub actual: V,
    pub smooth: V,
}

impl<V: Copy> Copy for RsiValues<V> {

}

impl<V: Copy> Clone for RsiValues<V> {
    fn clone(&self) -> (r: Self)
        ensures
            r == *self,
    {
        *self
    }
}

impl<V: Scalar> RsiValues<V> {
    /// Whether both readings are numbers.
    pub open spec fn whole(&self) -> bool {
        !self.actual.absent() && !self.smooth.absent()
    }
}

impl<V: Scalar> Flat<V> for RsiValues<V> {
    open spec fn len_spec() -> nat {
        2
    }

    open spec fn dims_spec() -> Seq<usize> {
        seq![2usize]
    }

    open spec fn absentable() -> bool {
        true
    }

    open spec fn sound(&self) -> bool {
        true
    }

    open spec fn slots(&self) -> Seq<V> {
        if self.whole() {
            seq![self.actual, self.smooth]
        } else {
            blank(2)
        }
    }

    open spec fn fired(&self) -> bool {
        self.whole()
    }

    open spec fn count(&self) -> nat {
        if self.whole() {
            1
        } else {
            0
        }
    }

    proof fn fills(&self) {
        V::none_is_absent();
    }

    proof fn shaped() {
        lemma_one_dim(2usize);
    }

    fn dims() -> (r: Vec<usize>) {
        one_dim(2usize)
    }

    fn len() -> (r: usize) {
        2
    }

    fn flat(&self, out: &mut [V]) -> (fired: bool) {
        // both slots are written either way: the one that is warm says nothing until the pair does.
        let whole: bool = !self.actual.is_nan() && !self.smooth.is_nan();
        if whole {
            out[0] = self.actual;
            out[1] = self.smooth;
        } else {
            out[0] = V::nan();
            out[1] = V::nan();
        }
        assert(out@ =~= self.slots());
        whole
    }

    fn fires(&self) -> (r: usize) {
        if !self.actual.is_nan() && !self.smooth.is_nan() {
            1
        } else {
            0
        }
    }
}

impl<V: Scalar> Unflat<V> for RsiValues<V> {
    open spec fn item(ts_ns: i64, slots: Seq<V>) -> Self {
        RsiValues { actual: slots[0], smooth: slots[1] }
    }

    fn unflat(ts_ns: i64, slots: &[V]) -> (r: Self) {
        RsiValues { actual: slots[0], smooth: slots[1] }
    }
}

/// Any slot absent, and the element is absent.
impl<V: Scalar> Present for RsiValues<V> {
    type Val = Self;

    open spec fn value(self) -> Option<Self> {
        if self.whole() {
            Some(self)
        } else {
            None
        }
    }

    fn present(self) -> (r: Option<Self>) {
        if !self.actual.is_nan() && !self.smooth.is_nan() {
            Some(self)
        } else {
            None
        }
    }
}

impl<V: Scalar> Glance for RsiValues<V> {
    open spec fn readable(&self) -> bool {
        true
    }

    open spec fn headline(&self) -> Seq<char> {
        if self.actual.absent() {
            "None"@
        } else {
            self.actual.spelled_to(1)
        }
    }

    fn glance(&self) -> (r: String) {
        if self.actual.is_nan() {
            text::string_of(text::chars_of("None").as_slice())
        } else {
            self.actual.text_to(1)
        }
    }
}

/// [`rsi`] as an expression over the two averages read at slots zero and one.
pub type Actual<V> = Select<
    Cmp<Const<V>, Var<1>>,
    expr::Sub<
        Const<V>,
        expr::Div<Const<V>, expr::Add<Const<V>, expr::Div<Var<0>, Var<1>>>>,
    >,
    Const<V>,
>;

pub open spec fn actual_of<V: Scalar>() -> Actual<V> {
    Select(
        Cmp(Const(V::whole(0)), Var),
        expr::Sub(
            Const(V::whole(100)),
            expr::Div(
                Const(V::whole(100)),
                expr::Add(Const(V::whole(1)), expr::Div(Var, Var)),
            ),
        ),
        Const(V::whole(100)),
    )
}

/// A loss of zero is every gain and no loss, which is the top of the scale rather than a division.
fn actual<V: Scalar>(v: Vars) -> (r: Ex<Actual<V>>)
    ensures
        r == Ex(actual_of::<V>()),
{
    let (gain, loss): (Ex<Var<0>>, Ex<Var<1>>) = (v.get::<0>(), v.get::<1>());
    let hundred: V = V::of(100);
    select(
        gt(loss, constant(V::of(0))),
        constant(hundred) - constant(hundred) / (constant(V::of(1)) + gain / loss),
        constant(hundred),
    )
}

/// How much of the newest value a smoothing over `n` values takes.
pub open spec fn weight_of<V: Scalar>(n: int) -> V {
    V::whole(2).over(V::whole(n).plus(V::whole(1)))
}

/// Wilder RSI, smoothed by an exponential mean. Warmth is as many closed bars as the two lengths
/// together, which is exactly when both stages are warm: the averages need their base's changes, and
/// only then does the smoothing start seeing values.
pub struct Rsi<B, S, V> {
    /// The running value, and how many samples have reached it: seeded on the first, warm after the
    /// smoothing's length of them.
    pub smooth: Carried<V>,
    pub wiring: PhantomData<(B, S)>,
}

impl<B, S, V: Scalar> Rsi<B, S, V> {
    pub fn new() -> (r: Self)
        ensures
            r.smooth@ == crate::kernel::zeros::<V>(2),
    {
        Rsi { smooth: Carried::new(2), wiring: PhantomData }
    }
}

impl<B: Series<Item = Bar<V>> + 'static, S: RsiSpec, V: Scalar + 'static> Cell for Rsi<B, S, V> where
    for <'x>B: Cell<Out<'x> = &'x [<B as Series>::Item]>,
 {
    type Out<'t> = &'t [RsiValues<V>];

    type Gates = No;

    open spec fn label() -> Seq<char> {
        tagged("Rsi"@, B::label(), Some(S::label()))
    }

    open spec fn nameable() -> bool {
        B::nameable() && encode_utf8(Self::label()).len() <= TAG_CAP
    }

    open spec fn facts_spec() -> Facts {
        Facts::plain()
    }

    open spec fn permits<'t>(out: &'t [RsiValues<V>]) -> bool {
        true
    }

    fn name() -> (r: String) {
        spell_two("Rsi", B::name().as_str(), S::name().as_str())
    }

    fn facts() -> (r: Facts) {
        Facts::bare()
    }

    fn opens<'t>(out: &'t [RsiValues<V>]) -> (r: bool) {
        true
    }
}

impl<B: Series<Item = Bar<V>> + 'static, S: RsiSpec, V: Scalar + 'static> Series for Rsi<B, S, V> where
    for <'x>B: Cell<Out<'x> = &'x [<B as Series>::Item]>,
 {
    type Item = RsiValues<V>;

    type Batch = Rows<RsiValues<V>>;
}

/// What an RSI is read off: both averages, which warm together, so an element carries both or neither.
pub open spec fn pair_reading<V: Scalar>(
    gain: Seq<Sample<V>>,
    loss: Seq<Sample<V>>,
    i: int,
) -> Option<Reading<V>> {
    match (gain[i], loss[i]) {
        (Some(g), Some(l)) => {
            let lag = (gain.len() - 1 - i) as usize;
            Some(
                Reading {
                    ts: 0,
                    slots: seq![g.0, l.0],
                    sources: seq![
                        Source::Dep { dep: 0, lag, slot: 0 },
                        Source::Dep { dep: 1, lag, slot: 0 },
                    ],
                },
            )
        },
        _ => None,
    }
}

impl<'a, 'b, B, S: RsiSpec, V: Scalar> Reads<V, (&'a [Sample<V>], (&'b [Sample<V>], ()))> for Rsi<
    B,
    S,
    V,
> {
    open spec fn lead(deps: (&'a [Sample<V>], (&'b [Sample<V>], ()))) -> nat {
        deps.0@.len()
    }

    /// The two averages are at one rate.
    open spec fn readable(deps: (&'a [Sample<V>], (&'b [Sample<V>], ()))) -> bool {
        deps.0@.len() == deps.1.0@.len()
    }

    open spec fn reading(deps: (&'a [Sample<V>], (&'b [Sample<V>], ())), i: int) -> Option<Reading<V>> {
        pair_reading(deps.0@, deps.1.0@, i)
    }

    fn lead_fires(deps: &(&'a [Sample<V>], (&'b [Sample<V>], ()))) -> (r: usize) {
        deps.0.len()
    }

    fn read<W: Witness>(
        deps: &(&'a [Sample<V>], (&'b [Sample<V>], ())),
        i: usize,
        env: &mut Env<V, W>,
    ) -> (r: Option<i64>) {
        let ghost saw = env.sees();
        let (gain, loss): (&'a [Sample<V>], &'b [Sample<V>]) = (deps.0, deps.1.0);
        let size: usize = gain.len();
        match (gain.at(i), loss.at(i)) {
            (Some((g, g_lag)), Some((l, l_lag))) => match (g.present(), l.present()) {
                (Some(g), Some(l)) => {
                    env.dep(0).lag(g_lag).put(&g);
                    let ghost mid = env.sees();
                    env.dep(1).lag(l_lag).put(&l);
                    proof {
                        let x = pair_reading(gain@, loss@, i as int)->Some_0;
                        assert(env.values() =~= x.slots);
                        if let Some(s) = saw {
                            let m = mid->Some_0;
                            lemma_sourced(s, 0, 1, Some((0usize, g_lag, 0usize)));
                            lemma_sourced(m, 1, 1, Some((1usize, l_lag, 0usize)));
                            assert(env.sees()->Some_0.take(2) =~= x.sources);
                        }
                    }
                    Some(0)
                },
                _ => None,
            },
            _ => None,
        }
    }
}

/// What the smoothed value becomes.
pub type Smoothed<V> = Select<
    Cmp<Var<3>, Const<V>>,
    Actual<V>,
    expr::Add<expr::Mul<Const<V>, Actual<V>>, expr::Mul<Const<V>, Var<2>>>,
>;

impl<'a, 'b, B, S: RsiSpec, V: Scalar> Folds<V, (&'a [Sample<V>], (&'b [Sample<V>], ()))> for Rsi<
    B,
    S,
    V,
> {
    type Item = RsiValues<V>;

    type Step = (Ex<Smoothed<V>>, Ex<Warmed<V, Var<3>>>);

    type Value = (Ex<Actual<V>>, Ex<Select<Cmp<Var<3>, Const<V>>, Absent, Var<2>>>);

    open spec fn dep_width() -> nat {
        2
    }

    open spec fn base() -> nat {
        2
    }

    open spec fn step_spec(&self) -> Self::Step {
        let n = V::whole(S::smoothing() as int);
        let alpha = weight_of::<V>(S::smoothing() as int);
        (
            Ex(
                Select(
                    Cmp(Var, Const(V::whole(1))),
                    actual_of(),
                    expr::Add(
                        expr::Mul(Const(alpha), actual_of()),
                        expr::Mul(Const(V::whole(1).minus(alpha)), Var),
                    ),
                ),
            ),
            Ex(warmed_of(Var, n)),
        )
    }

    open spec fn value_spec(&self) -> Self::Value {
        (
            Ex(actual_of()),
            Ex(Select(Cmp(Var, Const(V::whole(S::smoothing() as int))), Absent, Var)),
        )
    }

    open spec fn carried_spec(&self) -> Seq<V> {
        self.smooth@
    }

    fn dep_slots() -> (r: usize) {
        2
    }

    fn step(&self) -> (r: Self::Step) {
        let v: Vars = Vars;
        let (ema, seen): (Ex<Var<2>>, Ex<Var<3>>) = (v.get::<2>(), v.get::<3>());
        let one: V = V::of(1);
        let n: V = V::of(S::smooth_len() as i64);
        let alpha: V = V::of(2).div(n.add(one));
        (
            select(
                lt(seen, constant(one)),
                actual(v),
                constant(alpha) * actual(v) + constant(one.sub(alpha)) * ema,
            ),
            min(seen + constant(one), constant(n)),
        )
    }

    fn value(&self) -> (r: Self::Value) {
        let v: Vars = Vars;
        let n: V = V::of(S::smooth_len() as i64);
        (actual(v), select(lt(v.get::<3>(), constant(n)), absent(), v.get::<2>()))
    }

    fn carried(&self) -> (r: &Carried<V>) {
        &self.smooth
    }

    fn carried_mut(&mut self) -> (r: &mut Carried<V>) {
        &mut self.smooth
    }
}

impl<B, S: RsiSpec, V: Scalar> Rsi<B, S, V> {
    proof fn lemma_sound<'t>(&self, deps: (&'t [Sample<V>], (&'t [Sample<V>], ())))
        requires
            self.smooth@.len() == 2,
            deps.0@.len() == deps.1.0@.len(),
        ensures
            Fold::sound::<V, (&'t [Sample<V>], (&'t [Sample<V>], ())), Self>(*self, deps),
    {
        reveal_with_fuel(crate::ast::lowerable, 10);
        let step = <Self as Folds<V, (&'t [Sample<V>], (&'t [Sample<V>], ()))>>::step_spec(self);
        let value = <Self as Folds<V, (&'t [Sample<V>], (&'t [Sample<V>], ()))>>::value_spec(self);
        assert(all_lowerable::<V>(step.slot_trees()));
        assert(all_lowerable::<V>(value.slot_trees()));
    }
}

impl<B: Series<Item = Bar<V>, Batch = Rows<Bar<V>>> + 'static, S: RsiSpec, V: Scalar + 'static> Emit for Rsi<
    B,
    S,
    V,
> where for <'x>B: Cell<Out<'x> = &'x [<B as Series>::Item]> {
    /// The smoothing is a recurrence over both legs, so it reaches to the start of the run.
    type Deps = (
        Folding<AvgGain<B, S, V>, Unbounded>,
        (Folding<AvgLoss<B, S, V>, Unbounded>, ()),
    );

    open spec fn can_emit<'t>(&self, deps: (&'t [Sample<V>], (&'t [Sample<V>], ()))) -> bool {
        self.smooth@.len() == 2 && deps.0@.len() == deps.1.0@.len()
    }

    open spec fn emits<'t>(
        &self,
        deps: (&'t [Sample<V>], (&'t [Sample<V>], ())),
        after: &Self,
        run: Seq<RsiValues<V>>,
    ) -> bool {
        let walk = Fold::walk::<V, (&'t [Sample<V>], (&'t [Sample<V>], ())), Self>(
            *self,
            deps,
            deps.0@.len(),
        );
        &&& run == walk.run
        &&& after.smooth@ == walk.state
    }

    fn emit<'t>(
        &mut self,
        deps: (&'t [Sample<V>], (&'t [Sample<V>], ())),
        out: &mut Vec<RsiValues<V>>,
    ) {
        proof {
            self.lemma_sound(deps);
        }
        let ghost was = *self;
        Fold::emit::<V, (&'t [Sample<V>], (&'t [Sample<V>], ())), Self>(self, &deps, out);
        assert(out@ =~= Fold::walk::<V, (&'t [Sample<V>], (&'t [Sample<V>], ())), Self>(
            was,
            deps,
            deps.0@.len(),
        ).run);
    }
}

/// The names of an RSI's two slots.
pub open spec fn leg_names() -> Seq<&'static [&'static str]> {
    seq![slice_of(seq!["actual", "smooth"])]
}

/// No threshold is drawn: whoever wires this owns the trigger.
impl<
    B: Series<Item = Bar<V>, Batch = Rows<Bar<V>>> + 'static,
    S: RsiSpec,
    V: Scalar + 'static,
> ObservedRun<V> for Rsi<B, S, V> where for <'x>B: Cell<Out<'x> = &'x [<B as Series>::Item]> {
    type Pre = Pointwise<V>;

    open spec fn fidelity_spec() -> Fidelity {
        Fold::claim()
    }

    open spec fn plots_spec() -> Seq<Plot> {
        seq![plain_plot(leg_names())]
    }

    open spec fn captures<'t>(
        &self,
        want: Want,
        deps: (&'t [Sample<V>], (&'t [Sample<V>], ())),
        pre: Pointwise<V>,
    ) -> bool {
        crate::kernel::capture_view(pre.0) == Fold::capture::<
            V,
            (&'t [Sample<V>], (&'t [Sample<V>], ())),
            Self,
        >(*self, want, deps)
    }

    fn fidelity() -> (r: Fidelity) {
        Fold::fidelity()
    }

    fn plots() -> (r: &'static [Plot])
        ensures
            hang_together(r@, <RsiValues<V> as Flat<V>>::dims_spec()),
    {
        let r: &'static [Plot] = &[Plot {
            slots: &[],
            labels: &[&["actual", "smooth"]],
            overlay: false,
            solo: false,
            bars: false,
            candles: false,
        }];
        proof {
            let names = r[0].labels[0];
            assert(names@ =~= seq!["actual", "smooth"]);
            lemma_slice_of(names);
            assert(r[0].labels@ =~= leg_names());
            assert(r[0].slots@ =~= Seq::empty());
            lemma_slice_of(r[0].slots);
            lemma_slice_of(r[0].labels);
            assert(r@ =~= seq![plain_plot(leg_names())]);
            assert(r[0].labels@.drop_last() =~= Seq::empty());
            assert(named(Seq::empty()) == 1);
            assert(named(r[0].labels@) == 2);
            lemma_one_dim(2usize);
        }
        r
    }

    fn pre<'t>(&self, want: Want, deps: &(&'t [Sample<V>], (&'t [Sample<V>], ()))) -> (r: Pointwise<V>) {
        proof {
            self.lemma_sound(*deps);
        }
        Pointwise(
            Fold::pre::<V, (&'t [Sample<V>], (&'t [Sample<V>], ())), Self>(self, want, deps),
        )
    }
}

} // verus!
