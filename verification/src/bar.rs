//! The series over a period, in three: the two accumulators over trades, and the bar that is their
//! join.

use core::marker::PhantomData;
use vstd::prelude::*;
use vstd::utf8::encode_utf8;

use crate::algebra::{max, min, Ex, Slots, Vars};
use crate::algebra::all_lowerable;
use crate::cell::{Cell, Facts, Folding, No};
use crate::cells::Trades;
use crate::close::{Close, Closes, Pending};
use crate::close::{closes_at, step_of, PendingView};
use crate::cols::{scaled_down, TradeCols};
use crate::cols::unscaled;
use crate::emit::Emit;
use crate::env::{Env, Source, Witness};
use crate::env::lemma_sourced;
use crate::expr;
use crate::expr::{Max, Min, Var};
use crate::flat::{lemma_one_dim, one_dim};
use crate::flat::{Flat, Unflat};
use crate::flat::{lemma_slice_of, slice_of};
use crate::glance::Glance;
use crate::horizon::{Over, Timeframe};
use crate::kernel::{Reads, Scan, Scans};
use crate::kernel::Reading;
use crate::level::{Pointwise, Scanned};
use crate::plot::hang_together;
use crate::plot::Plot;
use crate::rows::{Lagged, Present, Rows, Tail};
use crate::scalar::Scalar;
use crate::series::Series;
use crate::shape::Fidelity;
use crate::stamped::Stamped;
use crate::sweep::ObservedRun;
use crate::tag::timeframe_text;
use crate::tag::{Tag, TAG_CAP};
use crate::text;
use crate::ts::{Accumulator, Span, Timestamped, Timestamps, Ts, Venue};
use crate::want::Want;

verus! {

/// What a period's price did.
#[derive(Debug)]
pub struct Ohlc<V> {
    pub ts_close: Ts<Venue>,
    pub open: V,
    pub high: V,
    pub low: V,
    pub close: V,
}

impl<V: Copy> Copy for Ohlc<V> {

}

impl<V: Copy> Clone for Ohlc<V> {
    fn clone(&self) -> (r: Self)
        ensures
            r == *self,
    {
        *self
    }
}

impl<V: Scalar> Flat<V> for Ohlc<V> {
    open spec fn len_spec() -> nat {
        4
    }

    open spec fn dims_spec() -> Seq<usize> {
        seq![4usize]
    }

    open spec fn sound(&self) -> bool {
        true
    }

    open spec fn slots(&self) -> Seq<V> {
        seq![self.open, self.high, self.low, self.close]
    }

    open spec fn fired(&self) -> bool {
        true
    }

    open spec fn count(&self) -> nat {
        1
    }

    proof fn fills(&self) {
    }

    proof fn shaped() {
        lemma_one_dim(4usize);
    }

    fn dims() -> (r: Vec<usize>) {
        one_dim(4usize)
    }

    fn len() -> (r: usize) {
        4
    }

    fn flat(&self, out: &mut [V]) -> (fired: bool) {
        let (open, high, low, close): (V, V, V, V) = (self.open, self.high, self.low, self.close);
        out[0] = open;
        out[1] = high;
        out[2] = low;
        out[3] = close;
        assert(out@ =~= self.slots());
        true
    }

    fn fires(&self) -> (r: usize) {
        1
    }
}

impl<V: Scalar> Unflat<V> for Ohlc<V> {
    open spec fn item(ts_ns: i64, slots: Seq<V>) -> Self {
        Ohlc { ts_close: Ts(ts_ns, PhantomData), open: slots[0], high: slots[1], low: slots[2], close: slots[3] }
    }

    fn unflat(ts_ns: i64, slots: &[V]) -> (r: Self) {
        Ohlc { ts_close: Ts::from_nanos(ts_ns), open: slots[0], high: slots[1], low: slots[2], close: slots[3] }
    }
}

impl<V> Stamped for Ohlc<V> {
    open spec fn stamp(&self) -> int {
        self.ts_close@
    }

    fn ts_ns(&self) -> (r: i64) {
        self.ts_close.as_nanos()
    }
}

/// A period that closed had trades in it, so this is absent only by not being emitted.
impl<V: Copy> Present for Ohlc<V> {
    type Val = Self;

    open spec fn value(self) -> Option<Self> {
        Some(self)
    }

    fn present(self) -> (r: Option<Self>) {
        Some(self)
    }
}

/// Folded from trades, and nobody's wire arrival: the venue's close time alone.
impl<V> Timestamped for Ohlc<V> {
    open spec fn stamped(&self) -> bool {
        true
    }

    open spec fn stamps(&self, r: Timestamps) -> bool {
        &&& r matches Timestamps::Accumulator(a)
        &&& a.venue@ == (self.ts_close@, self.ts_close@)
        &&& a.local is None
    }

    fn timestamps(&self) -> (r: Timestamps) {
        Timestamps::Accumulator(Accumulator { venue: Span::at(self.ts_close), local: None })
    }
}

impl<V: Scalar> Glance for Ohlc<V> {
    open spec fn readable(&self) -> bool {
        true
    }

    open spec fn headline(&self) -> Seq<char> {
        "close "@ + self.close.spelled()
    }

    fn glance(&self) -> (r: String) {
        let mut out: Vec<char> = text::chars_of("close ");
        let v: String = self.close.text();
        text::push_str(&mut out, v.as_str());
        text::string_of(out.as_slice())
    }
}

/// What a period traded.
#[derive(Debug)]
pub struct Volume<V> {
    pub ts_close: Ts<Venue>,
    /// Base-denominated: a quote-denominated reader multiplies by a price of its choosing.
    pub base: V,
}

impl<V: Copy> Copy for Volume<V> {

}

impl<V: Copy> Clone for Volume<V> {
    fn clone(&self) -> (r: Self)
        ensures
            r == *self,
    {
        *self
    }
}

impl<V: Scalar> Flat<V> for Volume<V> {
    open spec fn len_spec() -> nat {
        1
    }

    open spec fn dims_spec() -> Seq<usize> {
        seq![1usize]
    }

    open spec fn sound(&self) -> bool {
        true
    }

    open spec fn slots(&self) -> Seq<V> {
        seq![self.base]
    }

    open spec fn fired(&self) -> bool {
        true
    }

    open spec fn count(&self) -> nat {
        1
    }

    proof fn fills(&self) {
    }

    proof fn shaped() {
        lemma_one_dim(1usize);
    }

    fn dims() -> (r: Vec<usize>) {
        one_dim(1usize)
    }

    fn len() -> (r: usize) {
        1
    }

    fn flat(&self, out: &mut [V]) -> (fired: bool) {
        let (base,): (V,) = (self.base,);
        out[0] = base;
        assert(out@ =~= self.slots());
        true
    }

    fn fires(&self) -> (r: usize) {
        1
    }
}

impl<V: Scalar> Unflat<V> for Volume<V> {
    open spec fn item(ts_ns: i64, slots: Seq<V>) -> Self {
        Volume { ts_close: Ts(ts_ns, PhantomData), base: slots[0] }
    }

    fn unflat(ts_ns: i64, slots: &[V]) -> (r: Self) {
        Volume { ts_close: Ts::from_nanos(ts_ns), base: slots[0] }
    }
}

impl<V> Stamped for Volume<V> {
    open spec fn stamp(&self) -> int {
        self.ts_close@
    }

    fn ts_ns(&self) -> (r: i64) {
        self.ts_close.as_nanos()
    }
}

/// A period that closed had trades in it, so this is absent only by not being emitted.
impl<V: Copy> Present for Volume<V> {
    type Val = Self;

    open spec fn value(self) -> Option<Self> {
        Some(self)
    }

    fn present(self) -> (r: Option<Self>) {
        Some(self)
    }
}

/// Folded from trades, and nobody's wire arrival: the venue's close time alone.
impl<V> Timestamped for Volume<V> {
    open spec fn stamped(&self) -> bool {
        true
    }

    open spec fn stamps(&self, r: Timestamps) -> bool {
        &&& r matches Timestamps::Accumulator(a)
        &&& a.venue@ == (self.ts_close@, self.ts_close@)
        &&& a.local is None
    }

    fn timestamps(&self) -> (r: Timestamps) {
        Timestamps::Accumulator(Accumulator { venue: Span::at(self.ts_close), local: None })
    }
}

impl<V: Scalar> Glance for Volume<V> {
    open spec fn readable(&self) -> bool {
        true
    }

    open spec fn headline(&self) -> Seq<char> {
        self.base.spelled()
    }

    fn glance(&self) -> (r: String) {
        self.base.text()
    }
}

/// What a period's price did, and what it traded.
#[derive(Debug)]
pub struct Bar<V> {
    pub ts_close: Ts<Venue>,
    pub open: V,
    pub high: V,
    pub low: V,
    pub close: V,
    /// Base-denominated: a volume reading wanting quote reads `vol_base * close`, the close standing in
    /// for the volume-weighted price.
    pub vol_base: V,
}

impl<V: Copy> Copy for Bar<V> {

}

impl<V: Copy> Clone for Bar<V> {
    fn clone(&self) -> (r: Self)
        ensures
            r == *self,
    {
        *self
    }
}

impl<V: Scalar> Flat<V> for Bar<V> {
    open spec fn len_spec() -> nat {
        5
    }

    open spec fn dims_spec() -> Seq<usize> {
        seq![5usize]
    }

    open spec fn sound(&self) -> bool {
        true
    }

    open spec fn slots(&self) -> Seq<V> {
        seq![self.open, self.high, self.low, self.close, self.vol_base]
    }

    open spec fn fired(&self) -> bool {
        true
    }

    open spec fn count(&self) -> nat {
        1
    }

    proof fn fills(&self) {
    }

    proof fn shaped() {
        lemma_one_dim(5usize);
    }

    fn dims() -> (r: Vec<usize>) {
        one_dim(5usize)
    }

    fn len() -> (r: usize) {
        5
    }

    fn flat(&self, out: &mut [V]) -> (fired: bool) {
        let (open, high, low, close, vol_base): (V, V, V, V, V) = (self.open, self.high, self.low, self.close, self.vol_base);
        out[0] = open;
        out[1] = high;
        out[2] = low;
        out[3] = close;
        out[4] = vol_base;
        assert(out@ =~= self.slots());
        true
    }

    fn fires(&self) -> (r: usize) {
        1
    }
}

impl<V: Scalar> Unflat<V> for Bar<V> {
    open spec fn item(ts_ns: i64, slots: Seq<V>) -> Self {
        Bar { ts_close: Ts(ts_ns, PhantomData), open: slots[0], high: slots[1], low: slots[2], close: slots[3], vol_base: slots[4] }
    }

    fn unflat(ts_ns: i64, slots: &[V]) -> (r: Self) {
        Bar { ts_close: Ts::from_nanos(ts_ns), open: slots[0], high: slots[1], low: slots[2], close: slots[3], vol_base: slots[4] }
    }
}

impl<V> Stamped for Bar<V> {
    open spec fn stamp(&self) -> int {
        self.ts_close@
    }

    fn ts_ns(&self) -> (r: i64) {
        self.ts_close.as_nanos()
    }
}

/// A period that closed had trades in it, so this is absent only by not being emitted.
impl<V: Copy> Present for Bar<V> {
    type Val = Self;

    open spec fn value(self) -> Option<Self> {
        Some(self)
    }

    fn present(self) -> (r: Option<Self>) {
        Some(self)
    }
}

/// Folded from trades, and nobody's wire arrival: the venue's close time alone.
impl<V> Timestamped for Bar<V> {
    open spec fn stamped(&self) -> bool {
        true
    }

    open spec fn stamps(&self, r: Timestamps) -> bool {
        &&& r matches Timestamps::Accumulator(a)
        &&& a.venue@ == (self.ts_close@, self.ts_close@)
        &&& a.local is None
    }

    fn timestamps(&self) -> (r: Timestamps) {
        Timestamps::Accumulator(Accumulator { venue: Span::at(self.ts_close), local: None })
    }
}

impl<V: Scalar> Glance for Bar<V> {
    open spec fn readable(&self) -> bool {
        true
    }

    open spec fn headline(&self) -> Seq<char> {
        "close "@ + self.close.spelled()
    }

    fn glance(&self) -> (r: String) {
        let mut out: Vec<char> = text::chars_of("close ");
        let v: String = self.close.text();
        text::push_str(&mut out, v.as_str());
        text::string_of(out.as_slice())
    }
}

/// One trade's price and quantity, at the run's own precision: the element a period accumulates.
/// The whole of what tells one accumulator from another is its two bodies; this is what they are
/// bodies *of*, and it is the same reading for both.
pub open spec fn trade_reading<'t, V: Scalar>(trades: TradeCols<'t>, i: int) -> Reading<V> {
    let lag = (trades.monotonic_seq@.len() - 1 - i) as usize;
    Reading {
        ts: trades.exec_times()[i].0,
        slots: seq![
            unscaled::<V>(trades.price@[i] as int, trades.prec.price.0 as int),
            unscaled::<V>(trades.qty@[i] as int, trades.prec.qty.0 as int),
        ],
        sources: seq![
            Source::Dep { dep: 0, lag, slot: 0 },
            Source::Dep { dep: 0, lag, slot: 1 },
        ],
    }
}

fn trade<'t, V: Scalar, W: Witness>(trades: TradeCols<'t>, i: usize, env: &mut Env<V, W>) -> (r: Option<
    i64,
>)
    requires
        trades.wf(),
        i < trades.monotonic_seq@.len(),
        old(env).values() == Seq::<V>::empty(),
    ensures
        crate::kernel::took(
            Some(trade_reading::<V>(trades, i as int)),
            r,
            final(env).values(),
            final(env).sees(),
        ),
{
    let ghost saw = env.sees();
    let execs: &[Ts<Venue>] = trades.execs();
    let size: usize = execs.len();
    match execs.at(i) {
        None => None,
        Some((exec_at, lag)) => {
            let price: V = scaled_down(trades.price[i] as i64, trades.prec.price.0);
            let qty: V = scaled_down(trades.qty[i] as i64, trades.prec.qty.0);
            env.dep(0).lag(lag).put(&[price, qty]);
            proof {
                let x = trade_reading::<V>(trades, i as int);
                assert(env.values() =~= x.slots);
                if let Some(s) = saw {
                    lemma_sourced(s, 0, 2, Some((0usize, lag, 0usize)));
                    let now = env.sees()->Some_0;
                    assert(now.take(2) =~= x.sources);
                }
            }
            Some(exec_at.as_nanos())
        },
    }
}

/// The prefix of a slower series that has *closed* by `deadline`: the cross-rate read a node clocked
/// by a faster series makes against a retained dep. A [`Tail`] and not a slice: the cut hides however
/// many elements stand past the deadline, and a pick inside it still has to report its lag against
/// the column it lands in.
pub fn closed_by<'t, V>(bars: &'t [Bar<V>], deadline: Ts<Venue>) -> (r: Tail<'t, Bar<V>>)
    ensures
        r.xs@.len() <= bars@.len(),
        r.xs@ == bars@.take(r.xs@.len() as int),
        r.behind == bars@.len() - r.xs@.len(),
        forall|i: int| 0 <= i < r.xs@.len() ==> (#[trigger] r.xs@[i]).ts_close@ <= deadline@,
        r.xs@.len() < bars@.len() ==> bars@[r.xs@.len() as int].ts_close@ > deadline@,
{
    let size: usize = bars.len();
    let by: i64 = deadline.as_nanos();
    let closed = |b: &Bar<V>| -> (r: bool)
        ensures
            r == (b.ts_close@ <= by),
        { b.ts_close.as_nanos() <= by };
    let r: Tail<'t, Bar<V>> = Tail::of(bars).upto(closed);
    r
}

/// A cell's name with its period behind it.
fn named(prefix: &str, tf: Timeframe) -> (r: String)
    requires
        tf.0 != 0,
        encode_utf8(prefix@ + timeframe_text(tf)).len() <= TAG_CAP,
    ensures
        r@ == prefix@ + timeframe_text(tf),
{
    let tag: Tag = Tag::new(prefix, tf);
    text::string_of(text::chars_of(tag.as_str()).as_slice())
}

/// The price accumulator. `high` and `low` are the one value-dependent pick, and they live inside the
/// algebra with a pinned tie-break: each branch differentiable, and the tie resolving the same way in
/// the value and in the derivative.
pub struct Ohlcs<const MS: u64, V> {
    pub pending: Pending<V>,
}

impl<const MS: u64, V> Ohlcs<MS, V> {
    pub fn new() -> (r: Self)
        ensures
            !r.pending@.live,
    {
        Ohlcs { pending: Pending::none() }
    }
}

impl<const MS: u64, V: Scalar + 'static> Cell for Ohlcs<MS, V> {
    type Out<'t> = &'t [Ohlc<V>];

    type Gates = No;

    open spec fn label() -> Seq<char> {
        "Ohlc:"@ + timeframe_text(Timeframe(MS))
    }

    open spec fn nameable() -> bool {
        MS != 0 && encode_utf8(Self::label()).len() <= TAG_CAP
    }

    open spec fn facts_spec() -> Facts {
        Facts { clock: Some(Timeframe(MS)), ..Facts::plain() }
    }

    open spec fn permits<'t>(out: &'t [Ohlc<V>]) -> bool {
        true
    }

    fn name() -> (r: String) {
        named("Ohlc:", Timeframe(MS))
    }

    fn facts() -> (r: Facts) {
        Facts::bare().clocked(Timeframe(MS))
    }

    fn opens<'t>(out: &'t [Ohlc<V>]) -> (r: bool) {
        true
    }
}

impl<const MS: u64, V: Scalar + 'static> Series for Ohlcs<MS, V> {
    type Item = Ohlc<V>;

    type Batch = Rows<Ohlc<V>>;
}

impl<'t, const MS: u64, V: Scalar> Reads<V, (TradeCols<'t>, ())> for Ohlcs<MS, V> {
    open spec fn lead(deps: (TradeCols<'t>, ())) -> nat {
        deps.0.monotonic_seq@.len()
    }

    open spec fn readable(deps: (TradeCols<'t>, ())) -> bool {
        deps.0.wf()
    }

    open spec fn reading(deps: (TradeCols<'t>, ()), i: int) -> Option<Reading<V>> {
        Some(trade_reading(deps.0, i))
    }

    fn lead_fires(deps: &(TradeCols<'t>, ())) -> (r: usize) {
        deps.0.len()
    }

    fn read<W: Witness>(deps: &(TradeCols<'t>, ()), i: usize, env: &mut Env<V, W>) -> (r: Option<
        i64,
    >) {
        trade(deps.0, i, env)
    }
}

impl<'t, const MS: u64, V: Scalar> Closes<V, (TradeCols<'t>, ())> for Ohlcs<MS, V> {
    type Item = Ohlc<V>;

    type Open = (Ex<Var<0>>, Ex<Var<0>>, Ex<Var<0>>, Ex<Var<0>>);

    type Fold = (Ex<Var<2>>, Ex<Max<Var<3>, Var<0>>>, Ex<Min<Var<4>, Var<0>>>, Ex<Var<0>>);

    open spec fn period_spec() -> Timeframe {
        Timeframe(MS)
    }

    open spec fn element_width() -> nat {
        2
    }

    open spec fn open_spec(&self) -> Self::Open {
        (Ex(Var), Ex(Var), Ex(Var), Ex(Var))
    }

    open spec fn fold_spec(&self) -> Self::Fold {
        (Ex(Var), Ex(Max(Var, Var)), Ex(Min(Var, Var)), Ex(Var))
    }

    open spec fn pending_spec(&self) -> PendingView<V> {
        self.pending@
    }

    fn period() -> (r: Timeframe) {
        Timeframe(MS)
    }

    fn open(&self) -> (r: Self::Open) {
        let v: Vars = Vars;
        let price: Ex<Var<0>> = v.get::<0>();
        (price, price, price, price)
    }

    fn fold(&self) -> (r: Self::Fold) {
        let v: Vars = Vars;
        let price: Ex<Var<0>> = v.get::<0>();
        (v.get::<2>(), max(v.get::<3>(), price), min(v.get::<4>(), price), price)
    }

    fn pending(&self) -> (r: &Pending<V>) {
        &self.pending
    }

    fn pending_mut(&mut self) -> (r: &mut Pending<V>) {
        &mut self.pending
    }
}

impl<const MS: u64, V: Scalar> Ohlcs<MS, V> {
    /// What two bodies this small need is that every close time can be told.
    proof fn lemma_sound<'t>(&self, trades: TradeCols<'t>)
        requires
            self.closable(trades),
        ensures
            Close::sound::<V, (TradeCols<'t>, ()), Self>(*self, (trades, ())),
    {
        reveal_with_fuel(crate::ast::lowerable, 3);
        let open = <Self as Closes<V, (TradeCols<'t>, ())>>::open_spec(self);
        let fold = <Self as Closes<V, (TradeCols<'t>, ())>>::fold_spec(self);
        assert(all_lowerable::<V>(open.slot_trees()));
        assert(all_lowerable::<V>(fold.slot_trees()));
    }

    /// Whether trades can be gathered into periods: the columns hang together, the period can be
    /// counted, and no trade closes one past the end of time.
    pub open spec fn closable<'t>(&self, trades: TradeCols<'t>) -> bool {
        &&& trades.wf()
        &&& 0 < step_of(Timeframe(MS)) <= i64::MAX
        &&& self.pending@.live ==> self.pending@.slots.len() == 4
        &&& forall|i: int|
            0 <= i < trades.monotonic_seq@.len() ==> closes_at(
                (#[trigger] trades.exec_times()[i])@,
                step_of(Timeframe(MS)),
            ) <= i64::MAX
    }
}

impl<const MS: u64, V: Scalar + 'static> Emit for Ohlcs<MS, V> {
    /// The partial period is the whole of the state, so the trades it holds reach back exactly one
    /// period.
    type Deps = (Folding<Trades, Over<MS>>, ());

    open spec fn can_emit<'t>(&self, deps: (TradeCols<'t>, ())) -> bool {
        self.closable(deps.0)
    }

    open spec fn emits<'t>(
        &self,
        deps: (TradeCols<'t>, ()),
        after: &Self,
        run: Seq<Ohlc<V>>,
    ) -> bool {
        let walk = Close::walk::<V, (TradeCols<'t>, ()), Self>(
            *self,
            deps,
            deps.0.monotonic_seq@.len(),
        );
        &&& run == walk.closed
        &&& after.pending@ == walk.pending
    }

    fn emit<'t>(&mut self, deps: (TradeCols<'t>, ()), out: &mut Vec<Ohlc<V>>) {
        proof {
            self.lemma_sound(deps.0);
        }
        let ghost was = *self;
        Close::emit::<V, (TradeCols<'t>, ()), Self>(self, &deps, out);
        assert(out@ =~= Close::walk::<V, (TradeCols<'t>, ()), Self>(
            was,
            deps,
            deps.0.monotonic_seq@.len(),
        ).closed);
    }
}

/// [`Bars`] joins the two accumulators and draws for all three.
impl<const MS: u64, V: Scalar + 'static> ObservedRun<V> for Ohlcs<MS, V> {
    type Pre = Pointwise<V>;

    open spec fn fidelity_spec() -> Fidelity {
        Close::claim()
    }

    open spec fn plots_spec() -> Seq<Plot> {
        Seq::empty()
    }

    open spec fn captures<'t>(
        &self,
        want: Want,
        deps: (TradeCols<'t>, ()),
        pre: Pointwise<V>,
    ) -> bool {
        crate::kernel::capture_view(pre.0) == Close::capture::<V, (TradeCols<'t>, ()), Self>(
            *self,
            want,
            deps,
        )
    }

    fn fidelity() -> (r: Fidelity) {
        Close::fidelity()
    }

    fn plots() -> (r: &'static [Plot])
        ensures
            hang_together(r@, <Ohlc<V> as Flat<V>>::dims_spec()),
    {
        &[]
    }

    fn pre<'t>(&self, want: Want, deps: &(TradeCols<'t>, ())) -> (r: Pointwise<V>) {
        proof {
            self.lemma_sound(deps.0);
        }
        Pointwise(Close::pre::<V, (TradeCols<'t>, ()), Self>(self, want, deps))
    }
}

/// The volume accumulator.
pub struct Volumes<const MS: u64, V> {
    pub pending: Pending<V>,
}

impl<const MS: u64, V> Volumes<MS, V> {
    pub fn new() -> (r: Self)
        ensures
            !r.pending@.live,
    {
        Volumes { pending: Pending::none() }
    }
}

impl<const MS: u64, V: Scalar + 'static> Cell for Volumes<MS, V> {
    type Out<'t> = &'t [Volume<V>];

    type Gates = No;

    open spec fn label() -> Seq<char> {
        "Vol:"@ + timeframe_text(Timeframe(MS))
    }

    open spec fn nameable() -> bool {
        MS != 0 && encode_utf8(Self::label()).len() <= TAG_CAP
    }

    open spec fn facts_spec() -> Facts {
        Facts { clock: Some(Timeframe(MS)), ..Facts::plain() }
    }

    open spec fn permits<'t>(out: &'t [Volume<V>]) -> bool {
        true
    }

    fn name() -> (r: String) {
        named("Vol:", Timeframe(MS))
    }

    fn facts() -> (r: Facts) {
        Facts::bare().clocked(Timeframe(MS))
    }

    fn opens<'t>(out: &'t [Volume<V>]) -> (r: bool) {
        true
    }
}

impl<const MS: u64, V: Scalar + 'static> Series for Volumes<MS, V> {
    type Item = Volume<V>;

    type Batch = Rows<Volume<V>>;
}

impl<'t, const MS: u64, V: Scalar> Reads<V, (TradeCols<'t>, ())> for Volumes<MS, V> {
    open spec fn lead(deps: (TradeCols<'t>, ())) -> nat {
        deps.0.monotonic_seq@.len()
    }

    open spec fn readable(deps: (TradeCols<'t>, ())) -> bool {
        deps.0.wf()
    }

    open spec fn reading(deps: (TradeCols<'t>, ()), i: int) -> Option<Reading<V>> {
        Some(trade_reading(deps.0, i))
    }

    fn lead_fires(deps: &(TradeCols<'t>, ())) -> (r: usize) {
        deps.0.len()
    }

    fn read<W: Witness>(deps: &(TradeCols<'t>, ()), i: usize, env: &mut Env<V, W>) -> (r: Option<
        i64,
    >) {
        trade(deps.0, i, env)
    }
}

impl<'t, const MS: u64, V: Scalar> Closes<V, (TradeCols<'t>, ())> for Volumes<MS, V> {
    type Item = Volume<V>;

    type Open = Ex<Var<1>>;

    type Fold = Ex<expr::Add<Var<2>, Var<1>>>;

    open spec fn period_spec() -> Timeframe {
        Timeframe(MS)
    }

    open spec fn element_width() -> nat {
        2
    }

    open spec fn open_spec(&self) -> Self::Open {
        Ex(Var)
    }

    open spec fn fold_spec(&self) -> Self::Fold {
        Ex(expr::Add(Var, Var))
    }

    open spec fn pending_spec(&self) -> PendingView<V> {
        self.pending@
    }

    fn period() -> (r: Timeframe) {
        Timeframe(MS)
    }

    fn open(&self) -> (r: Self::Open) {
        let v: Vars = Vars;
        v.get::<1>()
    }

    fn fold(&self) -> (r: Self::Fold) {
        let v: Vars = Vars;
        v.get::<2>() + v.get::<1>()
    }

    fn pending(&self) -> (r: &Pending<V>) {
        &self.pending
    }

    fn pending_mut(&mut self) -> (r: &mut Pending<V>) {
        &mut self.pending
    }
}

impl<const MS: u64, V: Scalar> Volumes<MS, V> {
    /// What two bodies this small need is that every close time can be told.
    proof fn lemma_sound<'t>(&self, trades: TradeCols<'t>)
        requires
            self.closable(trades),
        ensures
            Close::sound::<V, (TradeCols<'t>, ()), Self>(*self, (trades, ())),
    {
        reveal_with_fuel(crate::ast::lowerable, 3);
        let open = <Self as Closes<V, (TradeCols<'t>, ())>>::open_spec(self);
        let fold = <Self as Closes<V, (TradeCols<'t>, ())>>::fold_spec(self);
        assert(all_lowerable::<V>(open.slot_trees()));
        assert(all_lowerable::<V>(fold.slot_trees()));
    }

    /// Whether trades can be gathered into periods: the columns hang together, the period can be
    /// counted, and no trade closes one past the end of time.
    pub open spec fn closable<'t>(&self, trades: TradeCols<'t>) -> bool {
        &&& trades.wf()
        &&& 0 < step_of(Timeframe(MS)) <= i64::MAX
        &&& self.pending@.live ==> self.pending@.slots.len() == 1
        &&& forall|i: int|
            0 <= i < trades.monotonic_seq@.len() ==> closes_at(
                (#[trigger] trades.exec_times()[i])@,
                step_of(Timeframe(MS)),
            ) <= i64::MAX
    }
}

impl<const MS: u64, V: Scalar + 'static> Emit for Volumes<MS, V> {
    /// The partial period is the whole of the state, so the trades it holds reach back exactly one
    /// period.
    type Deps = (Folding<Trades, Over<MS>>, ());

    open spec fn can_emit<'t>(&self, deps: (TradeCols<'t>, ())) -> bool {
        self.closable(deps.0)
    }

    open spec fn emits<'t>(
        &self,
        deps: (TradeCols<'t>, ()),
        after: &Self,
        run: Seq<Volume<V>>,
    ) -> bool {
        let walk = Close::walk::<V, (TradeCols<'t>, ()), Self>(
            *self,
            deps,
            deps.0.monotonic_seq@.len(),
        );
        &&& run == walk.closed
        &&& after.pending@ == walk.pending
    }

    fn emit<'t>(&mut self, deps: (TradeCols<'t>, ()), out: &mut Vec<Volume<V>>) {
        proof {
            self.lemma_sound(deps.0);
        }
        let ghost was = *self;
        Close::emit::<V, (TradeCols<'t>, ()), Self>(self, &deps, out);
        assert(out@ =~= Close::walk::<V, (TradeCols<'t>, ()), Self>(
            was,
            deps,
            deps.0.monotonic_seq@.len(),
        ).closed);
    }
}

/// [`Bars`] joins the two accumulators and draws for all three.
impl<const MS: u64, V: Scalar + 'static> ObservedRun<V> for Volumes<MS, V> {
    type Pre = Pointwise<V>;

    open spec fn fidelity_spec() -> Fidelity {
        Close::claim()
    }

    open spec fn plots_spec() -> Seq<Plot> {
        Seq::empty()
    }

    open spec fn captures<'t>(
        &self,
        want: Want,
        deps: (TradeCols<'t>, ()),
        pre: Pointwise<V>,
    ) -> bool {
        crate::kernel::capture_view(pre.0) == Close::capture::<V, (TradeCols<'t>, ()), Self>(
            *self,
            want,
            deps,
        )
    }

    fn fidelity() -> (r: Fidelity) {
        Close::fidelity()
    }

    fn plots() -> (r: &'static [Plot])
        ensures
            hang_together(r@, <Volume<V> as Flat<V>>::dims_spec()),
    {
        &[]
    }

    fn pre<'t>(&self, want: Want, deps: &(TradeCols<'t>, ())) -> (r: Pointwise<V>) {
        proof {
            self.lemma_sound(deps.0);
        }
        Pointwise(Close::pre::<V, (TradeCols<'t>, ()), Self>(self, want, deps))
    }
}

/// Stateless: both accumulators close a period on the same trade, so the join is this tick's two
/// batches zipped.
pub struct Bars<const MS: u64, V>(pub PhantomData<V>);

impl<const MS: u64, V: Scalar + 'static> Cell for Bars<MS, V> {
    type Out<'t> = &'t [Bar<V>];

    type Gates = No;

    open spec fn label() -> Seq<char> {
        "Bar:"@ + timeframe_text(Timeframe(MS))
    }

    open spec fn nameable() -> bool {
        MS != 0 && encode_utf8(Self::label()).len() <= TAG_CAP
    }

    open spec fn facts_spec() -> Facts {
        Facts { clock: Some(Timeframe(MS)), ..Facts::plain() }
    }

    open spec fn permits<'t>(out: &'t [Bar<V>]) -> bool {
        true
    }

    fn name() -> (r: String) {
        named("Bar:", Timeframe(MS))
    }

    fn facts() -> (r: Facts) {
        Facts::bare().clocked(Timeframe(MS))
    }

    fn opens<'t>(out: &'t [Bar<V>]) -> (r: bool) {
        true
    }
}

impl<const MS: u64, V: Scalar + 'static> Series for Bars<MS, V> {
    type Item = Bar<V>;

    type Batch = Rows<Bar<V>>;
}

/// Whether two runs are one period's each, element by element: the two accumulators walk one boundary.
pub open spec fn in_step<V>(ohlc: Seq<Ohlc<V>>, vol: Seq<Volume<V>>) -> bool {
    &&& ohlc.len() == vol.len()
    &&& forall|i: int|
        0 <= i < ohlc.len() ==> (#[trigger] ohlc[i]).ts_close@ == vol[i].ts_close@
}

/// A period's price and its volume, side by side.
pub open spec fn join_reading<V: Scalar>(ohlc: Seq<Ohlc<V>>, vol: Seq<Volume<V>>, i: int) -> Reading<V> {
    let lag = (ohlc.len() - 1 - i) as usize;
    Reading {
        ts: ohlc[i].ts_close.0,
        slots: ohlc[i].slots() + vol[i].slots(),
        sources: seq![
            Source::Dep { dep: 0, lag, slot: 0 },
            Source::Dep { dep: 0, lag, slot: 1 },
            Source::Dep { dep: 0, lag, slot: 2 },
            Source::Dep { dep: 0, lag, slot: 3 },
            Source::Dep { dep: 1, lag, slot: 0 },
        ],
    }
}

impl<'a, 'b, const MS: u64, V: Scalar> Reads<V, (&'a [Ohlc<V>], (&'b [Volume<V>], ()))> for Bars<MS, V> {
    open spec fn lead(deps: (&'a [Ohlc<V>], (&'b [Volume<V>], ()))) -> nat {
        deps.0@.len()
    }

    open spec fn readable(deps: (&'a [Ohlc<V>], (&'b [Volume<V>], ()))) -> bool {
        in_step(deps.0@, deps.1.0@)
    }

    open spec fn reading(deps: (&'a [Ohlc<V>], (&'b [Volume<V>], ())), i: int) -> Option<Reading<V>> {
        Some(join_reading(deps.0@, deps.1.0@, i))
    }

    fn lead_fires(deps: &(&'a [Ohlc<V>], (&'b [Volume<V>], ()))) -> (r: usize) {
        deps.0.len()
    }

    fn read<W: Witness>(
        deps: &(&'a [Ohlc<V>], (&'b [Volume<V>], ())),
        i: usize,
        env: &mut Env<V, W>,
    ) -> (r: Option<i64>) {
        let ghost saw = env.sees();
        let (ohlc, vol): (&'a [Ohlc<V>], &'b [Volume<V>]) = (deps.0, deps.1.0);
        let size: usize = ohlc.len();
        match (ohlc.at(i), vol.at(i)) {
            (Some((o, o_lag)), Some((v, v_lag))) => {
                env.dep(0).lag(o_lag).put(o);
                let ghost mid = env.sees();
                env.dep(1).lag(v_lag).put(v);
                proof {
                    let x = join_reading(ohlc@, vol@, i as int);
                    assert(env.values() =~= x.slots);
                    if let Some(s) = saw {
                        let m = mid->Some_0;
                        lemma_sourced(s, 0, 4, Some((0usize, o_lag, 0usize)));
                        lemma_sourced(m, 4, 1, Some((1usize, v_lag, 0usize)));
                        let now = env.sees()->Some_0;
                        assert(now.take(5) =~= x.sources);
                    }
                }
                Some(o.ts_ns())
            },
            _ => None,
        }
    }
}

impl<'a, 'b, const MS: u64, V: Scalar> Scans<V, (&'a [Ohlc<V>], (&'b [Volume<V>], ()))> for Bars<MS, V> {
    type Item = Bar<V>;

    type Body = (Ex<Var<0>>, Ex<Var<1>>, Ex<Var<2>>, Ex<Var<3>>, Ex<Var<4>>);

    open spec fn body_spec(&self) -> Self::Body {
        (Ex(Var), Ex(Var), Ex(Var), Ex(Var), Ex(Var))
    }

    fn body(&self) -> (r: Self::Body) {
        let v: Vars = Vars;
        (v.get::<0>(), v.get::<1>(), v.get::<2>(), v.get::<3>(), v.get::<4>())
    }
}

/// A period's bar: its price and its volume.
pub open spec fn joined<V>(o: Ohlc<V>, v: Volume<V>) -> Bar<V> {
    Bar {
        ts_close: o.ts_close,
        open: o.open,
        high: o.high,
        low: o.low,
        close: o.close,
        vol_base: v.base,
    }
}

impl<const MS: u64, V: Scalar> Bars<MS, V> {
    proof fn lemma_sound<'t>(&self, deps: (&'t [Ohlc<V>], (&'t [Volume<V>], ())))
        requires
            in_step(deps.0@, deps.1.0@),
        ensures
            Scan::sound::<V, (&'t [Ohlc<V>], (&'t [Volume<V>], ())), Self>(*self, deps),
    {
        reveal_with_fuel(crate::ast::lowerable, 2);
        let body = <Self as Scans<V, (&'t [Ohlc<V>], (&'t [Volume<V>], ()))>>::body_spec(self);
        assert(all_lowerable::<V>(body.slot_trees()));
    }
}

impl<const MS: u64, V: Scalar + 'static> Emit for Bars<MS, V> {
    /// Both deps drive, at one rate, which is what makes element `i` of the second dep its newest
    /// exactly when element `i` of the first is.
    type Deps = (Ohlcs<MS, V>, (Volumes<MS, V>, ()));

    open spec fn can_emit<'t>(&self, deps: (&'t [Ohlc<V>], (&'t [Volume<V>], ()))) -> bool {
        in_step(deps.0@, deps.1.0@)
    }

    open spec fn emits<'t>(
        &self,
        deps: (&'t [Ohlc<V>], (&'t [Volume<V>], ())),
        after: &Self,
        run: Seq<Bar<V>>,
    ) -> bool {
        &&& run == Seq::new(deps.0@.len(), |i: int| joined(deps.0@[i], deps.1.0@[i]))
        &&& *after == *self
    }

    fn emit<'t>(&mut self, deps: (&'t [Ohlc<V>], (&'t [Volume<V>], ())), out: &mut Vec<Bar<V>>) {
        proof {
            self.lemma_sound(deps);
        }
        Scan::emit::<V, (&'t [Ohlc<V>], (&'t [Volume<V>], ())), Self>(self, &deps, out);
        proof {
            let run = Seq::new(deps.0@.len(), |i: int| joined(deps.0@[i], deps.1.0@[i]));
            assert forall|i: int| 0 <= i < run.len() implies out@[i] == run[i] by {
                let x = join_reading(deps.0@, deps.1.0@, i);
                assert(x.slots.len() == 5);
            }
            assert(out@ =~= run);
        }
    }
}

/// How bars are drawn.
pub open spec fn candles() -> Plot {
    Plot {
        slots: slice_of(seq![0usize, 1, 2, 3]),
        labels: slice_of(Seq::empty()),
        overlay: true,
        solo: false,
        bars: false,
        candles: true,
    }
}

/// Candles are the ground every overlay is read against; the volume slot goes undrawn, since a
/// histogram of it would claim a pane of its own.
impl<const MS: u64, V: Scalar + 'static> ObservedRun<V> for Bars<MS, V> {
    type Pre = Scanned<V, Self>;

    open spec fn fidelity_spec() -> Fidelity {
        Scan::claim()
    }

    open spec fn plots_spec() -> Seq<Plot> {
        seq![candles()]
    }

    open spec fn captures<'t>(
        &self,
        want: Want,
        deps: (&'t [Ohlc<V>], (&'t [Volume<V>], ())),
        pre: Scanned<V, Self>,
    ) -> bool {
        crate::kernel::capture_view(pre.0) == Scan::capture::<
            V,
            (&'t [Ohlc<V>], (&'t [Volume<V>], ())),
            Self,
        >(*self, want, deps)
    }

    fn fidelity() -> (r: Fidelity) {
        Scan::fidelity()
    }

    fn plots() -> (r: &'static [Plot])
        ensures
            hang_together(r@, <Bar<V> as Flat<V>>::dims_spec()),
    {
        let r: &'static [Plot] = &[Plot {
            slots: &[0, 1, 2, 3],
            labels: &[],
            overlay: true,
            solo: false,
            bars: false,
            candles: true,
        }];
        proof {
            assert(r[0].slots@ =~= seq![0usize, 1, 2, 3]);
            assert(r[0].labels@ =~= Seq::empty());
            lemma_slice_of(r[0].slots);
            lemma_slice_of(r[0].labels);
            assert(r@ =~= seq![candles()]);
        }
        r
    }

    fn pre<'t>(&self, want: Want, deps: &(&'t [Ohlc<V>], (&'t [Volume<V>], ()))) -> (r: Scanned<
        V,
        Self,
    >) {
        proof {
            self.lemma_sound(*deps);
        }
        Scanned(
            Scan::pre::<V, (&'t [Ohlc<V>], (&'t [Volume<V>], ())), Self>(self, want, deps),
            PhantomData,
        )
    }
}

/// The two accumulators close a period on the same trade: fed the same trades from the same boundary,
/// they publish as many periods, stamped alike, and stand at the same boundary after. So their runs
/// are always ones [`Bars`] can join.
pub proof fn the_two_accumulators_walk_one_boundary<'t, const MS: u64, V: Scalar>(
    ohlcs: Ohlcs<MS, V>,
    volumes: Volumes<MS, V>,
    trades: TradeCols<'t>,
    n: nat,
)
    requires
        ohlcs.pending@.live == volumes.pending@.live,
        ohlcs.pending@.live ==> ohlcs.pending@.ts_close == volumes.pending@.ts_close,
    ensures
        ({
            let p = Close::walk::<V, (TradeCols<'t>, ()), Ohlcs<MS, V>>(ohlcs, (trades, ()), n);
            let q = Close::walk::<V, (TradeCols<'t>, ()), Volumes<MS, V>>(volumes, (trades, ()), n);
            &&& in_step(p.closed, q.closed)
            &&& p.pending.live == q.pending.live
            &&& p.pending.live ==> p.pending.ts_close == q.pending.ts_close
        }),
    decreases n,
{
    if n > 0 {
        the_two_accumulators_walk_one_boundary(ohlcs, volumes, trades, (n - 1) as nat);
    }
}

} // verus!
