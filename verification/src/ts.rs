//! Every timestamp is a pair: **who read the clock**, and **what they were doing when they read
//! it**. The actor is the type parameter, the action is the field name.
//!
//! Three actions: `exec_at` (this actor is the origin of the fact), `send` (put it on the wire),
//! `recv` (took it off the wire).

use core::cmp::Ordering;
use core::marker::PhantomData;
use vstd::prelude::*;
use vstd::std_specs::cmp::PartialEqSpecImpl;
use vstd::std_specs::cmp::PartialOrdSpecImpl;
use vstd::std_specs::convert::FromSpec;
use vstd::std_specs::convert::FromSpecImpl;
use vstd::std_specs::ops::AddSpecImpl;
use vstd::std_specs::ops::SubSpecImpl;

use crate::instant;

verus! {

/// Our own process.
#[derive(Clone, Copy, Debug, Eq, Hash, Ord, PartialEq, PartialOrd, Structural)]
pub struct Local;

/// The exchange a fact originates from.
#[derive(Clone, Copy, Debug, Eq, Hash, Ord, PartialEq, PartialOrd, Structural)]
pub struct Venue;

/// A party that relays facts it did not originate.
#[derive(Clone, Copy, Debug, Eq, Hash, Ord, PartialEq, PartialOrd, Structural)]
pub struct Vendor;

/// Nanoseconds since the Unix epoch, tagged with the actor whose clock produced it.
#[derive(Debug, Hash)]
pub struct Ts<A>(pub i64, pub PhantomData<A>);

/// How two nanosecond counts compare.
pub open spec fn order_of(a: int, b: int) -> Ordering {
    if a < b {
        Ordering::Less
    } else if a == b {
        Ordering::Equal
    } else {
        Ordering::Greater
    }
}

impl<A> Copy for Ts<A> {

}

impl<A> Clone for Ts<A> {
    fn clone(&self) -> (r: Self)
        ensures
            r == *self,
    {
        *self
    }
}

impl<A> Default for Ts<A> {
    fn default() -> (r: Self)
        ensures
            r.0 == 0,
    {
        Ts(0, PhantomData)
    }
}

impl<A> PartialEqSpecImpl for Ts<A> {
    open spec fn obeys_eq_spec() -> bool {
        true
    }

    open spec fn eq_spec(&self, other: &Self) -> bool {
        self.0 == other.0
    }
}

impl<A> PartialEq for Ts<A> {
    fn eq(&self, other: &Self) -> (r: bool) {
        self.0 == other.0
    }
}

impl<A> Eq for Ts<A> {

}

impl<A> PartialOrdSpecImpl for Ts<A> {
    open spec fn obeys_partial_cmp_spec() -> bool {
        true
    }

    open spec fn partial_cmp_spec(&self, other: &Self) -> Option<Ordering> {
        Some(order_of(self@, other@))
    }
}

impl<A> PartialOrd for Ts<A> {
    fn partial_cmp(&self, other: &Self) -> (r: Option<Ordering>) {
        if self.0 < other.0 {
            Some(Ordering::Less)
        } else if self.0 == other.0 {
            Some(Ordering::Equal)
        } else {
            Some(Ordering::Greater)
        }
    }
}

impl<A> View for Ts<A> {
    type V = int;

    open spec fn view(&self) -> int {
        self.0 as int
    }
}

impl<A> Ts<A> {
    pub fn max_value() -> (r: Self)
        ensures
            r@ == i64::MAX,
    {
        Ts(i64::MAX, PhantomData)
    }

    pub fn min_value() -> (r: Self)
        ensures
            r@ == i64::MIN,
    {
        Ts(i64::MIN, PhantomData)
    }

    pub fn from_nanos(nanos: i64) -> (r: Self)
        ensures
            r@ == nanos,
    {
        Ts(nanos, PhantomData)
    }

    pub fn as_nanos(self) -> (r: i64)
        ensures
            r == self@,
    {
        self.0
    }

    /// The instant, which converts back to this reading.
    pub fn to_jiff(self) -> (t: jiff::Timestamp)
        ensures
            t == instant::instant_at(self@),
            <Self as FromSpec<jiff::Timestamp>>::from_spec(t)@ == self@,
    {
        instant::instant(self.0)
    }

    /// The instant as `jiff` spells it, which is how a reading is shown.
    pub fn text(self) -> (s: String)
        ensures
            s@ == instant::instant_text_at(self@),
    {
        instant::instant_text(instant::instant(self.0))
    }

    /// Round down to a multiple of `step`, measured from the epoch.
    pub fn floor(self, step: Exact) -> (r: Self)
        requires
            step@ > 0,
            self@ - self@ % step@ >= i64::MIN,
        ensures
            r@ == self@ - self@ % step@,
    {
        let rem: i64 = self.0.checked_rem_euclid(step.0).unwrap();
        Ts(self.0 - rem, PhantomData)
    }
}

impl<A> FromSpecImpl<jiff::Timestamp> for Ts<A> {
    open spec fn obeys_from_spec() -> bool {
        true
    }

    open spec fn from_spec(t: jiff::Timestamp) -> Self {
        Ts(instant::nanos_of(t) as i64, PhantomData)
    }
}

impl<A> From<jiff::Timestamp> for Ts<A> {
    fn from(t: jiff::Timestamp) -> (r: Self) {
        let n: i128 = instant::nanos(t);
        Ts(#[verifier::truncate] (n as i64), PhantomData)
    }
}

/// Weaver ordering key. Monotonic **by construction**, not by measurement: when events arrive
/// faster than the clock resolves, it is the previous key plus one. So it is deliberately not
/// subtractable: the gap between two arrivals is not an elapsed duration.
#[derive(Clone, Copy, Debug, Eq, Hash, Ord, PartialEq, PartialOrd, Structural)]
pub struct Arrival(pub i64);

impl View for Arrival {
    type V = int;

    open spec fn view(&self) -> int {
        self.0 as int
    }
}

impl Default for Arrival {
    fn default() -> (r: Self)
        ensures
            r@ == 0,
    {
        Arrival(0)
    }
}

impl Arrival {
    pub fn min_value() -> (r: Self)
        ensures
            r@ == i64::MIN,
    {
        Arrival(i64::MIN)
    }

    pub fn from_nanos(nanos: i64) -> (r: Self)
        ensures
            r@ == nanos,
    {
        Arrival(nanos)
    }

    pub fn as_nanos(self) -> (r: i64)
        ensures
            r == self@,
    {
        self.0
    }
}

/// Same-actor difference: one clock read twice, so no skew term.
#[derive(Clone, Copy, Debug, Eq, Hash, Ord, PartialEq, PartialOrd, Structural)]
pub struct Exact(pub i64);

impl View for Exact {
    type V = int;

    open spec fn view(&self) -> int {
        self.0 as int
    }
}

impl Default for Exact {
    fn default() -> (r: Self)
        ensures
            r@ == 0,
    {
        Exact(0)
    }
}

impl Exact {
    pub fn from_nanos(nanos: i64) -> (r: Self)
        ensures
            r@ == nanos,
    {
        Exact(nanos)
    }

    pub fn as_nanos(self) -> (r: i64)
        ensures
            r == self@,
    {
        self.0
    }
}

impl FromSpecImpl<core::time::Duration> for Exact {
    open spec fn obeys_from_spec() -> bool {
        true
    }

    /// As many nanoseconds as the duration counts, wrapped where they are past a machine integer.
    open spec fn from_spec(d: core::time::Duration) -> Exact {
        Exact(instant::nanos_in(d) as u128 as i64)
    }
}

impl From<core::time::Duration> for Exact {
    fn from(d: core::time::Duration) -> (r: Exact) {
        Exact(
            #[verifier::truncate]
            (instant::counted(d) as i64),
        )
    }
}

/// A cross-actor quantity: two clocks, so the true value is only known to lie in `[lo, hi]`.
#[derive(Clone, Copy, Debug, Eq, PartialEq, Structural)]
pub struct Bounded {
    pub lo: i64,
    pub hi: i64,
}

impl<A> SubSpecImpl for Ts<A> {
    open spec fn obeys_sub_spec() -> bool {
        true
    }

    open spec fn sub_req(self, rhs: Self) -> bool {
        i64::MIN <= self@ - rhs@ <= i64::MAX
    }

    open spec fn sub_spec(self, rhs: Self) -> Exact {
        Exact((self@ - rhs@) as i64)
    }
}

/// Readings of one actor subtract; a cross-actor difference would be contaminated by clock skew,
/// so there is none.
impl<A> core::ops::Sub for Ts<A> {
    type Output = Exact;

    fn sub(self, rhs: Self) -> (r: Exact) {
        Exact(self.0 - rhs.0)
    }
}

impl<A> AddSpecImpl<Exact> for Ts<A> {
    open spec fn obeys_add_spec() -> bool {
        true
    }

    open spec fn add_req(self, rhs: Exact) -> bool {
        i64::MIN <= self@ + rhs@ <= i64::MAX
    }

    open spec fn add_spec(self, rhs: Exact) -> Self {
        Ts((self@ + rhs@) as i64, PhantomData)
    }
}

impl<A> core::ops::Add<Exact> for Ts<A> {
    type Output = Self;

    fn add(self, rhs: Exact) -> (r: Self) {
        Ts(self.0 + rhs.0, PhantomData)
    }
}

impl<A> SubSpecImpl<Exact> for Ts<A> {
    open spec fn obeys_sub_spec() -> bool {
        true
    }

    open spec fn sub_req(self, rhs: Exact) -> bool {
        i64::MIN <= self@ - rhs@ <= i64::MAX
    }

    open spec fn sub_spec(self, rhs: Exact) -> Self {
        Ts((self@ - rhs@) as i64, PhantomData)
    }
}

impl<A> core::ops::Sub<Exact> for Ts<A> {
    type Output = Self;

    fn sub(self, rhs: Exact) -> (r: Self) {
        Ts(self.0 - rhs.0, PhantomData)
    }
}

/// The window one actor's readings of a folded object span. `first` is the start of the **current
/// accumulation epoch**: it resets on resync, it is not "when the object was allocated".
#[derive(Debug)]
pub struct Span<A> {
    pub first: Ts<A>,
    pub last: Ts<A>,
}

impl<A> Copy for Span<A> {

}

impl<A> Clone for Span<A> {
    fn clone(&self) -> (r: Self)
        ensures
            r == *self,
    {
        *self
    }
}

impl<A> Default for Span<A> {
    fn default() -> (r: Self)
        ensures
            r@ == (0int, 0int),
    {
        Span { first: Ts::default(), last: Ts::default() }
    }
}

impl<A> PartialEqSpecImpl for Span<A> {
    open spec fn obeys_eq_spec() -> bool {
        true
    }

    open spec fn eq_spec(&self, other: &Self) -> bool {
        self@ == other@
    }
}

impl<A> PartialEq for Span<A> {
    fn eq(&self, other: &Self) -> (r: bool) {
        self.first.0 == other.first.0 && self.last.0 == other.last.0
    }
}

impl<A> Eq for Span<A> {

}

impl<A> View for Span<A> {
    type V = (int, int);

    open spec fn view(&self) -> (int, int) {
        (self.first@, self.last@)
    }
}

/// The window that covers two windows.
pub open spec fn cover(a: (int, int), b: (int, int)) -> (int, int) {
    (if a.0 <= b.0 { a.0 } else { b.0 }, if a.1 >= b.1 { a.1 } else { b.1 })
}

impl<A> Span<A> {
    pub fn new(first: Ts<A>, last: Ts<A>) -> (r: Self)
        requires
            first@ <= last@,
        ensures
            r@ == (first@, last@),
    {
        Span { first, last }
    }

    /// A single reading is the degenerate span.
    pub fn at(t: Ts<A>) -> (r: Self)
        ensures
            r@ == (t@, t@),
    {
        Span { first: t, last: t }
    }

    /// The smallest span holding both.
    pub fn including(self, other: Self) -> (r: Self)
        ensures
            r@ == cover(self@, other@),
    {
        let first = if self.first.0 <= other.first.0 { self.first } else { other.first };
        let last = if self.last.0 >= other.last.0 { self.last } else { other.last };
        Span { first, last }
    }
}

/// What a folded object's readings look like: one span per actor.
///
/// `local` is absent for anything reconstructed from historic storage: we were not there when it
/// arrived, and epoch-0 would be a fabrication rather than a missing value.
#[derive(Clone, Copy, Debug)]
pub struct Accumulator {
    pub venue: Span<Venue>,
    pub local: Option<Span<Local>>,
}

impl Default for Accumulator {
    fn default() -> (r: Self)
        ensures
            r.venue@ == (0int, 0int),
            r.local is None,
    {
        Accumulator { venue: Span::default(), local: None }
    }
}

/// The two windows of an object folded from received messages.
#[derive(Clone, Copy, Debug)]
pub struct Aggregate {
    pub venue_exec: Span<Venue>,
    pub local_recv: Span<Local>,
}

impl Default for Aggregate {
    fn default() -> (r: Self)
        ensures
            r.venue_exec@ == (0int, 0int),
            r.local_recv@ == (0int, 0int),
    {
        Aggregate { venue_exec: Span::default(), local_recv: Span::default() }
    }
}

/// Transmitted it, but not attested as its origin, so no `exec_at`. Covers a relaying vendor and a
/// venue that reports only an envelope time.
///
/// `recv` is absent for a static endpoint pulled on demand: the reading we'd record is when the
/// download landed, which says nothing about the fact and is not a wire arrival.
#[derive(Clone, Copy, Debug)]
pub struct Relay<From, To> {
    pub send: Ts<From>,
    pub recv: Option<Ts<To>>,
}

/// The origin acts, then sends; the destination receives. [`Relay`] plus an attested origin.
#[derive(Clone, Copy, Debug)]
pub struct Leg<From, To> {
    pub exec_at: Ts<From>,
    pub send: Ts<From>,
    pub recv: Ts<To>,
}

pub type External = Leg<Venue, Local>;

pub type Outbound = Leg<Local, Venue>;

#[derive(Clone, Copy, Debug)]
pub struct RoundTrip {
    pub out: Outbound,
    pub back: External,
}

/// The weaker bound: it crossed a wire. Generic code bounds on this and accepts either shape; code
/// that needs origin attestation takes [`Leg`] concretely and a [`Relay`] will not compile.
pub trait Wire<F, T> {
    open spec fn sent(&self) -> Ts<F> {
        arbitrary()
    }

    open spec fn received(&self) -> Option<Ts<T>> {
        arbitrary()
    }

    fn send(&self) -> (r: Ts<F>)
        ensures
            r == self.sent(),
    ;

    fn recv(&self) -> (r: Option<Ts<T>>)
        ensures
            r == self.received(),
    ;
}

impl<F, T> Wire<F, T> for Relay<F, T> {
    open spec fn sent(&self) -> Ts<F> {
        self.send
    }

    open spec fn received(&self) -> Option<Ts<T>> {
        self.recv
    }

    fn send(&self) -> (r: Ts<F>) {
        self.send
    }

    fn recv(&self) -> (r: Option<Ts<T>>) {
        self.recv
    }
}

impl<F, T> Wire<F, T> for Leg<F, T> {
    open spec fn sent(&self) -> Ts<F> {
        self.send
    }

    open spec fn received(&self) -> Option<Ts<T>> {
        Some(self.recv)
    }

    fn send(&self) -> (r: Ts<F>) {
        self.send
    }

    fn recv(&self) -> (r: Option<Ts<T>>) {
        Some(self.recv)
    }
}

/// Boundary view for serialisation, logging and inspection. Objects keep their concrete shape;
/// this is what they flatten to when something generic has to look at them.
#[derive(Clone, Copy, Debug)]
pub enum Timestamps {
    Relay(Relay<Venue, Local>),
    External(External),
    Accumulator(Accumulator),
    RoundTrip(RoundTrip),
    /// We are the origin and nothing crossed a wire.
    Origin(Ts<Local>),
}

/// Whatever can say when it happened.
pub trait Timestamped {
    /// Whether the readings can be given.
    open spec fn stamped(&self) -> bool {
        arbitrary()
    }

    /// What the readings are.
    open spec fn stamps(&self, r: Timestamps) -> bool {
        arbitrary()
    }

    fn timestamps(&self) -> (r: Timestamps)
        requires
            self.stamped(),
        ensures
            self.stamps(r),
    ;
}

/// How far a remote clock runs ahead of ours, and how well we know it.
#[derive(Debug)]
pub struct Offset<A> {
    pub est: Exact,
    pub uncertainty: Exact,
    pub actor: PhantomData<A>,
}

impl<A> Copy for Offset<A> {

}

impl<A> Clone for Offset<A> {
    fn clone(&self) -> (r: Self)
        ensures
            r == *self,
    {
        *self
    }
}

/// Half of `n`, rounded towards zero.
pub open spec fn half(n: int) -> int {
    if n >= 0 {
        n / 2
    } else {
        -((-n) / 2)
    }
}

/// Half of `n`, rounded up.
pub open spec fn half_up(n: int) -> int {
    (n + 1) / 2
}

/// How far the venue's clock is ahead of ours by the two legs of a round trip, doubled.
pub open spec fn twice_ahead(t1: int, t2: int, t3: int, t4: int) -> int {
    (t2 - t1) + (t3 - t4)
}

/// The time a round trip spent on the wire.
pub open spec fn wire_time(t1: int, t2: int, t3: int, t4: int) -> int {
    (t4 - t1) - (t3 - t2)
}

/// Whether every intermediate of the estimate is a count of nanoseconds that fits.
pub open spec fn trip_fits(t1: int, t2: int, t3: int, t4: int) -> bool {
    &&& i64::MIN <= t4 - t1 <= i64::MAX
    &&& i64::MIN <= t3 - t2 <= i64::MAX
    &&& i64::MIN <= t2 - t1 <= i64::MAX
    &&& i64::MIN <= t3 - t4 <= i64::MAX
    &&& i64::MIN <= twice_ahead(t1, t2, t3, t4) <= i64::MAX
    &&& i64::MIN <= wire_time(t1, t2, t3, t4) <= i64::MAX
}

/// NTP's estimator. The two `recv - send` terms straddle actors, which is exactly why this is the
/// one place that touches raw nanos and the only thing that can mint an [`Offset`].
///
/// Half of an odd delay is rounded up into the uncertainty, so that the interval still covers what
/// halving took off the estimate.
pub fn offset(rt: &RoundTrip) -> (o: Offset<Venue>)
    requires
        rt.back.recv@ >= rt.out.send@,
        trip_fits(rt.out.send@, rt.out.recv@, rt.back.send@, rt.back.recv@),
    ensures
        o.est@ == half(twice_ahead(rt.out.send@, rt.out.recv@, rt.back.send@, rt.back.recv@)),
        o.uncertainty@ == half_up(
            wire_time(rt.out.send@, rt.out.recv@, rt.back.send@, rt.back.recv@),
        ),
{
    let (t1, t2): (i64, i64) = (rt.out.send.0, rt.out.recv.0);
    let (t3, t4): (i64, i64) = (rt.back.send.0, rt.back.recv.0);
    let delay: i64 = (t4 - t1) - (t3 - t2);
    let ahead: i64 = (t2 - t1) + (t3 - t4);
    let est: i64 = ahead.checked_div(2).unwrap();
    let floor: i64 = delay.checked_div_euclid(2).unwrap();
    let uncertainty: i64 = floor + (delay - 2 * floor);
    Offset { est: Exact(est), uncertainty: Exact(uncertainty), actor: PhantomData }
}

/// Project a venue reading onto our clock. The result is [`Bounded`], never a `Ts<Local>`: the
/// skew is estimated, and collapsing the interval would re-hide exactly what the estimate cost.
pub fn to_local(ts: Ts<Venue>, o: Offset<Venue>) -> (b: Bounded)
    requires
        i64::MIN <= ts@ - o.est@ <= i64::MAX,
        i64::MIN <= ts@ - o.est@ - o.uncertainty@ <= i64::MAX,
        i64::MIN <= ts@ - o.est@ + o.uncertainty@ <= i64::MAX,
    ensures
        b.lo == ts@ - o.est@ - o.uncertainty@,
        b.hi == ts@ - o.est@ + o.uncertainty@,
{
    let centre: i64 = ts.0 - o.est.0;
    Bounded { lo: centre - o.uncertainty.0, hi: centre + o.uncertainty.0 }
}

/// Rounding down buckets below: the floor is a multiple of the step, at most the reading, less
/// than a step behind it, and already its own floor.
pub proof fn floor_buckets_below(t: int, step: int)
    requires
        step > 0,
    ensures
        (t - t % step) % step == 0,
        t - t % step <= t,
        t - (t - t % step) < step,
        (t - t % step) - (t - t % step) % step == t - t % step,
{
    vstd::arithmetic::div_mod::lemma_fundamental_div_mod(t, step);
    vstd::arithmetic::div_mod::lemma_mod_multiples_basic(t / step, step);
    assert(t - t % step == (t / step) * step) by (nonlinear_arith)
        requires
            t == step * (t / step) + t % step,
    ;
    vstd::arithmetic::div_mod::lemma_mod_bound(t, step);
}

/// The estimate is sound: whatever the true skew and the two wire delays were, the local time of a
/// venue reading lies in the interval it is projected onto.
pub proof fn projection_holds_the_true_time(
    t1: int,
    skew: int,
    there: int,
    dwell: int,
    back: int,
    local: int,
)
    requires
        there >= 0,
        back >= 0,
    ensures
        ({
            let t2 = t1 + there + skew;
            let t3 = t2 + dwell;
            let t4 = t3 - skew + back;
            let est = half(twice_ahead(t1, t2, t3, t4));
            let uncertainty = half_up(wire_time(t1, t2, t3, t4));
            let reading = local + skew;
            reading - est - uncertainty <= local <= reading - est + uncertainty
        }),
{
}

} // verus!
