//! Periods, and how far back a reader reaches.

use vstd::prelude::*;

verus! {

/// A period, as a number of milliseconds.
#[derive(Clone, Copy, Debug, Eq, Hash, Ord, PartialEq, PartialOrd, Structural)]
pub struct Timeframe(pub u64);

/// The unit a [`Timeframe`] is spelled in.
#[derive(Clone, Copy, Debug, Eq, PartialEq, Structural)]
pub enum TimeframeDesignator {
    Milliseconds,
    Seconds,
    Minutes,
    Hours,
    Days,
    Weeks,
    /// Thirty days.
    Months,
    /// Ninety days.
    Quarters,
    /// Three hundred and sixty-five days.
    Years,
}

impl TimeframeDesignator {
    /// The milliseconds in one of these.
    pub open spec fn millis(self) -> int {
        match self {
            TimeframeDesignator::Milliseconds => 1,
            TimeframeDesignator::Seconds => 1_000,
            TimeframeDesignator::Minutes => 60_000,
            TimeframeDesignator::Hours => 3_600_000,
            TimeframeDesignator::Days => 86_400_000,
            TimeframeDesignator::Weeks => 604_800_000,
            TimeframeDesignator::Months => 2_592_000_000,
            TimeframeDesignator::Quarters => 7_776_000_000,
            TimeframeDesignator::Years => 31_536_000_000,
        }
    }

    pub fn as_millis(&self) -> (r: u64)
        ensures
            r == self.millis(),
    {
        match self {
            TimeframeDesignator::Milliseconds => 1,
            TimeframeDesignator::Seconds => 1_000,
            TimeframeDesignator::Minutes => 60_000,
            TimeframeDesignator::Hours => 3_600_000,
            TimeframeDesignator::Days => 86_400_000,
            TimeframeDesignator::Weeks => 604_800_000,
            TimeframeDesignator::Months => 2_592_000_000,
            TimeframeDesignator::Quarters => 7_776_000_000,
            TimeframeDesignator::Years => 31_536_000_000,
        }
    }

    /// The letters it is spelled with. `m` is minutes and `M` months.
    pub open spec fn letters(self) -> Seq<char> {
        match self {
            TimeframeDesignator::Milliseconds => "ms"@,
            TimeframeDesignator::Seconds => "s"@,
            TimeframeDesignator::Minutes => "m"@,
            TimeframeDesignator::Hours => "h"@,
            TimeframeDesignator::Days => "d"@,
            TimeframeDesignator::Weeks => "w"@,
            TimeframeDesignator::Months => "M"@,
            TimeframeDesignator::Quarters => "Q"@,
            TimeframeDesignator::Years => "y"@,
        }
    }

    pub fn as_str(&self) -> (r: &'static str)
        ensures
            r@ == self.letters(),
    {
        match self {
            TimeframeDesignator::Milliseconds => "ms",
            TimeframeDesignator::Seconds => "s",
            TimeframeDesignator::Minutes => "m",
            TimeframeDesignator::Hours => "h",
            TimeframeDesignator::Days => "d",
            TimeframeDesignator::Weeks => "w",
            TimeframeDesignator::Months => "M",
            TimeframeDesignator::Quarters => "Q",
            TimeframeDesignator::Years => "y",
        }
    }
}

impl Timeframe {
    /// Whether `d` is a unit the period is a whole number of.
    pub open spec fn whole_in(self, d: TimeframeDesignator) -> bool {
        self.0 as int % d.millis() == 0
    }

    /// Whether `d` is the largest unit the period is a whole number of.
    pub open spec fn designated(self, d: TimeframeDesignator) -> bool {
        &&& self.whole_in(d)
        &&& forall|e: TimeframeDesignator| #[trigger] self.whole_in(e) ==> e.millis() <= d.millis()
    }

    /// The largest unit the period is a whole number of.
    pub fn designator(&self) -> (d: TimeframeDesignator)
        requires
            self.0 != 0,
        ensures
            self.designated(d),
    {
        if self.0 % 31_536_000_000 == 0 {
            TimeframeDesignator::Years
        } else if self.0 % 7_776_000_000 == 0 {
            TimeframeDesignator::Quarters
        } else if self.0 % 2_592_000_000 == 0 {
            TimeframeDesignator::Months
        } else if self.0 % 604_800_000 == 0 {
            TimeframeDesignator::Weeks
        } else if self.0 % 86_400_000 == 0 {
            TimeframeDesignator::Days
        } else if self.0 % 3_600_000 == 0 {
            TimeframeDesignator::Hours
        } else if self.0 % 60_000 == 0 {
            TimeframeDesignator::Minutes
        } else if self.0 % 1_000 == 0 {
            TimeframeDesignator::Seconds
        } else {
            TimeframeDesignator::Milliseconds
        }
    }
}

/// How far back a dep position reaches: nothing at all (a bare dep), the engine's retention, or the
/// consumer's own state. One vocabulary for all three, so the reach a node reads and the reach it
/// holds are stated the same way.
#[derive(Clone, Copy, Debug, Eq, PartialEq, Structural)]
pub enum Horizon {
    /// The current value only: no history at all.
    Unit,
    Elems(usize),
    /// A window of wall clock, stated as the timeframe it is: the unit travels with the number
    /// instead of being a convention the reader has to know.
    Over(Timeframe),
    /// Reaches to the start of the run: a recurrence or a running sum. Nothing recovers such a
    /// node, so it must advance every tick.
    Unbounded,
}

impl Horizon {
    /// Whether history retained at `self` serves a read at `req`.
    pub open spec fn spec_serves(self, req: Horizon) -> bool {
        match (self, req) {
            (Horizon::Elems(k), Horizon::Elems(j)) => k >= j,
            (Horizon::Over(k), Horizon::Over(j)) => k.0 >= j.0,
            (Horizon::Over(_), Horizon::Elems(_)) => true,
            _ => false,
        }
    }

    /// Whether history retained at `self` serves a read at `req`. A span serves any count: what it
    /// dropped is strictly older than anything it kept, so `n` elements ending at a retained one
    /// are either all present or the read declines. A count cannot promise a span.
    pub fn serves(self, req: Horizon) -> (r: bool)
        ensures
            r == self.spec_serves(req),
    {
        match (self, req) {
            (Horizon::Elems(k), Horizon::Elems(j)) => k >= j,
            (Horizon::Over(k), Horizon::Over(j)) => k.0 >= j.0,
            (Horizon::Over(_), Horizon::Elems(_)) => true,
            _ => false,
        }
    }

    /// How far a reach goes, nearest first: by kind, then by amount.
    pub open spec fn rank(self) -> (int, int) {
        match self {
            Horizon::Unit => (0, 0),
            Horizon::Elems(n) => (1, n as int),
            Horizon::Over(tf) => (2, tf.0 as int),
            Horizon::Unbounded => (3, 0),
        }
    }

    /// Whether `self` reaches at least as far as `other`.
    pub open spec fn covers(self, other: Horizon) -> bool {
        ||| self.rank().0 > other.rank().0
        ||| self.rank().0 == other.rank().0 && self.rank().1 >= other.rank().1
    }

    /// The further of two reaches.
    pub open spec fn spec_join(self, other: Horizon) -> Horizon {
        if self.covers(other) {
            self
        } else {
            other
        }
    }

    /// The reach that serves both: what one buffer must retain to satisfy every consumer of the
    /// series. A span outranks any count, which is why the four variants are totally ordered and a
    /// graph can never ask for two reaches that cannot be met at once.
    pub fn join(self, other: Horizon) -> (r: Horizon)
        ensures
            r == self.spec_join(other),
    {
        match (self, other) {
            (Horizon::Unbounded, _) => Horizon::Unbounded,
            (_, Horizon::Unbounded) => Horizon::Unbounded,
            (Horizon::Over(a), Horizon::Over(b)) => Horizon::Over(if a.0 >= b.0 { a } else { b }),
            (Horizon::Over(s), _) => Horizon::Over(s),
            (_, Horizon::Over(s)) => Horizon::Over(s),
            (Horizon::Elems(a), Horizon::Elems(b)) => Horizon::Elems(if a >= b { a } else { b }),
            (Horizon::Elems(k), Horizon::Unit) => Horizon::Elems(k),
            (Horizon::Unit, Horizon::Elems(k)) => Horizon::Elems(k),
            (Horizon::Unit, Horizon::Unit) => Horizon::Unit,
        }
    }

    /// The wall-clock depth this reach comes to against a producer publishing every `clock`: the
    /// direction warmup is measured in. What a replay must preload is a *duration*, and `Elems(n)`
    /// becomes one only once the producer's rate is known.
    pub fn span(self, clock: Timeframe) -> (r: Timeframe)
        requires
            self !is Unbounded,
            self matches Horizon::Elems(n) ==> clock.0 * n <= u64::MAX,
        ensures
            match self {
                Horizon::Unit => r == clock,
                Horizon::Elems(n) => r.0 == clock.0 * n,
                Horizon::Over(tf) => r == tf,
                Horizon::Unbounded => false,
            },
    {
        match self {
            Horizon::Unit => clock,
            Horizon::Elems(n) => Timeframe(clock.0 * n as u64),
            Horizon::Over(tf) => tf,
            Horizon::Unbounded => clock,
        }
    }

    /// A period in nanoseconds. Only a [`Horizon::Over`] has one; the caller has already matched the
    /// variant.
    pub fn ns(tf: Timeframe) -> (r: i64)
        requires
            tf.0 * 1_000_000 <= u64::MAX,
        ensures
            r == (tf.0 * 1_000_000) as i64,
    {
        #[verifier::truncate] ((tf.0 * 1_000_000) as i64)
    }
}

/// Joining is taking the further of two totally ordered reaches: it is commutative, associative and
/// idempotent.
pub proof fn join_is_a_least_upper_bound(a: Horizon, b: Horizon, c: Horizon)
    ensures
        a.spec_join(b).covers(a),
        a.spec_join(b).covers(b),
        c.covers(a) && c.covers(b) ==> c.covers(a.spec_join(b)),
        a.spec_join(a) == a,
        a.spec_join(b) == b.spec_join(a),
        a.spec_join(b).spec_join(c) == a.spec_join(b.spec_join(c)),
{
}

/// What is retained at the join of two retained reaches serves both of them.
pub proof fn join_serves_both(a: Horizon, b: Horizon)
    requires
        a is Elems || a is Over,
        b is Elems || b is Over,
    ensures
        a.spec_join(b).spec_serves(a),
        a.spec_join(b).spec_serves(b),
{
}

/// A reach in *dep* position, where [`Horizon`] is the same thing as a value: what the engine joins
/// and compares.
pub trait Reach {
    open spec fn reach() -> Horizon {
        arbitrary()
    }

    fn horizon() -> (r: Horizon)
        ensures
            r == Self::reach(),
    ;
}

/// A window of wall clock, in milliseconds: [`Horizon::Over`] as a type.
pub struct Over<const MS: u64>;

impl<const MS: u64> Reach for Over<MS> {
    open spec fn reach() -> Horizon {
        Horizon::Over(Timeframe(MS))
    }

    fn horizon() -> (r: Horizon) {
        Horizon::Over(Timeframe(MS))
    }
}

/// A count of elements: [`Horizon::Elems`] as a type.
pub struct Elems<const N: usize>;

impl<const N: usize> Reach for Elems<N> {
    open spec fn reach() -> Horizon {
        Horizon::Elems(N)
    }

    fn horizon() -> (r: Horizon) {
        Horizon::Elems(N)
    }
}

/// Reaches to the start of the run: [`Horizon::Unbounded`] as a type.
pub struct Unbounded;

impl Reach for Unbounded {
    open spec fn reach() -> Horizon {
        Horizon::Unbounded
    }

    fn horizon() -> (r: Horizon) {
        Horizon::Unbounded
    }
}

} // verus!
