//! The boundary with `jiff`: nanoseconds since the Unix epoch to its instants and back.

use vstd::prelude::*;

verus! {

/// The instant type of `jiff`, carried through opaquely.
#[verifier::external_type_specification]
#[verifier::external_body]
pub struct ExTimestamp(jiff::Timestamp);

/// The first nanosecond `jiff` represents, `Timestamp::MIN`.
pub open spec fn first_nano() -> int {
    -377_705_023_201_000_000_000int
}

/// The last nanosecond `jiff` represents, `Timestamp::MAX`.
pub open spec fn last_nano() -> int {
    253_402_207_200_999_999_999int
}

/// What `jiff::Timestamp::from_nanosecond` gives back for a nanosecond it represents.
pub uninterp spec fn instant_at(nanos: int) -> jiff::Timestamp;

/// What `jiff`'s `Display` writes of the instant at a nanosecond.
pub uninterp spec fn instant_text_at(nanos: int) -> Seq<char>;

/// The nanosecond an instant stands at: the only one in range that leads to it.
pub open spec fn nanos_of(t: jiff::Timestamp) -> int {
    choose|n: int| first_nano() <= n <= last_nano() && t == #[trigger] instant_at(n)
}

/// `jiff::Timestamp::from_nanosecond`, which succeeds on everything between `Timestamp::MIN` and
/// `Timestamp::MAX`; every `i64` of nanoseconds lies between the two. No other nanosecond leads to
/// the same instant.
#[verifier::external_body]
pub(crate) fn instant(nanos: i64) -> (t: jiff::Timestamp)
    ensures
        t == instant_at(nanos as int),
        nanos_of(t) == nanos,
{
    jiff::Timestamp::from_nanosecond(nanos as i128).expect("i64 nanos are always in jiff's range")
}

/// `jiff::Timestamp::as_nanosecond`, the inverse of `from_nanosecond`: the nanosecond it returns
/// lies in range and is the one that leads to the instant.
#[verifier::external_body]
pub(crate) fn nanos(t: jiff::Timestamp) -> (n: i128)
    ensures
        first_nano() <= n <= last_nano(),
        t == instant_at(n as int),
        n == nanos_of(t),
{
    t.as_nanosecond()
}

/// `jiff::Timestamp`'s `Display`, which is told by the nanosecond the instant stands at. What it writes
/// goes unsaid.
#[verifier::external_body]
pub(crate) fn instant_text(t: jiff::Timestamp) -> (s: String)
    ensures
        s@ == instant_text_at(nanos_of(t)),
{
    format!("{}", t)
}

/// The `core::time::Duration` of so many nanoseconds.
pub uninterp spec fn duration_of(nanos: int) -> core::time::Duration;

/// The nanoseconds a duration counts: the only number of them that makes it up.
pub open spec fn nanos_in(d: core::time::Duration) -> int {
    choose|n: int| 0 <= n <= u128::MAX && d == #[trigger] duration_of(n)
}

/// `core::time::Duration::as_nanos`: the number of nanoseconds a duration counts, which no other
/// number makes up.
#[verifier::external_body]
pub(crate) fn counted(d: core::time::Duration) -> (n: u128)
    ensures
        d == duration_of(n as int),
        n == nanos_in(d),
{
    d.as_nanos()
}

} // verus!
