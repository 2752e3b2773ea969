//! Instants on the UTC time line.

use chrono::TimeZone;
use vstd::prelude::*;

verus! {

/// The first and the last second that a calendar date exists for.
pub const MIN_SECS: i64 = -8_334_601_228_800;

pub const MAX_SECS: i64 = 8_210_266_876_799;

/// The longest duration in whole seconds.
pub const MAX_DURATION_SECS: i64 = 9_223_372_036_854_775;

/// An instant: whole seconds since the epoch and nanoseconds within the second.
#[derive(Debug, Clone, Copy, PartialEq, Eq, Structural)]
pub struct Timestamp {
    pub secs: i64,
    pub nanos: u32,
}

pub open spec fn nanos_per_second() -> int {
    1_000_000_000
}

impl Timestamp {
    /// Nanoseconds since the epoch.
    pub open spec fn total(self) -> int {
        self.secs * nanos_per_second() + self.nanos
    }

    fn total_nanos(self) -> (r: i128)
        ensures
            r == self.total(),
            -0x8000_0000_0000_0000_0000_0000 < r < 0x8000_0000_0000_0000_0000_0000,
    {
        self.secs as i128 * 1_000_000_000 + self.nanos as i128
    }

    /// Nanoseconds from `earlier` to this instant.
    pub fn nanos_since(self, earlier: Timestamp) -> (r: i128)
        ensures
            r == self.total() - earlier.total(),
    {
        self.total_nanos() - earlier.total_nanos()
    }

    /// Whether this instant lies strictly before another.
    pub fn before(self, later: Timestamp) -> (r: bool)
        ensures
            r == (self.total() < later.total()),
    {
        self.total_nanos() < later.total_nanos()
    }

    pub open spec fn spec_plus_secs(self, secs: i64) -> Timestamp {
        Timestamp { secs: (self.secs + secs) as i64, nanos: self.nanos }
    }

    /// The instant a count of seconds later.
    #[verifier::when_used_as_spec(spec_plus_secs)]
    pub fn plus_secs(self, secs: i64) -> (r: Timestamp)
        requires
            i64::MIN <= self.secs + secs <= i64::MAX,
        ensures
            r == self.spec_plus_secs(secs),
            r.total() == self.total() + secs * nanos_per_second(),
    {
        Timestamp { secs: self.secs + secs, nanos: self.nanos }
    }

    /// Milliseconds since the epoch, rounded down.
    pub open spec fn millis(self) -> int {
        self.secs * 1000 + self.nanos as int / 1_000_000
    }

    /// Milliseconds since the epoch, rounded down.
    pub fn to_millis(self) -> (r: i128)
        ensures
            r == self.millis(),
    {
        self.secs as i128 * 1000 + (self.nanos / 1_000_000) as i128
    }
}

/// A length of time that is not negative.
#[derive(Debug, Clone, Copy, PartialEq, Eq, Structural)]
pub struct Span {
    pub nanos: u128,
}

impl Span {
    pub open spec fn secs(self) -> int {
        self.nanos as int / 1_000_000_000
    }

    pub fn from_secs(secs: u64) -> (r: Span)
        ensures
            r.nanos == secs * 1_000_000_000,
    {
        Span { nanos: secs as u128 * 1_000_000_000 }
    }

    pub fn from_millis(millis: u64) -> (r: Span)
        ensures
            r.nanos == millis * 1_000_000,
    {
        Span { nanos: millis as u128 * 1_000_000 }
    }
}

/// The wall clock in milliseconds since the epoch, 0 before it.
pub open spec fn wall_millis(now: Timestamp) -> u64 {
    if now.millis() < 0 {
        0
    } else {
        now.millis() as u64
    }
}

/// The wall clock in milliseconds since the epoch, 0 before it.
pub fn wall_millis_of(now: Timestamp) -> (r: u64)
    requires
        now.secs <= MAX_SECS,
    ensures
        r == wall_millis(now),
{
    let millis: i128 = now.to_millis();
    if millis < 0 {
        0
    } else {
        millis as u64
    }
}

/// The instant of a count of milliseconds, where a calendar date exists for it.
pub open spec fn instant_of_millis(millis: i64) -> Option<Timestamp> {
    let secs = millis as int / 1000;
    if MIN_SECS <= secs <= MAX_SECS {
        Some(Timestamp { secs: secs as i64, nanos: (millis as int % 1000 * 1_000_000) as u32 })
    } else {
        None
    }
}

/// `chrono::TimeZone::timestamp_millis_opt` on `Utc`: a date exists for the
/// years -262143 to 262142 and for no others; the seconds are rounded down and
/// the rest of the milliseconds become nanoseconds.
#[verifier::external_body]
pub(crate) fn utc_from_millis(millis: i64) -> (r: Option<Timestamp>)
    ensures
        r == instant_of_millis(millis),
{
    let instant = chrono::Utc.timestamp_millis_opt(millis).single();
    instant.map(|t| Timestamp { secs: t.timestamp(), nanos: t.timestamp_subsec_nanos() })
}

/// A millisecond is kept through an instant and back, and instants keep the
/// order of their milliseconds.
pub proof fn law_milliseconds_survive_an_instant(millis: i64, later: i64)
    requires
        0 <= millis <= later,
        instant_of_millis(later) is Some,
    ensures
        instant_of_millis(millis) is Some,
        wall_millis(instant_of_millis(millis)->0) == millis,
        instant_of_millis(millis)->0.total() == millis * 1_000_000,
        instant_of_millis(millis)->0.total() <= instant_of_millis(later)->0.total(),
{
    let t = instant_of_millis(later)->0;
    let r = later as int % 1000;
    assert(t.total() == later * 1_000_000);
    let s = millis as int % 1000;
    assert((s * 1_000_000) as u32 as int / 1_000_000 == s);
}

} // verus!
