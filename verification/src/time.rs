//! Spans of time, and the clock.

use std::time::{Instant, SystemTime};

use vstd::prelude::*;

verus! {

/// A moment of the monotonic clock.
#[verifier::external_type_specification]
#[verifier::external_body]
pub struct ExInstant(std::time::Instant);

/// A moment of the wall clock.
#[verifier::external_type_specification]
#[verifier::external_body]
pub struct ExSystemTime(std::time::SystemTime);

/// A span of time: whole seconds and a rest of less than a second.
#[derive(Clone, Copy, Debug, PartialEq, Eq, Structural)]
pub struct Duration {
    pub secs: u64,
    pub nanos: u32,
}

impl Duration {
    /// The span in nanoseconds.
    pub open spec fn total_nanos(&self) -> int {
        self.secs * 1_000_000_000 + self.nanos
    }

    /// A span of whole seconds.
    pub fn from_secs(secs: u64) -> (r: Duration)
        ensures
            r == (Duration { secs, nanos: 0 }),
    {
        Duration { secs, nanos: 0 }
    }

    /// A span of whole milliseconds.
    pub fn from_millis(millis: u64) -> (r: Duration)
        ensures
            r.total_nanos() == millis * 1_000_000,
            r.nanos < 1_000_000_000,
    {
        Duration { secs: millis / 1000, nanos: (millis % 1000) as u32 * 1_000_000 }
    }

    /// The whole seconds of the span.
    pub fn as_secs(&self) -> (r: u64)
        ensures
            r == self.secs,
    {
        self.secs
    }

    /// Whether this span is at least as long as `other`.
    pub fn at_least(&self, other: &Duration) -> (r: bool)
        requires
            self.nanos < 1_000_000_000,
            other.nanos < 1_000_000_000,
        ensures
            r == (self.total_nanos() >= other.total_nanos()),
    {
        self.secs > other.secs || (self.secs == other.secs && self.nanos >= other.nanos)
    }
}

/// `std::time::Instant::now`: the present moment of the monotonic clock. Nothing
/// is claimed of it.
#[verifier::external_body]
pub(crate) fn instant_now() -> Instant {
    Instant::now()
}

/// The nanoseconds from one moment of the monotonic clock to another, none where the other
/// comes first: what `std::time::Instant::saturating_duration_since` gives.
pub uninterp spec fn nanos_between(earlier: Instant, later: Instant) -> nat;

/// `std::time::Instant::saturating_duration_since`: the time from one moment to another,
/// which depends on the two moments alone. The rest is less than a second.
#[verifier::external_body]
fn span_between(earlier: &Instant, later: &Instant) -> (r: Duration)
    ensures
        r.total_nanos() == nanos_between(*earlier, *later),
        r.nanos < 1_000_000_000,
{
    let d = later.saturating_duration_since(*earlier);
    Duration { secs: d.as_secs(), nanos: d.subsec_nanos() }
}

/// The whole seconds from one moment to another.
pub open spec fn secs_between(earlier: Instant, later: Instant) -> nat {
    nanos_between(earlier, later) / 1_000_000_000
}

/// The time that has passed since a moment, by the monotonic clock.
pub(crate) fn elapsed_since(at: &Instant) -> (r: Duration)
    ensures
        r.nanos < 1_000_000_000,
        exists|now: Instant|
            r.total_nanos() == #[trigger] nanos_between(*at, now) && r.secs == secs_between(
                *at,
                now,
            ),
{
    let now = instant_now();
    let r = span_between(at, &now);
    assert(r.secs == secs_between(*at, now));
    r
}

/// `std::time::SystemTime::now`: the present moment of the wall clock. Nothing is
/// claimed of it.
#[verifier::external_body]
fn system_now() -> SystemTime {
    SystemTime::now()
}

/// The nanoseconds from the Unix epoch to a moment of the wall clock, if it is not before the
/// epoch: what `std::time::SystemTime::duration_since` gives.
pub uninterp spec fn nanos_since_epoch(at: SystemTime) -> Option<nat>;

/// `std::time::SystemTime::duration_since` the Unix epoch: `None` for a moment before the
/// epoch. It depends on the moment alone. The rest is less than a second.
#[verifier::external_body]
fn since_epoch(at: &SystemTime) -> (r: Option<Duration>)
    ensures
        match r {
            Some(d) => nanos_since_epoch(*at) == Some(d.total_nanos() as nat),
            None => nanos_since_epoch(*at) is None,
        },
        r matches Some(d) ==> d.nanos < 1_000_000_000,
{
    match at.duration_since(SystemTime::UNIX_EPOCH) {
        Ok(d) => Some(Duration { secs: d.as_secs(), nanos: d.subsec_nanos() }),
        Err(_) => None,
    }
}

/// The whole seconds of a reading of the wall clock, zero before the epoch.
pub fn epoch_secs(reading: Option<Duration>) -> (r: u64)
    ensures
        r == (match reading {
            Some(d) => d.secs,
            None => 0,
        }),
{
    match reading {
        Some(d) => d.secs,
        None => 0,
    }
}

/// The whole seconds from the Unix epoch to a moment, zero before the epoch.
pub open spec fn secs_since_epoch(at: SystemTime) -> nat {
    match nanos_since_epoch(at) {
        Some(n) => n / 1_000_000_000,
        None => 0,
    }
}

/// Seconds since the Unix epoch, by the wall clock.
pub fn unix_secs() -> (r: u64)
    ensures
        exists|now: SystemTime| r == #[trigger] secs_since_epoch(now),
{
    let now = system_now();
    let r = epoch_secs(since_epoch(&now));
    assert(r == secs_since_epoch(now));
    r
}

} // verus!
