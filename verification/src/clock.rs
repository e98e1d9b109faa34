//! Time as the library sees it: spans, points on a monotonic clock, and wall
//! clock microseconds.

use vstd::prelude::*;

verus! {

/// A span of time, in nanoseconds.
#[derive(Clone, Copy, Debug, PartialEq, Eq, Structural)]
pub struct Duration {
    pub nanos: u128,
}

/// A point on a monotonic clock, in nanoseconds since that clock's origin.
#[derive(Clone, Copy, Debug, PartialEq, Eq, Structural)]
pub struct Instant {
    pub nanos: u128,
}

impl Duration {
    /// A span of whole seconds.
    pub fn from_secs(secs: u64) -> (r: Self)
        ensures
            r.nanos == secs as int * 1_000_000_000,
    {
        Duration { nanos: secs as u128 * 1_000_000_000 }
    }

    /// A span of whole milliseconds.
    pub fn from_millis(millis: u64) -> (r: Self)
        ensures
            r.nanos == millis as int * 1_000_000,
    {
        Duration { nanos: millis as u128 * 1_000_000 }
    }
}

/// How long before `now` the point `then` lies; nothing where it lies behind.
pub open spec fn since(now: Instant, then: Instant) -> int {
    if now.nanos >= then.nanos {
        now.nanos - then.nanos
    } else {
        0
    }
}

impl Instant {
    /// How long before this point `earlier` lies.
    pub fn duration_since(&self, earlier: Instant) -> (r: Duration)
        ensures
            r.nanos == since(*self, earlier),
    {
        if self.nanos >= earlier.nanos {
            Duration { nanos: self.nanos - earlier.nanos }
        } else {
            Duration { nanos: 0 }
        }
    }
}

/// A reading of the wall clock as an event carries it.
pub open spec fn event_micros(since_epoch_micros: u128) -> i64 {
    if since_epoch_micros <= i64::MAX {
        since_epoch_micros as i64
    } else {
        i64::MAX
    }
}

/// Wall-clock microseconds since the UNIX epoch as an event carries them; a
/// reading that does not fit is the greatest value that does.
pub fn now_unix_micros(since_epoch_micros: u128) -> (r: i64)
    ensures
        r == event_micros(since_epoch_micros),
{
    if since_epoch_micros <= i64::MAX as u128 {
        since_epoch_micros as i64
    } else {
        i64::MAX
    }
}

/// One reading of both clocks.
#[derive(Clone, Copy, Debug)]
pub struct Reading {
    /// The monotonic clock, for timeouts.
    pub instant: Instant,
    /// The wall clock, for events.
    pub unix_micros: i64,
}

/// What an event carries of the time is the reading itself as far as it fits,
/// and never runs backwards.
pub proof fn law_event_times_follow_the_clock(a: u128, b: u128)
    requires
        a <= b,
    ensures
        event_micros(a) <= event_micros(b),
        a <= 0x7fff_ffff_ffff_ffff ==> event_micros(a) == a,
        a > 0x7fff_ffff_ffff_ffff ==> event_micros(a) == 0x7fff_ffff_ffff_ffff,
{
}

/// How long ago a point is: what has to be added to it to come to now, and
/// nothing where it has not come yet.
pub proof fn law_how_long_ago(now: Instant, then: Instant)
    ensures
        now.nanos >= then.nanos ==> then.nanos + since(now, then) == now.nanos,
        now.nanos <= then.nanos ==> since(now, then) == 0,
{
}

} // verus!
