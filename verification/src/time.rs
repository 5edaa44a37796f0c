//! Time values as plain counts of milliseconds and nanoseconds.
//!
//! A [`Duration`] is a span of whole milliseconds; an [`Instant`] is a reading
//! of the system clock in nanoseconds since the UNIX epoch, and the time
//! between two instants is compared with a duration to the nanosecond.
//! Elapsed time is computed with saturating subtraction, so a clock that steps
//! backwards yields an elapsed time of zero instead of a negative one.

use vstd::prelude::*;

use crate::node_registry::Timestamp;

verus! {

/// A span of time, in whole milliseconds.
#[derive(Clone, Copy, Debug, PartialEq, Eq, Structural, PartialOrd, Ord, Hash)]
pub struct Duration {
    pub millis: u64,
}

impl Duration {
    /// The empty span.
    pub fn zero() -> (d: Duration)
        ensures
            d.millis == 0,
    {
        Duration { millis: 0 }
    }

    /// A span of `millis` milliseconds.
    pub fn from_millis(millis: u64) -> (d: Duration)
        ensures
            d.millis == millis,
    {
        Duration { millis }
    }

    /// A span of `secs` seconds.
    pub fn from_secs(secs: u64) -> (d: Duration)
        requires
            secs * 1000 <= u64::MAX,
        ensures
            d.millis == secs * 1000,
    {
        Duration { millis: secs * 1000 }
    }

    /// The span in milliseconds.
    pub fn as_millis(&self) -> (m: u64)
        ensures
            m == self.millis,
    {
        self.millis
    }

    /// The longer of two spans.
    pub fn max(self, other: Duration) -> (d: Duration)
        ensures
            d.millis == if self.millis >= other.millis { self.millis } else { other.millis },
    {
        if self.millis >= other.millis {
            self
        } else {
            other
        }
    }

    /// The shorter of two spans.
    pub fn min(self, other: Duration) -> (d: Duration)
        ensures
            d.millis == if self.millis <= other.millis { self.millis } else { other.millis },
    {
        if self.millis <= other.millis {
            self
        } else {
            other
        }
    }
}

/// A reading of the system clock, in nanoseconds since the UNIX epoch.
#[derive(Clone, Copy, Debug, PartialEq, Eq, Structural, PartialOrd, Ord, Hash)]
pub struct Instant {
    pub nanos: u128,
}

/// Nanoseconds between `earlier` and `now`, zero when `now` is not later.
pub open spec fn nanos_between(earlier: Instant, now: Instant) -> nat {
    if now.nanos >= earlier.nanos {
        (now.nanos - earlier.nanos) as nat
    } else {
        0
    }
}

/// Whole milliseconds between `earlier` and `now` (zero when `now` is not
/// later), saturated to `u64`.
pub open spec fn millis_between(earlier: Instant, now: Instant) -> nat {
    let ms = nanos_between(earlier, now) / 1_000_000;
    if ms <= u64::MAX { ms } else { u64::MAX as nat }
}

/// More than `d` has passed from `earlier` to `now`.
pub open spec fn longer_than(earlier: Instant, now: Instant, d: Duration) -> bool {
    nanos_between(earlier, now) > d.millis * 1_000_000
}

/// Reads the system clock: `std::time::SystemTime::elapsed` on the UNIX epoch,
/// in nanoseconds, or 0 when the clock stands before the epoch.  Nothing is
/// promised of the value: it depends on the machine's clock.
#[verifier::external_body]
fn system_clock_nanos() -> (n: u128) {
    match std::time::UNIX_EPOCH.elapsed() {
        Ok(d) => d.as_nanos(),
        Err(_) => 0,
    }
}

impl Instant {
    /// The instant `millis` milliseconds after the UNIX epoch.
    pub fn from_millis(millis: u64) -> (i: Instant)
        ensures
            i.nanos == millis * 1_000_000,
    {
        Instant { nanos: (millis as u128) * 1_000_000 }
    }

    /// The instant `nanos` nanoseconds after the UNIX epoch.
    pub fn from_nanos(nanos: u128) -> (i: Instant)
        ensures
            i.nanos == nanos,
    {
        Instant { nanos }
    }

    /// The current reading of the system clock.
    pub fn now() -> (i: Instant) {
        Instant { nanos: system_clock_nanos() }
    }

    /// Time from `self` to `now` in whole milliseconds (saturated to `u64`),
    /// zero when `now` is not later.
    pub fn elapsed_at(&self, now: Instant) -> (d: Duration)
        ensures
            d.millis == millis_between(*self, now),
    {
        if now.nanos >= self.nanos {
            let ms = (now.nanos - self.nanos) / 1_000_000;
            if ms <= u64::MAX as u128 {
                Duration { millis: ms as u64 }
            } else {
                Duration { millis: u64::MAX }
            }
        } else {
            Duration { millis: 0 }
        }
    }

    /// Time from `self` to the current clock reading.
    pub fn elapsed(&self) -> (d: Duration)
        ensures
            exists|now: Instant| d.millis == millis_between(*self, now),
    {
        let now = Instant::now();
        self.elapsed_at(now)
    }

    /// More than `d` has passed from `self` to `now`.
    pub fn elapsed_exceeds(&self, now: Instant, d: Duration) -> (b: bool)
        ensures
            b == longer_than(*self, now, d),
    {
        now.nanos >= self.nanos && now.nanos - self.nanos > (d.millis as u128) * 1_000_000
    }

    /// The instant `d` after `self`, saturating at the largest representable instant.
    pub fn saturating_add(&self, d: Duration) -> (i: Instant)
        ensures
            i.nanos == if self.nanos + d.millis * 1_000_000 <= u128::MAX {
                self.nanos + d.millis * 1_000_000
            } else {
                u128::MAX as int
            },
    {
        Instant { nanos: self.nanos.saturating_add((d.millis as u128) * 1_000_000) }
    }
}

/// Reads the system clock as a timestamp: `std::time::SystemTime::elapsed`
/// on the UNIX epoch (the time since the epoch; zero before it), as whole
/// seconds (`as_secs`) and the nanoseconds of the last second
/// (`subsec_nanos`).  Only that the nanoseconds stay below one second is
/// promised; the value depends on the machine's clock.
#[verifier::external_body]
pub(crate) fn current_timestamp() -> (t: Timestamp)
    ensures
        0 <= t.nanos < 1_000_000_000,
{
    match std::time::UNIX_EPOCH.elapsed() {
        Ok(d) => Timestamp { seconds: d.as_secs() as i64, nanos: d.subsec_nanos() as i32 },
        Err(_) => Timestamp { seconds: 0, nanos: 0 },
    }
}

} // verus!
