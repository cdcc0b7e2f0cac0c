//! Instants and rates as exact integers.
use vstd::prelude::*;

verus! {

/// An instant on the UTC time line: whole seconds since the Unix epoch and
/// the nanoseconds past that second.
#[derive(Clone, Copy, Debug, PartialEq, Eq, Structural)]
pub struct Timestamp {
    pub secs: i64,
    pub nanos: u32,
}

/// Signed distance from `start` to `end` in nanoseconds.
pub open spec fn nanos_between(start: Timestamp, end: Timestamp) -> int {
    (end.secs - start.secs) * 1_000_000_000 + (end.nanos - start.nanos)
}

/// Whole seconds that have passed from `start` to `end`; zero when `end` is
/// not later than `start`.
pub open spec fn elapsed_seconds(start: Timestamp, end: Timestamp) -> int {
    let n = nanos_between(start, end);
    if n <= 0 {
        0
    } else {
        n / 1_000_000_000
    }
}

/// `elapsed_seconds`, held to the range of `u64`.
pub open spec fn elapsed_seconds_saturating(start: Timestamp, end: Timestamp) -> u64 {
    let s = elapsed_seconds(start, end);
    if s > u64::MAX {
        u64::MAX
    } else {
        s as u64
    }
}

/// Chronological order: by seconds, then by nanoseconds.
pub open spec fn earlier(a: Timestamp, b: Timestamp) -> bool {
    a.secs < b.secs || (a.secs == b.secs && a.nanos < b.nanos)
}

/// Whether `chrono` can represent the instant that lies `millis` milliseconds
/// from the Unix epoch, that is, whether
/// `chrono::DateTime::from_timestamp_millis` answers `Some` for it.
pub uninterp spec fn millis_in_calendar_range(millis: i64) -> bool;

/// The instant that lies `millis` milliseconds from the Unix epoch, where
/// the calendar can represent it.
pub open spec fn instant_of_millis(millis: i64) -> Option<Timestamp> {
    if millis_in_calendar_range(millis) {
        Some(
            Timestamp {
                secs: (millis as int / 1000) as i64,
                nanos: ((millis as int % 1000) * 1_000_000) as u32,
            },
        )
    } else {
        None
    }
}

/// Reads the system clock with `chrono::Utc::now` and hands back its seconds
/// (`timestamp`) and sub-second nanoseconds (`timestamp_subsec_nanos`).
/// Nothing is claimed of the instant returned.
#[verifier::external_body]
fn clock_now() -> Timestamp {
    let t = chrono::Utc::now();
    Timestamp { secs: t.timestamp(), nanos: t.timestamp_subsec_nanos() }
}

/// Calls `chrono::DateTime::from_timestamp_millis`. The contract claims that
/// the call succeeds exactly on the milliseconds `chrono` can represent, and
/// that a result holds the floor of `millis / 1000` as its seconds and the
/// remaining milliseconds, as nanoseconds, as its fraction.
#[verifier::external_body]
fn calendar_instant(millis: i64) -> (r: Option<Timestamp>)
    ensures
        r is Some <==> millis_in_calendar_range(millis),
        r matches Some(t) ==> t.secs == millis as int / 1000 && t.nanos == (millis as int % 1000)
            * 1_000_000,
{
    match chrono::DateTime::from_timestamp_millis(millis) {
        Some(t) => Some(Timestamp { secs: t.timestamp(), nanos: t.timestamp_subsec_nanos() }),
        None => None,
    }
}

impl Timestamp {
    /// The current instant of the system clock. Which instant that is lies
    /// with the clock alone, so nothing is promised of it: what becomes of
    /// the instant is stated by the functions that take it as an argument.
    pub fn now() -> Timestamp {
        clock_now()
    }

    /// The instant `millis` milliseconds from the Unix epoch, or `None` where
    /// the calendar cannot represent it.
    pub fn from_millis(millis: i64) -> (r: Option<Timestamp>)
        ensures
            r == instant_of_millis(millis),
    {
        calendar_instant(millis)
    }

    /// Whether `self` lies strictly before `other`.
    pub fn is_before(&self, other: &Timestamp) -> (r: bool)
        ensures
            r == earlier(*self, *other),
    {
        self.secs < other.secs || (self.secs == other.secs && self.nanos < other.nanos)
    }

    /// Whole seconds from `start` to `self`, zero when `self` is not later,
    /// saturating at `u64::MAX`.
    pub fn seconds_since(&self, start: &Timestamp) -> (r: u64)
        ensures
            r == elapsed_seconds_saturating(*start, *self),
    {
        let ds: i128 = self.secs as i128 - start.secs as i128;
        let dn: i128 = self.nanos as i128 - start.nanos as i128;
        let n: i128 = ds * 1_000_000_000 + dn;
        if n <= 0 {
            0
        } else {
            let s: i128 = n / 1_000_000_000;
            if s > u64::MAX as i128 {
                u64::MAX
            } else {
                s as u64
            }
        }
    }
}

/// An average advance rate kept as an exact ratio: `slots` advanced over
/// `seconds` of elapsed time. A rate with no elapsed time is zero.
#[derive(Clone, Copy, Debug, PartialEq, Eq, Structural)]
pub struct SyncRate {
    pub slots: u64,
    pub seconds: u64,
}

impl SyncRate {
    /// The rate of a record that has not advanced yet.
    pub open spec fn zero() -> SyncRate {
        SyncRate { slots: 0, seconds: 0 }
    }

    /// Whether the rate is above zero.
    pub open spec fn positive(self) -> bool {
        self.slots > 0 && self.seconds > 0
    }

    /// Slots per minute in thousandths, rounded down.
    pub open spec fn per_minute_milli(self) -> int {
        if self.seconds == 0 {
            0
        } else {
            self.slots * 60_000 / (self.seconds as int)
        }
    }

    pub fn new_zero() -> (r: SyncRate)
        ensures
            r == SyncRate::zero(),
    {
        SyncRate { slots: 0, seconds: 0 }
    }

    pub fn is_positive(&self) -> (r: bool)
        ensures
            r == self.positive(),
    {
        self.slots > 0 && self.seconds > 0
    }

    pub fn slots_per_minute_milli(&self) -> (r: u128)
        ensures
            r == self.per_minute_milli(),
    {
        if self.seconds == 0 {
            0
        } else {
            let scaled: u128 = self.slots as u128 * 60_000;
            scaled / self.seconds as u128
        }
    }
}

} // verus!
