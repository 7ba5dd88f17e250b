//! Instants of time: seconds and nanoseconds since the Unix epoch, without a
//! time zone.

use vstd::prelude::*;
use vstd::std_specs::cmp::PartialOrdSpecImpl;

verus! {

/// An instant: the seconds since 1970-01-01 00:00:00 and the nanoseconds into
/// that second. Instants are ordered by seconds, then by nanoseconds.
#[derive(Debug, Clone, Copy, PartialEq, Eq, Structural, Ord, Hash)]
pub struct Instant {
    pub secs: i64,
    pub nanos: u32,
}

/// The seconds of a calendar instant lie strictly between this bound and its
/// negative: a count of days that fits in 32 bits, in seconds.
pub const CALENDAR_LIMIT: i64 = 0x1_0000_0000_0000;

/// The nanoseconds of an instant stay below this: a second, and one more for
/// a leap second.
pub const NANOS_LIMIT: u32 = 2_000_000_000;

/// The nanoseconds of one second.
pub const NANOS_PER_SECOND: i64 = 1_000_000_000;

/// The seconds of one day.
pub const SECONDS_PER_DAY: i64 = 86_400;

impl Instant {
    /// Whether the instant is one that a calendar date and time of day give.
    pub open spec fn is_calendar(self) -> bool {
        -CALENDAR_LIMIT < self.secs < CALENDAR_LIMIT && self.nanos < NANOS_LIMIT
    }

    /// The nanoseconds since the epoch.
    pub open spec fn total_nanos(self) -> int {
        self.secs * NANOS_PER_SECOND + self.nanos
    }

    /// Whether `self` comes before `other`.
    pub open spec fn is_before(self, other: Instant) -> bool {
        self.secs < other.secs || (self.secs == other.secs && self.nanos < other.nanos)
    }

    /// Whether `self` comes before `other` or is `other`.
    pub open spec fn is_at_or_before(self, other: Instant) -> bool {
        self.is_before(other) || self == other
    }

    /// The whole seconds from `earlier` to `self`, rounded down.
    pub open spec fn seconds_from(self, earlier: Instant) -> int {
        (self.total_nanos() - earlier.total_nanos()) / (NANOS_PER_SECOND as int)
    }

    /// The instant `seconds` after `self`.
    pub open spec fn later_by(self, seconds: int) -> Instant {
        Instant { secs: (self.secs + seconds) as i64, nanos: self.nanos }
    }

    /// The day of the instant, counted from the epoch.
    pub open spec fn day(self) -> int {
        self.secs as int / SECONDS_PER_DAY as int
    }

    /// Whether the instant is one that a calendar date and time of day give.
    pub fn in_calendar(self) -> (r: bool)
        ensures
            r == self.is_calendar(),
    {
        -CALENDAR_LIMIT < self.secs && self.secs < CALENDAR_LIMIT && self.nanos < NANOS_LIMIT
    }

    /// Whether `self` comes before `other`.
    pub fn before(self, other: Instant) -> (r: bool)
        ensures
            r == self.is_before(other),
    {
        self.secs < other.secs || (self.secs == other.secs && self.nanos < other.nanos)
    }

    /// Whether `self` comes before `other` or is `other`.
    pub fn at_or_before(self, other: Instant) -> (r: bool)
        ensures
            r == self.is_at_or_before(other),
    {
        self.secs < other.secs || (self.secs == other.secs && self.nanos <= other.nanos)
    }

    /// The whole seconds from `earlier` to `self`, rounded down.
    pub fn seconds_since(self, earlier: Instant) -> (r: i64)
        requires
            self.is_calendar(),
            earlier.is_calendar(),
        ensures
            r == self.seconds_from(earlier),
            -2 * CALENDAR_LIMIT <= r <= 2 * CALENDAR_LIMIT,
    {
        let d: i64 = self.secs - earlier.secs;
        let a: i64 = self.nanos as i64;
        let b: i64 = earlier.nanos as i64;
        let carry: i64 = if a - b >= NANOS_PER_SECOND {
            1
        } else if a - b >= 0 {
            0
        } else if a - b >= -NANOS_PER_SECOND {
            -1
        } else {
            -2
        };
        proof {
            let total = self.total_nanos() - earlier.total_nanos();
            let n = NANOS_PER_SECOND as int;
            assert(total == (d + carry) * n + (a - b - carry * n)) by (nonlinear_arith)
                requires
                    total == (self.secs * n + a) - (earlier.secs * n + b),
                    d == self.secs - earlier.secs,
            ;
            assert(0 <= a - b - carry * n < n);
            vstd::arithmetic::div_mod::lemma_fundamental_div_mod_converse(
                total,
                n,
                d + carry,
                a - b - carry * n,
            );
        }
        d + carry
    }

    /// The instant `seconds` after `self`.
    pub fn plus_seconds(self, seconds: i64) -> (r: Instant)
        requires
            i64::MIN <= self.secs + seconds <= i64::MAX,
        ensures
            r == self.later_by(seconds as int),
    {
        Instant { secs: self.secs + seconds, nanos: self.nanos }
    }

    /// The day of the instant, counted from the epoch.
    pub fn day_number(self) -> (r: i64)
        ensures
            r == self.day(),
    {
        let q: i64 = self.secs / SECONDS_PER_DAY;
        let m: i64 = self.secs % SECONDS_PER_DAY;
        let r: i64 = if m < 0 {
            q - 1
        } else {
            q
        };
        proof {
            let n = SECONDS_PER_DAY as int;
            let s = self.secs as int;
            if m < 0 {
                assert(s == (q - 1) * n + (m + n)) by (nonlinear_arith)
                    requires
                        s == q * n + m,
                ;
                vstd::arithmetic::div_mod::lemma_fundamental_div_mod_converse(
                    s,
                    n,
                    q - 1,
                    m + n,
                );
            } else {
                vstd::arithmetic::div_mod::lemma_fundamental_div_mod_converse(s, n, q as int, m as int);
            }
        }
        r
    }
}

impl PartialOrd for Instant {
    fn partial_cmp(&self, other: &Instant) -> (r: Option<core::cmp::Ordering>) {
        if self.secs < other.secs || (self.secs == other.secs && self.nanos < other.nanos) {
            Some(core::cmp::Ordering::Less)
        } else if self.secs == other.secs && self.nanos == other.nanos {
            Some(core::cmp::Ordering::Equal)
        } else {
            Some(core::cmp::Ordering::Greater)
        }
    }
}

impl PartialOrdSpecImpl for Instant {
    open spec fn obeys_partial_cmp_spec() -> bool {
        true
    }

    open spec fn partial_cmp_spec(&self, other: &Instant) -> Option<core::cmp::Ordering> {
        if self.is_before(*other) {
            Some(core::cmp::Ordering::Less)
        } else if self.secs == other.secs && self.nanos == other.nanos {
            Some(core::cmp::Ordering::Equal)
        } else {
            Some(core::cmp::Ordering::Greater)
        }
    }
}

} // verus!
