//! Instants and spans of time, both in nanoseconds. An instant counts from the
//! Unix epoch.

use vstd::prelude::*;

use crate::bridge::{http_date_seconds, parse_http_date, parse_rfc3339_parts, rfc3339_parts};

verus! {

/// Nanoseconds in a second.
pub const SECOND: i128 = 1_000_000_000;

/// No instant lies further from the epoch than this. A calendar that counts its
/// days in 32 bits stays well inside.
pub const INSTANT_LIMIT: i128 = 1_000_000_000_000_000_000_000_000;

/// `t` is an instant that a calendar can name.
pub open spec fn valid_instant(t: int) -> bool {
    -INSTANT_LIMIT <= t <= INSTANT_LIMIT
}

/// Nanoseconds in a day.
pub const DAY: i128 = 86_400_000_000_000;

/// Seconds in a day.
pub const DAY_SECONDS: i64 = 86_400;

/// A time that a document states, down to the nanosecond. The nanoseconds pass one
/// second inside a leap second, which then belongs to the second before it.
#[derive(Debug, Clone, Copy, PartialEq, Eq, Structural)]
pub struct Stamp {
    /// Whole seconds from the Unix epoch.
    pub secs: i64,
    pub nanos: u32,
}

impl Stamp {
    /// The time is one that a calendar can name.
    pub open spec fn wf(self) -> bool {
        -200_000_000_000_000 <= self.secs <= 200_000_000_000_000 && self.nanos < 2_000_000_000
    }

    /// The time lies in a leap second.
    pub open spec fn leaps(self) -> bool {
        self.nanos >= 1_000_000_000
    }

    /// The nanoseconds from the epoch, a leap second counted as the second that follows.
    pub open spec fn count(self) -> int {
        self.secs * SECOND + self.nanos
    }

    /// The instant at which a clock, which knows no leap seconds, has come to the time or
    /// passed it.
    pub open spec fn reached(self) -> int {
        if self.leaps() {
            (self.secs + 1) * SECOND
        } else {
            self.count()
        }
    }

    /// The time lies in no leap second but one at the end of a day, which is where they
    /// are.
    pub open spec fn steady(self) -> bool {
        !self.leaps() || self.secs as int % DAY_SECONDS as int == DAY_SECONDS - 1
    }

    /// The time of the day at `now` is past the second in which the stamp's leap second
    /// lies.
    pub open spec fn passed_by(self, now: int) -> bool {
        self.leaps() && now % (DAY as int) >= (self.secs as int % DAY_SECONDS as int + 1) * SECOND
    }

    /// What has gone by since the time, at `now`. The leap second is counted in where the
    /// time of the day is past it.
    pub open spec fn age(self, now: int) -> int {
        if self.passed_by(now) {
            now - self.count() + SECOND
        } else {
            now - self.count()
        }
    }

    /// The time comes before the other.
    pub open spec fn before(self, other: Stamp) -> bool {
        self.secs < other.secs || (self.secs == other.secs && self.nanos < other.nanos)
    }

    /// The time when the span `d` has gone by. It stays in its leap second where the span
    /// does not lead out of it, and else the leap second is counted in.
    pub open spec fn later(self, d: int) -> Stamp {
        if self.leaps() && self.nanos + d < 2_000_000_000 {
            Stamp { secs: self.secs, nanos: (self.nanos + d) as u32 }
        } else {
            let nanos = self.nanos + d % (SECOND as int) - if self.leaps() {
                1_000_000_000int
            } else {
                0
            };
            let secs = self.secs + d / (SECOND as int);
            if nanos >= 1_000_000_000 {
                Stamp { secs: (secs + 1) as i64, nanos: (nanos - 1_000_000_000) as u32 }
            } else {
                Stamp { secs: secs as i64, nanos: nanos as u32 }
            }
        }
    }

    /// What has gone by since the time, at `now`.
    pub fn age_at(self, now: i128) -> (r: i128)
        requires
            self.wf(),
            valid_instant(now as int),
        ensures
            r == self.age(now as int),
            -2 * INSTANT_LIMIT <= r <= 2 * INSTANT_LIMIT,
    {
        let count: i128 = self.secs as i128 * SECOND + self.nanos as i128;
        if self.nanos < 1_000_000_000 {
            return now - count;
        }
        // Both are moved by whole days, so that nothing is negative.
        let shifted: i128 = now + 1_000_000_000_000i128 * DAY;
        let day_nanos: i128 = shifted % DAY;
        let seconds: i64 = self.secs + 86_400 * 10_000_000_000;
        let day_seconds: i64 = seconds % DAY_SECONDS;
        proof {
            vstd::arithmetic::div_mod::lemma_mod_multiples_vanish(
                1_000_000_000_000,
                now as int,
                DAY as int,
            );
            vstd::arithmetic::div_mod::lemma_mod_multiples_vanish(
                10_000_000_000,
                self.secs as int,
                DAY_SECONDS as int,
            );
        }
        if day_nanos >= (day_seconds as i128 + 1) * SECOND {
            now - count + SECOND
        } else {
            now - count
        }
    }

    /// Whether the time comes before the other.
    pub fn is_before(self, other: Stamp) -> (r: bool)
        ensures
            r == self.before(other),
    {
        self.secs < other.secs || (self.secs == other.secs && self.nanos < other.nanos)
    }

    /// The time when the span `d` has gone by.
    pub fn plus(self, d: i128) -> (r: Stamp)
        requires
            self.wf(),
            0 <= d <= i64::MAX,
        ensures
            r == self.later(d as int),
    {
        let leap = self.nanos >= 1_000_000_000;
        let sum: i128 = self.nanos as i128 + d;
        if leap && sum < 2_000_000_000 {
            return Stamp { secs: self.secs, nanos: sum as u32 };
        }
        let part: i128 = d % SECOND;
        let whole: i128 = d / SECOND;
        let start: i128 = if leap {
            self.nanos as i128 - SECOND
        } else {
            self.nanos as i128
        };
        let nanos: i128 = start + part;
        let secs: i128 = self.secs as i128 + whole;
        if nanos >= SECOND {
            Stamp { secs: (secs + 1) as i64, nanos: (nanos - SECOND) as u32 }
        } else {
            Stamp { secs: secs as i64, nanos: nanos as u32 }
        }
    }
}

/// The time of a steady stamp is counted from one instant: what has gone by since then
/// only grows.
pub proof fn steady_stamps_only_age(s: Stamp, now: int)
    requires
        s.steady(),
    ensures
        s.age(now) == now - s.count(),
{
}

/// A span takes a stamp no further than its count.
pub proof fn lemma_later_is_reached(s: Stamp, d: int)
    requires
        s.wf(),
        0 <= d <= i64::MAX,
    ensures
        s.later(d).reached() <= s.count() + d,
        !s.leaps() ==> s.later(d).reached() == s.count() + d && !s.later(d).leaps(),
{
}

/// What comes no later is reached no later.
pub proof fn lemma_reached_in_order(a: Stamp, b: Stamp)
    requires
        !b.before(a),
    ensures
        a.reached() <= b.reached(),
{
}

/// The time that an RFC 3339 text names.
pub open spec fn rfc3339_stamp(s: Seq<char>) -> Option<Stamp> {
    match rfc3339_parts(s) {
        Some((secs, nanos)) => Some(Stamp { secs: secs as i64, nanos: nanos as u32 }),
        None => None,
    }
}

/// Reads an RFC 3339 timestamp.
pub fn parse_rfc3339(s: &str) -> (r: Option<Stamp>)
    ensures
        r == rfc3339_stamp(s@),
        r is Some ==> r->0.wf(),
{
    match parse_rfc3339_parts(s) {
        Some((secs, nanos)) => Some(Stamp { secs, nanos }),
        None => None,
    }
}

/// The time that an HTTP date names.
pub open spec fn http_date_stamp(s: Seq<char>) -> Option<Stamp> {
    match http_date_seconds(s) {
        Some(secs) => Some(Stamp { secs: secs as i64, nanos: 0 }),
        None => None,
    }
}

/// Reads an HTTP date as a stamp.
pub fn parse_http_stamp(s: &str) -> (r: Option<Stamp>)
    ensures
        r == http_date_stamp(s@),
        r is Some ==> r->0.wf() && !r->0.leaps(),
{
    match parse_http_date(s) {
        Some(secs) => Some(Stamp { secs: secs as i64, nanos: 0 }),
        None => None,
    }
}

/// The instant that an HTTP date names.
pub open spec fn http_date_instant(s: Seq<char>) -> Option<int> {
    match http_date_seconds(s) {
        Some(secs) => Some(secs * SECOND),
        None => None,
    }
}

/// Reads an HTTP date.
pub fn parse_http_instant(s: &str) -> (r: Option<i128>)
    ensures
        match r {
            Some(t) => http_date_instant(s@) == Some(t as int) && valid_instant(t as int),
            None => http_date_instant(s@) is None,
        },
{
    match parse_http_date(s) {
        Some(secs) => Some(secs as i128 * SECOND),
        None => None,
    }
}

} // verus!
