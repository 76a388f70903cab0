//! Instants in UTC, and the whole seconds between two of them.

use chrono::{DateTime, Utc};
use vstd::prelude::*;

verus! {

/// An instant: the seconds since 1970-01-01 00:00:00 UTC and the nanoseconds
/// since that second. A leap second is told by a thousand million nanoseconds or
/// more.
pub struct Instant {
    pub secs: int,
    pub nanos: int,
}

/// The instants that `chrono::DateTime<Utc>` has: the years -262143 to 262142,
/// with a leap second only at the end of a minute.
pub open spec fn is_instant(i: Instant) -> bool {
    &&& -8334601228800 <= i.secs <= 8210266876799
    &&& 0 <= i.nanos < 2_000_000_000
    &&& i.nanos >= 1_000_000_000 ==> i.secs % 60 == 59
}

/// The second of the day.
pub open spec fn second_of_day(i: Instant) -> int {
    i.secs % 86400
}

/// The nanoseconds from `then` to `now`, negative where `now` is the earlier one.
/// A leap second that either stands in counts where the other one's time of day
/// lies beyond it; no other leap second does.
pub open spec fn elapsed_nanos(now: Instant, then: Instant) -> int {
    (now.secs - then.secs) * 1_000_000_000 + (now.nanos - then.nanos) + if second_of_day(now)
        > second_of_day(then) && then.nanos >= 1_000_000_000 {
        1_000_000_000int
    } else if second_of_day(now) < second_of_day(then) && now.nanos >= 1_000_000_000 {
        -1_000_000_000int
    } else {
        0int
    }
}

/// The whole seconds from `then` to `now`, rounded towards zero.
pub open spec fn elapsed_seconds(now: Instant, then: Instant) -> int {
    let n = elapsed_nanos(now, then);
    if n >= 0 {
        n / 1_000_000_000
    } else {
        -((-n) / 1_000_000_000)
    }
}

/// `DateTime::signed_duration_since` and `TimeDelta::num_seconds`, on the
/// instants that `DateTime::from_timestamp` makes of seconds and nanoseconds:
/// the whole seconds between the two.
#[verifier::external_body]
fn seconds_between(now_secs: i64, now_nanos: u32, then_secs: i64, then_nanos: u32) -> (r: i64)
    requires
        is_instant((Instant { secs: now_secs as int, nanos: now_nanos as int })),
        is_instant((Instant { secs: then_secs as int, nanos: then_nanos as int })),
    ensures
        r == elapsed_seconds(
            (Instant { secs: now_secs as int, nanos: now_nanos as int }),
            (Instant { secs: then_secs as int, nanos: then_nanos as int }),
        ),
{
    let now: DateTime<Utc> = DateTime::from_timestamp(now_secs, now_nanos).unwrap();
    let then: DateTime<Utc> = DateTime::from_timestamp(then_secs, then_nanos).unwrap();
    now.signed_duration_since(then).num_seconds()
}

/// An instant in UTC.
#[derive(Debug, Clone, Copy)]
pub struct Timestamp {
    secs: i64,
    nanos: u32,
}

impl View for Timestamp {
    type V = Instant;

    closed spec fn view(&self) -> Instant {
        Instant { secs: self.secs as int, nanos: self.nanos as int }
    }
}

impl Timestamp {
    #[verifier::type_invariant]
    spec fn valid(self) -> bool {
        is_instant(Instant { secs: self.secs as int, nanos: self.nanos as int })
    }

    /// The instant with this many seconds and nanoseconds, where there is one.
    pub fn new(secs: i64, nanos: u32) -> (r: Option<Timestamp>)
        ensures
            match r {
                Some(t) => t@ == (Instant { secs: secs as int, nanos: nanos as int }) && is_instant(
                    t@,
                ),
                None => !is_instant(Instant { secs: secs as int, nanos: nanos as int }),
            },
    {
        if secs < -8334601228800 || secs > 8210266876799 || nanos >= 2_000_000_000 {
            return None;
        }
        // The remainder of a negative count is negative or zero in exec code.
        let shifted: u64 = (secs + 8334601228800) as u64;
        if nanos >= 1_000_000_000 && shifted % 60 != 59 {
            assert(8334601228800int % 60 == 0);
            return None;
        }
        Some(Timestamp { secs, nanos })
    }

    /// The seconds since 1970.
    pub fn secs(&self) -> (r: i64)
        ensures
            r == self@.secs,
    {
        self.secs
    }

    /// The nanoseconds since the second.
    pub fn nanos(&self) -> (r: u32)
        ensures
            r == self@.nanos,
    {
        self.nanos
    }

    /// The whole seconds since an earlier instant; negative where it is later.
    pub fn seconds_since(&self, then: &Timestamp) -> (r: i64)
        ensures
            r == elapsed_seconds(self@, then@),
    {
        proof {
            use_type_invariant(self);
            use_type_invariant(then);
        }
        seconds_between(self.secs, self.nanos, then.secs, then.nanos)
    }
}

} // verus!
