//! Instants in coordinated universal time.
//!
//! A `Timestamp` holds whole seconds since 1970 and the nanoseconds past them.
//! What needs a calendar or a clock is asked of `chrono`; the functions that ask
//! take and give these two numbers.

use chrono::{DateTime, TimeZone, Timelike, Utc};
use vstd::prelude::*;

verus! {

/// The first second that `chrono` can hold: the start of the year -262143.
pub const FIRST_SECOND: i64 = -8_334_601_228_800;

/// The last second that `chrono` can hold: the end of the year 262142.
pub const LAST_SECOND: i64 = 8_210_266_876_799;

/// The instants that `chrono` can hold. Nanoseconds from one billion on mark a
/// leap second, which only the last second of a minute can have.
pub open spec fn representable(seconds: int, nanos: int) -> bool {
    &&& FIRST_SECOND <= seconds <= LAST_SECOND
    &&& 0 <= nanos < 2_000_000_000
    &&& nanos >= 1_000_000_000 ==> seconds % 60 == 59
}

/// The hour of the day, 0 to 23.
pub open spec fn hour_of_day(seconds: int) -> int {
    (seconds % 86_400) / 3_600
}

/// The leap second that lies between two instants and that their seconds do not
/// count, as `chrono` reckons it from the time of day alone.
pub open spec fn leap_between(
    later_seconds: int,
    later_nanos: int,
    earlier_seconds: int,
    earlier_nanos: int,
) -> int {
    let later_of_day = later_seconds % 86_400;
    let earlier_of_day = earlier_seconds % 86_400;
    if later_of_day > earlier_of_day && earlier_nanos >= 1_000_000_000 {
        1
    } else if later_of_day < earlier_of_day && later_nanos >= 1_000_000_000 {
        -1
    } else {
        0
    }
}

/// The nanoseconds from the earlier to the later instant.
pub open spec fn elapsed_nanos(
    later_seconds: int,
    later_nanos: int,
    earlier_seconds: int,
    earlier_nanos: int,
) -> int {
    (later_seconds - earlier_seconds + leap_between(
        later_seconds,
        later_nanos,
        earlier_seconds,
        earlier_nanos,
    )) * 1_000_000_000 + (later_nanos - earlier_nanos)
}

/// Whole milliseconds in so many nanoseconds, the rest dropped.
pub open spec fn whole_millis(nanos: int) -> int {
    if nanos >= 0 {
        nanos / 1_000_000
    } else {
        -((-nanos) / 1_000_000)
    }
}

/// The instant that `chrono` reads from a text, as seconds and nanoseconds.
pub uninterp spec fn parsed_utc(text: Seq<char>) -> Option<(i64, u32)>;

/// `chrono::Utc.timestamp_opt`: an instant from its seconds and nanoseconds,
/// where `chrono` can hold it. The same two numbers are read back from it.
#[verifier::external_body]
fn timestamp_opt(seconds: i64, nanos: u32) -> (r: Option<(i64, u32)>)
    ensures
        r == (if representable(seconds as int, nanos as int) {
            Some((seconds, nanos))
        } else {
            None
        }),
{
    Utc.timestamp_opt(seconds, nanos).single().map(|t| (t.timestamp(), t.timestamp_subsec_nanos()))
}

/// `chrono::Timelike::hour` on an instant: the hour of its day.
#[verifier::external_body]
fn chrono_hour(seconds: i64, nanos: u32) -> (r: u32)
    requires
        representable(seconds as int, nanos as int),
    ensures
        r == hour_of_day(seconds as int),
{
    Utc.timestamp_opt(seconds, nanos).unwrap().hour()
}

/// `chrono::DateTime::signed_duration_since`, in whole milliseconds: the time
/// from the earlier to the later instant, negative where they stand the other
/// way round, a rest below a millisecond dropped.
#[verifier::external_body]
fn chrono_millis_between(later: (i64, u32), earlier: (i64, u32)) -> (r: i64)
    requires
        representable(later.0 as int, later.1 as int),
        representable(earlier.0 as int, earlier.1 as int),
    ensures
        r == whole_millis(
            elapsed_nanos(later.0 as int, later.1 as int, earlier.0 as int, earlier.1 as int),
        ),
{
    let from = Utc.timestamp_opt(earlier.0, earlier.1).unwrap();
    let to = Utc.timestamp_opt(later.0, later.1).unwrap();
    to.signed_duration_since(from).num_milliseconds()
}

/// `chrono::DateTime::timestamp_nanos_opt`: nanoseconds since 1970, where an
/// `i64` can hold them.
#[verifier::external_body]
fn chrono_timestamp_nanos(seconds: i64, nanos: u32) -> (r: Option<i64>)
    requires
        representable(seconds as int, nanos as int),
    ensures
        match r {
            Some(n) => n == seconds * 1_000_000_000 + nanos,
            None => !(i64::MIN <= seconds * 1_000_000_000 + nanos <= i64::MAX),
        },
{
    Utc.timestamp_opt(seconds, nanos).unwrap().timestamp_nanos_opt()
}

/// `str::parse::<chrono::DateTime<chrono::Utc>>`: the instant that a text such as
/// `2026-02-20T10:00:00Z` writes, or none. What the text must look like is left
/// to `chrono`; the result is one that `chrono` can hold.
#[verifier::external_body]
fn chrono_parse(text: &str) -> (r: Option<(i64, u32)>)
    ensures
        r == parsed_utc(text@),
        match r {
            Some(t) => representable(t.0 as int, t.1 as int),
            None => true,
        },
{
    text.parse::<DateTime<Utc>>().ok().map(|t| (t.timestamp(), t.timestamp_subsec_nanos()))
}

/// `chrono::Utc::now`: the current instant. Of the clock nothing is known but
/// that `chrono` can hold what it shows.
#[verifier::external_body]
fn chrono_now() -> (r: (i64, u32))
    ensures
        representable(r.0 as int, r.1 as int),
{
    let t = Utc::now();
    (t.timestamp(), t.timestamp_subsec_nanos())
}

/// An instant in coordinated universal time.
#[derive(Clone, Copy, Debug, PartialEq, Eq)]
pub struct Timestamp {
    seconds: i64,
    nanos: u32,
}

/// `a` is not later than `b`.
pub open spec fn not_after(a: Timestamp, b: Timestamp) -> bool {
    a.unix_seconds() < b.unix_seconds() || (a.unix_seconds() == b.unix_seconds()
        && a.subsec_nanos() <= b.subsec_nanos())
}

/// Whole milliseconds from `earlier` to `later`.
pub open spec fn millis_from(earlier: Timestamp, later: Timestamp) -> int {
    whole_millis(
        elapsed_nanos(
            later.unix_seconds(),
            later.subsec_nanos(),
            earlier.unix_seconds(),
            earlier.subsec_nanos(),
        ),
    )
}

/// The instant that a text writes.
pub open spec fn instant_in(text: Seq<char>) -> Option<Timestamp> {
    match parsed_utc(text) {
        Some(p) => Some(Timestamp::at(p.0 as int, p.1 as int)),
        None => None,
    }
}

impl Timestamp {
    #[verifier::type_invariant]
    spec fn held(self) -> bool {
        representable(self.seconds as int, self.nanos as int)
    }

    /// Whole seconds since 1970.
    pub closed spec fn unix_seconds(self) -> int {
        self.seconds as int
    }

    /// Nanoseconds past the second.
    pub closed spec fn subsec_nanos(self) -> int {
        self.nanos as int
    }

    /// The instant of so many seconds and nanoseconds.
    pub closed spec fn at(seconds: int, nanos: int) -> Timestamp {
        Timestamp { seconds: seconds as i64, nanos: nanos as u32 }
    }

    /// An instant that `chrono` can hold has the parts that it is made of.
    pub proof fn law_has_its_parts(seconds: int, nanos: int)
        requires
            representable(seconds, nanos),
        ensures
            Timestamp::at(seconds, nanos).unix_seconds() == seconds,
            Timestamp::at(seconds, nanos).subsec_nanos() == nanos,
    {
    }

    /// An instant is known by its seconds and nanoseconds.
    pub proof fn law_known_by_parts(t: Timestamp)
        ensures
            Timestamp::at(t.unix_seconds(), t.subsec_nanos()) == t,
    {
    }

    /// The instant so many seconds and nanoseconds after the start of 1970.
    pub fn from_unix(seconds: i64, nanos: u32) -> (r: Option<Timestamp>)
        ensures
            r == (if representable(seconds as int, nanos as int) {
                Some(Timestamp::at(seconds as int, nanos as int))
            } else {
                None
            }),
            match r {
                Some(t) => t.unix_seconds() == seconds && t.subsec_nanos() == nanos,
                None => true,
            },
    {
        match timestamp_opt(seconds, nanos) {
            Some(t) => Some(Timestamp { seconds: t.0, nanos: t.1 }),
            None => None,
        }
    }

    /// The instant that a text writes.
    pub fn parse(text: &str) -> (r: Option<Timestamp>)
        ensures
            r == instant_in(text@),
    {
        match chrono_parse(text) {
            Some(t) => Some(Timestamp { seconds: t.0, nanos: t.1 }),
            None => None,
        }
    }

    /// The current instant.
    pub fn now() -> (r: Timestamp)
        ensures
            representable(r.unix_seconds(), r.subsec_nanos()),
    {
        let t = chrono_now();
        Timestamp { seconds: t.0, nanos: t.1 }
    }

    /// Whole seconds since 1970, and the nanoseconds past them.
    pub fn to_unix(&self) -> (r: (i64, u32))
        ensures
            r.0 == self.unix_seconds(),
            r.1 == self.subsec_nanos(),
            representable(r.0 as int, r.1 as int),
    {
        proof {
            use_type_invariant(self);
        }
        (self.seconds, self.nanos)
    }

    /// The hour of the day, 0 to 23.
    pub fn hour(&self) -> (r: usize)
        ensures
            r == hour_of_day(self.unix_seconds()),
            r < 24,
    {
        proof {
            use_type_invariant(self);
        }
        chrono_hour(self.seconds, self.nanos) as usize
    }

    /// Whole milliseconds from `earlier` to this instant.
    pub fn millis_since(&self, earlier: &Timestamp) -> (r: i64)
        ensures
            r == millis_from(*earlier, *self),
    {
        proof {
            use_type_invariant(self);
            use_type_invariant(earlier);
        }
        chrono_millis_between((self.seconds, self.nanos), (earlier.seconds, earlier.nanos))
    }

    /// Nanoseconds since 1970, where an `i64` can hold them.
    pub fn unix_nanos(&self) -> (r: Option<i64>)
        ensures
            match r {
                Some(n) => n == self.unix_seconds() * 1_000_000_000 + self.subsec_nanos(),
                None => !(i64::MIN <= self.unix_seconds() * 1_000_000_000 + self.subsec_nanos()
                    <= i64::MAX),
            },
    {
        proof {
            use_type_invariant(self);
        }
        chrono_timestamp_nanos(self.seconds, self.nanos)
    }

    /// Whether this instant is not later than `other`.
    pub fn at_most(&self, other: &Timestamp) -> (r: bool)
        ensures
            r == not_after(*self, *other),
    {
        self.seconds < other.seconds || (self.seconds == other.seconds && self.nanos <= other.nanos)
    }
}

/// A day has the hours 0 to 23, each of 3600 seconds, and every day is the same.
pub proof fn law_hours_of_the_day(seconds: int)
    ensures
        0 <= hour_of_day(seconds) < 24,
        hour_of_day(seconds) * 3_600 <= seconds % 86_400 < (hour_of_day(seconds) + 1) * 3_600,
        hour_of_day(seconds + 86_400) == hour_of_day(seconds),
{
}

/// Instants stand in one order: of any two one is not after the other, the order chains, and
/// instants that are not after each other have the same parts.
pub proof fn law_order_of_instants(a: Timestamp, b: Timestamp, c: Timestamp)
    ensures
        not_after(a, b) || not_after(b, a),
        not_after(a, b) && not_after(b, c) ==> not_after(a, c),
        not_after(a, b) && not_after(b, a) ==> a.unix_seconds() == b.unix_seconds()
            && a.subsec_nanos() == b.subsec_nanos(),
        a.unix_seconds() < b.unix_seconds() ==> not_after(a, b) && !not_after(b, a),
        a.unix_seconds() == b.unix_seconds() && a.subsec_nanos() < b.subsec_nanos() ==> not_after(
            a,
            b,
        ) && !not_after(b, a),
{
}

/// Outside leap seconds the milliseconds from one instant to another are the whole ones of
/// the nanoseconds between them, and the way back is as long.
pub proof fn law_milliseconds_between(a: Timestamp, b: Timestamp)
    requires
        0 <= a.subsec_nanos() < 1_000_000_000,
        0 <= b.subsec_nanos() < 1_000_000_000,
    ensures
        ({
            let nanos = (b.unix_seconds() - a.unix_seconds()) * 1_000_000_000 + b.subsec_nanos()
                - a.subsec_nanos();
            nanos >= 0 ==> millis_from(a, b) * 1_000_000 <= nanos < (millis_from(a, b) + 1)
                * 1_000_000
        }),
        millis_from(a, b) == -millis_from(b, a),
{
}

} // verus!
