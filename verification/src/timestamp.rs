//! Instants in UTC, as the feeds write them and as the database stores them.
use chrono::{DateTime, SecondsFormat, Utc};
use vstd::prelude::*;

verus! {

/// The first second of the year -262143, the earliest that a calendar date can stand for.
pub const MIN_SECS: i64 = -8_334_601_228_800;

/// The last second of the year 262142, the latest that a calendar date can stand for.
pub const MAX_SECS: i64 = 8_210_266_876_799;

/// An instant: whole seconds since 1970-01-01T00:00:00Z, and nanoseconds past that second.
pub struct Instant {
    pub secs: int,
    pub nanos: int,
}

impl Instant {
    /// Whether a calendar date and a time of day stand for this instant. A second count of
    /// nanoseconds, from one billion on, is a leap second, which only follows the last second of
    /// a minute.
    pub open spec fn on_calendar(self) -> bool {
        &&& MIN_SECS <= self.secs <= MAX_SECS
        &&& 0 <= self.nanos < 2_000_000_000
        &&& self.nanos >= 1_000_000_000 ==> self.secs % 60 == 59
    }

    /// Whether this instant comes strictly before another.
    pub open spec fn before(self, other: Instant) -> bool {
        self.secs < other.secs || (self.secs == other.secs && self.nanos < other.nanos)
    }
}

/// An instant that a calendar date and a time of day stand for.
#[derive(Clone, Copy, Debug, PartialEq, Eq)]
pub struct Timestamp {
    secs: i64,
    nanos: u32,
}

impl View for Timestamp {
    type V = Instant;

    closed spec fn view(&self) -> Instant {
        Instant { secs: self.secs as int, nanos: self.nanos as int }
    }
}

impl Timestamp {
    #[verifier::type_invariant]
    spec fn well_formed(self) -> bool {
        self@.on_calendar()
    }

    /// The instant at the given seconds and nanoseconds, where it is on the calendar.
    pub fn new(secs: i64, nanos: u32) -> (r: Option<Timestamp>)
        ensures
            ({
                let at = Instant { secs: secs as int, nanos: nanos as int };
                match r {
                    Some(t) => at.on_calendar() && t@ == at,
                    None => !at.on_calendar(),
                }
            }),
    {
        if secs < MIN_SECS || secs > MAX_SECS || nanos >= 2_000_000_000 {
            return None;
        }
        if nanos >= 1_000_000_000 {
            let shifted: i64 = secs - MIN_SECS;
            if shifted % 60 != 59 {
                return None;
            }
        }
        Some(Timestamp { secs, nanos })
    }

    /// Whole seconds since 1970-01-01T00:00:00Z.
    pub fn secs(&self) -> (r: i64)
        ensures
            r == self@.secs,
    {
        self.secs
    }

    /// Nanoseconds past the whole second.
    pub fn nanos(&self) -> (r: u32)
        ensures
            r == self@.nanos,
    {
        self.nanos
    }

    /// Whether this instant comes strictly before another.
    pub fn is_before(&self, other: &Timestamp) -> (r: bool)
        ensures
            r == self@.before(other@),
    {
        self.secs < other.secs || (self.secs == other.secs && self.nanos < other.nanos)
    }

    /// The instant as the database stores it: RFC 3339 in UTC, to the millisecond.
    pub fn to_rfc3339(&self) -> (r: String)
        ensures
            r@ == rfc3339_millis(self@),
    {
        proof {
            use_type_invariant(self);
        }
        format_rfc3339(self.secs, self.nanos)
    }
}

/// No instant comes before itself, and of two instants that differ exactly one comes first.
pub proof fn before_is_total(a: Instant, b: Instant)
    ensures
        !a.before(a),
        !(a.before(b) && b.before(a)),
        a.before(b) || b.before(a) || a == b,
{
}

/// What comes before an earlier instant comes before a later one.
pub proof fn before_is_transitive(a: Instant, b: Instant, c: Instant)
    requires
        a.before(b),
        b.before(c),
    ensures
        a.before(c),
{
}

#[verifier::external_type_specification]
#[verifier::external_body]
pub struct ExDateParseError(chrono::ParseError);

/// The instant that `chrono::DateTime::parse_from_rfc3339` reads in a text, if it reads one.
pub uninterp spec fn rfc3339_instant(text: Seq<char>) -> Option<Instant>;

/// Calls `chrono::DateTime::parse_from_rfc3339` and keeps the instant in UTC. The contract says
/// that the outcome depends on the text alone and names it, and that the instant is on the
/// calendar; which texts are accepted, and which instant each stands for, is left to that function.
#[verifier::external_body]
pub(crate) fn parse_rfc3339(text: &str) -> (r: Result<Timestamp, chrono::ParseError>)
    ensures
        match r {
            Ok(t) => rfc3339_instant(text@) == Some(t@) && t@.on_calendar(),
            Err(_) => rfc3339_instant(text@) is None,
        },
{
    match DateTime::parse_from_rfc3339(text) {
        Ok(read) => {
            let utc = read.with_timezone(&Utc);
            Ok(Timestamp { secs: utc.timestamp(), nanos: utc.timestamp_subsec_nanos() })
        },
        Err(error) => Err(error),
    }
}

/// The text that `chrono::DateTime::<Utc>::to_rfc3339_opts` writes for an instant, with
/// milliseconds and with `Z` for the offset.
pub uninterp spec fn rfc3339_millis(at: Instant) -> Seq<char>;

/// Calls `chrono::DateTime::<Utc>::to_rfc3339_opts` for milliseconds and a `Z` offset. The
/// contract says that the text depends on the instant alone and names it. The precondition is
/// the range in which `chrono::DateTime::from_timestamp` has a date for the instant.
#[verifier::external_body]
fn format_rfc3339(secs: i64, nanos: u32) -> (r: String)
    requires
        (Instant { secs: secs as int, nanos: nanos as int }).on_calendar(),
    ensures
        r@ == rfc3339_millis(Instant { secs: secs as int, nanos: nanos as int }),
{
    DateTime::from_timestamp(secs, nanos).unwrap().to_rfc3339_opts(SecondsFormat::Millis, true)
}

/// Calls `chrono::Utc::now`. All that is promised of the clock is that its time is on the calendar.
/// A clock that is set to before 1970 makes that function panic.
#[verifier::external_body]
pub(crate) fn now() -> (r: Timestamp)
    ensures
        r@.on_calendar(),
{
    let utc = Utc::now();
    Timestamp { secs: utc.timestamp(), nanos: utc.timestamp_subsec_nanos() }
}

/// Fewer seconds since 1970 come before more, whatever the nanoseconds; at equal seconds fewer
/// nanoseconds come before more; and nothing else comes before anything.
pub proof fn before_goes_by_seconds_then_nanos(a: Instant, b: Instant)
    ensures
        a.secs < b.secs ==> a.before(b) && !b.before(a),
        a.secs == b.secs && a.nanos < b.nanos ==> a.before(b) && !b.before(a),
        a.secs == b.secs && a.nanos == b.nanos ==> !a.before(b) && !b.before(a),
{
}

/// Moving two instants by the same number of seconds keeps their order.
pub proof fn before_does_not_rest_on_the_epoch(a: Instant, b: Instant, shift: int)
    ensures
        a.before(b) <==> (Instant { secs: a.secs + shift, ..a }).before(
            (Instant { secs: b.secs + shift, ..b }),
        ),
{
}

/// The calendar is made of whole days, has every nanosecond of every second between its first and
/// its last, and one more second of nanoseconds at the end of each minute.
pub proof fn what_the_calendar_holds(at: Instant)
    ensures
        MIN_SECS % 86_400 == 0,
        (MAX_SECS + 1) % 86_400 == 0,
        at.on_calendar() ==> -8_334_601_228_800 <= at.secs < 8_210_266_876_800 && 0 <= at.nanos,
        -8_334_601_228_800 <= at.secs < 8_210_266_876_800 && 0 <= at.nanos < 1_000_000_000
            ==> at.on_calendar(),
        -8_334_601_228_800 <= at.secs < 8_210_266_876_800 && 1_000_000_000 <= at.nanos
            < 2_000_000_000 ==> (at.on_calendar() <==> (at.secs + 1) % 60 == 0),
        at.nanos >= 2_000_000_000 ==> !at.on_calendar(),
{
}

} // verus!
