//! Instants and wall-clock times, and what the calendar arithmetic of
//! `chrono` and the zone database of `chrono_tz` say about them.

use std::fmt::Write;
use vstd::prelude::*;

verus! {

/// A point on the UTC time line: whole seconds since 1970-01-01T00:00:00Z and
/// the nanoseconds within that second. A value of 1_000_000_000 or more in
/// `nanos` stands for a leap second.
#[derive(Clone, Copy, Debug, PartialEq, Eq, Hash, Structural)]
pub struct Instant {
    pub secs: i64,
    pub nanos: u32,
}

/// A date and time as a clock on a wall shows it, with no zone: whole
/// seconds since 1970-01-01T00:00:00 on that clock, and the nanoseconds
/// within the second.
#[derive(Clone, Copy, Debug, PartialEq, Eq, Structural)]
pub struct WallClock {
    pub secs: i64,
    pub nanos: u32,
}

/// The instants at which the clocks of a zone show a given wall-clock time.
#[derive(Clone, Copy, Debug, PartialEq, Eq, Structural)]
pub enum LocalTimes {
    /// The clocks skipped that time.
    Never,
    /// They showed it once.
    Once(Instant),
    /// They showed it twice: before and after they were set back.
    Twice(Instant, Instant),
}

/// The text that `chrono` writes for the instant under `pattern`, or `None`
/// where it has no such instant or cannot write it under that pattern.
pub uninterp spec fn utc_text(at: Instant, pattern: Seq<char>) -> Option<Seq<char>>;

/// The wall-clock time that `chrono` reads from `text` under `pattern`, as
/// seconds and nanoseconds, or `None` where it reads none.
pub uninterp spec fn wall_clock_reading(text: Seq<char>, pattern: Seq<char>) -> Option<WallClock>;

/// Whether the zone database has a zone called `name`.
pub uninterp spec fn zone_exists(name: Seq<char>) -> bool;

/// The instants at which the zone called `zone` shows the wall-clock time,
/// or `None` where there is no such zone or no such date.
pub uninterp spec fn local_resolution(time: WallClock, zone: Seq<char>) -> Option<LocalTimes>;

/// The pattern of a stamp in UTC.
pub open spec fn utc_pattern() -> Seq<char> {
    "%Y%m%dT%H%M%SZ"@
}

/// The first second of the year 0000 in UTC.
pub const FIRST_SECOND: i64 = -62_167_219_200;

/// The last second of the year 9999 in UTC.
pub const LAST_SECOND: i64 = 253_402_300_799;

/// The nanoseconds of a second.
pub const NANOS_PER_SECOND: u32 = 1_000_000_000;

/// Whether the instant lies in the years 0000 to 9999.
pub open spec fn in_stamp_years(at: Instant) -> bool {
    FIRST_SECOND <= at.secs <= LAST_SECOND
}

/// Whether the instant is a whole second.
pub open spec fn is_whole_second(at: Instant) -> bool {
    at.nanos % NANOS_PER_SECOND == 0
}

/// The instant without its part of a second. A leap second stays one.
pub open spec fn whole_second(at: Instant) -> Instant {
    Instant { secs: at.secs, nanos: (at.nanos - at.nanos % NANOS_PER_SECOND) as u32 }
}

/// Whether `c` is a decimal digit.
pub open spec fn is_digit(c: char) -> bool {
    '0' <= c <= '9'
}

/// Whether a text has the shape of a stamp in UTC: eight digits, a `T`,
/// six digits and a `Z`.
pub open spec fn is_utc_stamp(text: Seq<char>) -> bool {
    &&& text.len() == 16
    &&& text[8] == 'T'
    &&& text[15] == 'Z'
    &&& forall|i: int| 0 <= i < 16 && i != 8 && i != 15 ==> is_digit(#[trigger] text[i])
}

/// Writes an instant through `chrono::DateTime::format`: the instant is
/// made by `DateTime::from_timestamp`, and the outcome is the text that the
/// formatter writes, or `None` where the instant is out of range or the
/// formatter reports an error.
///
/// Two laws of `chrono` are claimed beside the name, both for the pattern
/// `%Y%m%dT%H%M%SZ` and an instant of the years 0000 to 9999. The first:
/// such an instant without a leap second is one that `from_timestamp`
/// makes, and the formatter writes it. The second: what is written is
/// year, month, day, hour, minute and second in four and five times two
/// digits, with the `T` and the `Z` of the pattern in their places and
/// without the part of a second, and `NaiveDateTime::parse_from_str` reads
/// that text under the same pattern as the same whole second. A leap
/// second is written as second 60 and read as such.
#[verifier::external_body]
pub(crate) fn format_utc(at: Instant, pattern: &str) -> (text: Option<String>)
    ensures
        match text {
            Some(t) => utc_text(at, pattern@) == Some(t@),
            None => utc_text(at, pattern@) is None,
        },
        pattern@ == utc_pattern() && in_stamp_years(at) && at.nanos < NANOS_PER_SECOND ==> text
            is Some,
        text matches Some(t) ==> (pattern@ == utc_pattern() && in_stamp_years(at) ==> is_utc_stamp(
            t@,
        ) && wall_clock_reading(t@, pattern@) == Some(
            WallClock { secs: at.secs, nanos: whole_second(at).nanos },
        )),
{
    let moment = chrono::DateTime::from_timestamp(at.secs, at.nanos)?;
    let mut text = String::new();
    write!(text, "{}", moment.format(pattern)).ok()?;
    Some(text)
}

/// Reads a wall-clock time through `chrono::NaiveDateTime::parse_from_str`.
/// The outcome is what that function reads, counted in seconds from
/// 1970-01-01T00:00:00 of the same clock, or `None` where it fails.
#[verifier::external_body]
pub(crate) fn read_wall_clock(text: &str, pattern: &str) -> (time: Option<WallClock>)
    ensures
        time == wall_clock_reading(text@, pattern@),
{
    let naive = chrono::NaiveDateTime::parse_from_str(text, pattern).ok()?.and_utc();
    Some(WallClock { secs: naive.timestamp(), nanos: naive.timestamp_subsec_nanos() })
}

/// Asks `chrono_tz::Tz::from_str` whether it knows a zone of that name.
#[verifier::external_body]
pub(crate) fn zone_is_known(name: &str) -> (known: bool)
    ensures
        known == zone_exists(name@),
{
    name.parse::<chrono_tz::Tz>().is_ok()
}

/// Resolves a wall-clock time in a zone through
/// `chrono::NaiveDateTime::and_local_timezone`, with the zone of that name
/// from `chrono_tz`. The three outcomes of that function are handed on as
/// they are, each instant in UTC; `None` stands for a name or a date that
/// the two crates do not have.
#[verifier::external_body]
pub(crate) fn resolve_local(time: WallClock, zone: &str) -> (times: Option<LocalTimes>)
    ensures
        times == local_resolution(time, zone@),
{
    let tz = zone.parse::<chrono_tz::Tz>().ok()?;
    let naive = chrono::DateTime::from_timestamp(time.secs, time.nanos)?.naive_utc();
    let utc = |t: chrono::DateTime<chrono_tz::Tz>| Instant {
        secs: t.to_utc().timestamp(),
        nanos: t.to_utc().timestamp_subsec_nanos(),
    };
    Some(match naive.and_local_timezone(tz) {
        chrono::LocalResult::None => LocalTimes::Never,
        chrono::LocalResult::Single(t) => LocalTimes::Once(utc(t)),
        chrono::LocalResult::Ambiguous(a, b) => LocalTimes::Twice(utc(a), utc(b)),
    })
}

} // verus!
