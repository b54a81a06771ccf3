//! Calendar dates and the calls into `chrono` that read and show times.
use vstd::prelude::*;

use chrono::Datelike;

use crate::text::{trim, trimmed};

verus! {

/// A day of the proleptic Gregorian calendar, as `chrono::NaiveDate`
/// reports it.  Dates order chronologically, which for valid dates is
/// the lexicographic order of (year, month, day).
#[derive(Debug, Clone, Copy, PartialEq, Eq, Structural)]
pub struct CalendarDate {
    pub year: i32,
    pub month: u32,
    pub day: u32,
}

/// `a` is an earlier day than `b`.
pub open spec fn date_before(a: CalendarDate, b: CalendarDate) -> bool {
    ||| a.year < b.year
    ||| a.year == b.year && a.month < b.month
    ||| a.year == b.year && a.month == b.month && a.day < b.day
}

impl CalendarDate {
    /// The date with the given year, month and day.
    pub fn new(year: i32, month: u32, day: u32) -> (d: CalendarDate)
        ensures
            d.year == year,
            d.month == month,
            d.day == day,
    {
        CalendarDate { year, month, day }
    }

    /// Whether `self` is an earlier day than `other`.
    pub fn is_before(&self, other: &CalendarDate) -> (r: bool)
        ensures
            r == date_before(*self, *other),
    {
        self.year < other.year || (self.year == other.year && self.month < other.month) || (
        self.year == other.year && self.month == other.month && self.day < other.day)
    }
}

/// What `NaiveDate::parse_from_str(s, "%Y-%m-%d")` yields on `s`.
pub uninterp spec fn iso_date_of(s: Seq<char>) -> Option<CalendarDate>;

/// `chrono::NaiveDate::parse_from_str` with the format `%Y-%m-%d`; the
/// result is taken as given by `iso_date_of`.
#[verifier::external_body]
fn parse_iso_date(s: &str) -> (r: Option<CalendarDate>)
    ensures
        r == iso_date_of(s@),
{
    match chrono::NaiveDate::parse_from_str(s, "%Y-%m-%d") {
        Ok(d) => Some(CalendarDate { year: d.year(), month: d.month(), day: d.day() }),
        Err(_) => None,
    }
}

/// The date typed into a filter field: `None` for a blank field,
/// otherwise what `%Y-%m-%d` parsing of the trimmed text gives.
pub open spec fn date_field(s: Seq<char>) -> Option<CalendarDate> {
    if trimmed(s).len() == 0 {
        None
    } else {
        iso_date_of(trimmed(s))
    }
}

/// Reads a `YYYY-MM-DD` date from a filter field.
pub fn parse_date(s: &str) -> (r: Option<CalendarDate>)
    ensures
        r == date_field(s@),
{
    let t = trim(s);
    if t.as_str().is_empty() {
        None
    } else {
        parse_iso_date(t.as_str())
    }
}

/// What `DateTime::parse_from_rfc3339(s)` yields on `s`, as its Unix
/// timestamp in seconds and the nanoseconds within that second.
pub uninterp spec fn rfc3339_instant(s: Seq<char>) -> Option<(i64, u32)>;

/// The instants that chrono's RFC 3339 parser can yield: the year has
/// four digits and the offset is under a day, so the timestamp lies
/// between 0000-01-01 and 10000-01-01 give or take a day; the
/// nanoseconds stay below two seconds, and reach one second (a leap
/// second) only on the last second of a minute.
pub open spec fn parsed_instant(secs: i64, nanos: u32) -> bool {
    &&& -62_167_305_600 <= secs <= 253_402_387_200
    &&& nanos < 2_000_000_000
    &&& nanos >= 1_000_000_000 ==> secs % 60 == 59
}

/// `chrono::DateTime::parse_from_rfc3339`; the instant it denotes is
/// taken as given by `rfc3339_instant`.  Its source reads a four-digit
/// year and an offset of at most 23:59 (in whole minutes), and keeps a
/// leap second as second 59 with a second's worth of extra nanoseconds:
/// the instant is a `parsed_instant`.
#[verifier::external_body]
pub(crate) fn parse_rfc3339(s: &str) -> (r: Option<(i64, u32)>)
    ensures
        r == rfc3339_instant(s@),
        r matches Some((secs, nanos)) ==> parsed_instant(secs, nanos),
{
    match chrono::DateTime::parse_from_rfc3339(s) {
        Ok(d) => Some((d.timestamp(), d.timestamp_subsec_nanos())),
        Err(_) => None,
    }
}

pub open spec fn is_leap_year(y: int) -> bool {
    (y % 4 == 0 && y % 100 != 0) || y % 400 == 0
}

pub open spec fn days_in_month(y: int, m: int) -> int {
    if m == 2 {
        if is_leap_year(y) {
            29
        } else {
            28
        }
    } else if m == 4 || m == 6 || m == 9 || m == 11 {
        30
    } else {
        31
    }
}

/// A day that exists in the proleptic Gregorian calendar.
pub open spec fn valid_date(d: CalendarDate) -> bool {
    &&& 1 <= d.month <= 12
    &&& 1 <= d.day <= days_in_month(d.year as int, d.month as int)
}

/// The number of days from 1970-01-01 to `d` (negative before it).
pub open spec fn day_number(d: CalendarDate) -> int {
    let y: int = if d.month <= 2 {
        d.year - 1
    } else {
        d.year as int
    };
    let era = y / 400;
    let yoe = y - era * 400;
    let mp: int = if d.month > 2 {
        d.month - 3
    } else {
        d.month + 9
    };
    let doy = (153 * mp + 2) / 5 + d.day - 1;
    let doe = yoe * 365 + yoe / 4 - yoe / 100 + doy;
    era * 146097 + doe - 719468
}

/// `d` is the day on which the instant `secs` (seconds since the Unix
/// epoch) falls under some offset from UTC of less than a day: the
/// local day of that instant, in whatever time zone the machine is in.
pub open spec fn shows_local_day(d: CalendarDate, secs: int) -> bool {
    &&& valid_date(d)
    &&& exists|off: int| -86_400 < off < 86_400 && day_number(d) == #[trigger] shifted(secs, off, 86_400)
}

/// The number of whole `unit`s from the epoch to the instant `secs`
/// moved by `off` seconds.
pub open spec fn shifted(secs: int, off: int, unit: int) -> int {
    (secs + off) / unit
}

/// The value of a decimal digit character.
pub open spec fn digit_of(c: char) -> int {
    c as int - '0' as int
}

pub open spec fn is_digit(c: char) -> bool {
    '0' <= c <= '9'
}

/// The date written in the first ten characters of `YYYY-MM-DD ...`.
pub open spec fn text_date(t: Seq<char>) -> CalendarDate {
    CalendarDate {
        year: (1000 * digit_of(t[0]) + 100 * digit_of(t[1]) + 10 * digit_of(t[2]) + digit_of(
            t[3],
        )) as i32,
        month: (10 * digit_of(t[5]) + digit_of(t[6])) as u32,
        day: (10 * digit_of(t[8]) + digit_of(t[9])) as u32,
    }
}

/// `t` is `YYYY-MM-DD HH:MM` for a valid day and time whose minute,
/// counted from 1970-01-01 00:00, is `minute`.
pub open spec fn minute_text_at(t: Seq<char>, minute: int) -> bool {
    &&& t.len() == 16
    &&& forall|i: int|
        0 <= i < 16 && i != 4 && i != 7 && i != 10 && i != 13 ==> is_digit(#[trigger] t[i])
    &&& t[4] == '-' && t[7] == '-' && t[10] == ' ' && t[13] == ':'
    &&& valid_date(text_date(t))
    &&& 10 * digit_of(t[11]) + digit_of(t[12]) <= 23
    &&& 10 * digit_of(t[14]) + digit_of(t[15]) <= 59
    &&& day_number(text_date(t)) * 1440 + (10 * digit_of(t[11]) + digit_of(t[12])) * 60 + (10
        * digit_of(t[14]) + digit_of(t[15])) == minute
}

/// `t` shows the instant `secs` as `YYYY-MM-DD HH:MM` under some offset
/// from UTC of less than a day: its local time, in whatever time zone
/// the machine is in.
pub open spec fn shows_local_minute(t: Seq<char>, secs: int) -> bool {
    exists|off: int| -86_400 < off < 86_400 && minute_text_at(t, #[trigger] shifted(secs, off, 60))
}

/// Instants at least a day after 0000-01-01 and a day before 10000-01-01:
/// in every time zone their year has four digits.
pub open spec fn four_digit_years(secs: int) -> bool {
    -62_167_132_800 <= secs < 253_402_214_400
}

/// The calendar day of an instant in the machine's local time zone
/// (`DateTime::from_timestamp`, `with_timezone(&Local)`, `date_naive`).
/// `from_timestamp` gives a time for every instant of `parsed_instant`
/// (its source fails only outside chrono's date range, or on
/// nanoseconds of two seconds and more, or of a leap second off a
/// minute's last second).  The local offset is a `FixedOffset`, which
/// is less than a day, so the day is that of the instant moved by less
/// than a day; which offset applies depends on the machine's time zone.
#[verifier::external_body]
fn local_date_of_instant(secs: i64, nanos: u32) -> (r: Option<CalendarDate>)
    ensures
        parsed_instant(secs, nanos) ==> r is Some && shows_local_day(r.unwrap(), secs as int),
{
    match chrono::DateTime::from_timestamp(secs, nanos) {
        Some(d) => {
            let n = d.with_timezone(&chrono::Local).date_naive();
            Some(CalendarDate { year: n.year(), month: n.month(), day: n.day() })
        },
        None => None,
    }
}

/// The local time of an instant shown as `%Y-%m-%d %H:%M`
/// (`DateTime::from_timestamp`, `with_timezone(&Local)`, `format`).
/// As for `local_date_of_instant`, there is a time for every
/// `parsed_instant`, moved from UTC by an offset of less than a day.
/// chrono writes a year from 0 to 9999 as four zero-padded digits and
/// month, day, hour and minute as two, so for `four_digit_years` the
/// text is `YYYY-MM-DD HH:MM` of that local minute.
#[verifier::external_body]
fn local_minute_text(secs: i64, nanos: u32) -> (r: Option<String>)
    ensures
        parsed_instant(secs, nanos) ==> r is Some,
        parsed_instant(secs, nanos) && four_digit_years(secs as int) ==> shows_local_minute(
            r.unwrap()@,
            secs as int,
        ),
{
    match chrono::DateTime::from_timestamp(secs, nanos) {
        Some(d) => Some(d.with_timezone(&chrono::Local).format("%Y-%m-%d %H:%M").to_string()),
        None => None,
    }
}

/// `d` is the local day of the timestamp text `rfc3339`: none when the
/// text is no RFC 3339 timestamp, else the day on which its instant
/// falls in local time.
pub open spec fn local_day_of(rfc3339: Seq<char>, d: Option<CalendarDate>) -> bool {
    match rfc3339_instant(rfc3339) {
        Some((secs, _)) => d matches Some(x) && shows_local_day(x, secs as int),
        None => d is None,
    }
}

/// `shown` is how the timestamp text `rfc3339` is shown: unchanged when
/// it is no RFC 3339 timestamp, else as its local `YYYY-MM-DD HH:MM`
/// (for instants whose local year has four digits in every time zone).
pub open spec fn local_text_of(rfc3339: Seq<char>, shown: Seq<char>) -> bool {
    match rfc3339_instant(rfc3339) {
        Some((secs, _)) => four_digit_years(secs as int) ==> shows_local_minute(shown, secs as int),
        None => shown == rfc3339,
    }
}

/// The local calendar day of an RFC 3339 timestamp; `None` when the text
/// is no RFC 3339 timestamp.
pub fn local_date(rfc3339: &str) -> (r: Option<CalendarDate>)
    ensures
        r is Some <==> rfc3339_instant(rfc3339@) is Some,
        local_day_of(rfc3339@, r),
{
    match parse_rfc3339(rfc3339) {
        Some((secs, nanos)) => local_date_of_instant(secs, nanos),
        None => None,
    }
}

/// An RFC 3339 timestamp shown in local time as `YYYY-MM-DD HH:MM`; text
/// that is no RFC 3339 timestamp is returned unchanged.
pub fn format_local_date(iso: &str) -> (r: String)
    ensures
        rfc3339_instant(iso@) is None ==> r@ == iso@,
        local_text_of(iso@, r@),
{
    match parse_rfc3339(iso) {
        Some((secs, nanos)) => match local_minute_text(secs, nanos) {
            Some(t) => t,
            None => iso.to_owned(),
        },
        None => iso.to_owned(),
    }
}

} // verus!
