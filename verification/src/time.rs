//! Timestamps as microseconds since the Unix epoch, kept inside a range that
//! the calendar library accepts, so that every stored instant can be printed.

use vstd::prelude::*;

verus! {

/// Smallest timestamp (microseconds since the Unix epoch) the library stores.
pub const MIN_TS: i64 = -4_000_000_000_000_000_000;

/// Largest timestamp (microseconds since the Unix epoch) the library stores.
pub const MAX_TS: i64 = 4_000_000_000_000_000_000;

/// A timestamp the library is willing to hold in a task.
pub open spec fn ts_in_range(t: i64) -> bool {
    MIN_TS <= t <= MAX_TS
}

/// Force a raw clock reading into the storable range.
pub fn clamp_ts(t: i64) -> (r: i64)
    ensures
        r == clamp_ts_spec(t),
{
    if t < MIN_TS {
        MIN_TS
    } else if t > MAX_TS {
        MAX_TS
    } else {
        t
    }
}

/// What `clamp_ts` returns: the nearest storable timestamp.
pub open spec fn clamp_ts_spec(t: i64) -> i64 {
    if t < MIN_TS {
        MIN_TS
    } else if t > MAX_TS {
        MAX_TS
    } else {
        t
    }
}

pub proof fn lemma_clamp_in_range(t: i64)
    ensures
        ts_in_range(clamp_ts_spec(t)),
{
}

/// What the timestamp parser returns on a given text. The save format embeds
/// the UTC offset, so the instant is a function of the text alone.
pub uninterp spec fn ts_parse_of(s: Seq<char>) -> Option<i64>;

/// Relies on chrono's `DateTime::parse_from_str` with the fixed save format
/// `%Y-%m-%d %H:%M:%S%.f %z`: the format requires an offset in the text, so
/// the parsed instant depends on the text alone, on every machine.
#[verifier::external_body]
pub(crate) fn parse_ts(s: &str) -> (r: Option<i64>)
    ensures
        r == ts_parse_of(s@),
{
    match chrono::DateTime::parse_from_str(s, "%Y-%m-%d %H:%M:%S%.f %z") {
        Ok(dt) => Some(dt.timestamp_micros()),
        Err(_) => None,
    }
}

/// Relies on chrono: `TimeZone::timestamp_micros` maps every instant in the
/// storable range to a `DateTime<Utc>`, and formatting it with the save
/// format (date, time, fractional seconds and UTC offset) then parsing the
/// text with the same format returns the same instant. The zone is fixed at
/// UTC so that `%z` prints exactly `+0000`: a local zone's offset can carry
/// a seconds component that `%z` rounds to whole minutes, and re-parsing
/// would then shift the instant. The text is never empty: the format always
/// prints the date digits.
#[verifier::external_body]
pub(crate) fn format_ts(t: i64) -> (r: String)
    requires
        ts_in_range(t),
    ensures
        ts_parse_of(r@) == Some(t),
        r@.len() > 0,
{
    let dt = <chrono::Utc as chrono::TimeZone>::timestamp_micros(&chrono::Utc, t).unwrap();
    dt.format("%Y-%m-%d %H:%M:%S%.f %z").to_string()
}

/// Relies on chrono: formats an instant in the storable range as local
/// `%Y-%m-%d %H:%M` for display. Nothing is promised of the text.
#[verifier::external_body]
pub(crate) fn format_ts_short(t: i64) -> (r: String)
    requires
        ts_in_range(t),
{
    let dt = <chrono::Local as chrono::TimeZone>::timestamp_micros(&chrono::Local, t).unwrap();
    dt.format("%Y-%m-%d %H:%M").to_string()
}

/// Relies on chrono's `Local::now`. No promise is made about the reading.
#[verifier::external_body]
fn now_micros() -> i64 {
    chrono::Local::now().timestamp_micros()
}

/// The current clock reading, forced into the storable range.
pub fn current_timestamp() -> (r: i64)
    ensures
        ts_in_range(r),
{
    clamp_ts(now_micros())
}

/// A year is a leap year of the proleptic Gregorian calendar.
pub open spec fn is_leap_year(year: int) -> bool {
    (year % 4 == 0 && year % 100 != 0) || year % 400 == 0
}

/// The number of days in a month of the proleptic Gregorian calendar.
pub open spec fn days_in_month(year: int, month: int) -> int {
    if month == 2 {
        if is_leap_year(year) {
            29
        } else {
            28
        }
    } else if month == 4 || month == 6 || month == 9 || month == 11 {
        30
    } else {
        31
    }
}

/// The three numbers name a real day of the proleptic Gregorian calendar.
pub open spec fn valid_civil_date(year: int, month: int, day: int) -> bool {
    1 <= month <= 12 && 1 <= day <= days_in_month(year, month)
}

/// Relies on chrono: `NaiveDate::from_ymd_opt` (None exactly when the
/// numbers are no real proleptic Gregorian date), midnight via
/// `NaiveDate::and_hms_opt`, and the local zone's `from_local_datetime`
/// (the earlier instant is taken when the wall time is ambiguous). For a
/// year up to 9999 the instant stays far inside the storable range; which
/// instant it is depends on the machine's time zone, so nothing more is
/// promised of the value.
#[verifier::external_body]
fn local_midnight_raw(year: u32, month: u32, day: u32) -> (r: Option<i64>)
    requires
        1 <= year <= 9999,
    ensures
        r matches Some(t) ==> -1_000_000_000_000_000_000 <= t
            <= 1_000_000_000_000_000_000,
        r is Some ==> valid_civil_date(year as int, month as int, day as int),
{
    let date = match chrono::NaiveDate::from_ymd_opt(year as i32, month, day) {
        Some(d) => d,
        None => return None,
    };
    let dt = match date.and_hms_opt(0, 0, 0) {
        Some(d) => d,
        None => return None,
    };
    match <chrono::Local as chrono::TimeZone>::from_local_datetime(&chrono::Local, &dt) {
        chrono::LocalResult::Single(d) => Some(d.timestamp_micros()),
        chrono::LocalResult::Ambiguous(d, _) => Some(d.timestamp_micros()),
        chrono::LocalResult::None => None,
    }
}

/// The date text has the shape `YYYY-MM-DD`: four digits, a dash, two
/// digits, a dash, two digits.
pub open spec fn date_text_ok(s: Seq<char>) -> bool {
    &&& s.len() == 10
    &&& s[4] == '-'
    &&& s[7] == '-'
    &&& crate::num::is_digit(s[0])
    &&& crate::num::is_digit(s[1])
    &&& crate::num::is_digit(s[2])
    &&& crate::num::is_digit(s[3])
    &&& crate::num::is_digit(s[5])
    &&& crate::num::is_digit(s[6])
    &&& crate::num::is_digit(s[8])
    &&& crate::num::is_digit(s[9])
}

pub open spec fn date_year(s: Seq<char>) -> int {
    ((crate::num::digit_val(s[0]) * 10 + crate::num::digit_val(s[1])) * 10 + crate::num::digit_val(
        s[2],
    )) * 10 + crate::num::digit_val(s[3])
}

pub open spec fn date_month(s: Seq<char>) -> int {
    crate::num::digit_val(s[5]) * 10 + crate::num::digit_val(s[6])
}

pub open spec fn date_day(s: Seq<char>) -> int {
    crate::num::digit_val(s[8]) * 10 + crate::num::digit_val(s[9])
}

/// What `parse_date` returns: the year, month and day digits of a
/// `YYYY-MM-DD` text, for a year at least 1. Whether the numbers name a
/// real calendar date is settled later, by `midnight_timestamp`.
pub open spec fn parse_date_spec(s: Seq<char>) -> Option<(u32, u32, u32)> {
    if date_text_ok(s) && date_year(s) >= 1 {
        Some((date_year(s) as u32, date_month(s) as u32, date_day(s) as u32))
    } else {
        None
    }
}

/// Read a `YYYY-MM-DD` date text.
pub fn parse_date(s: &str) -> (r: Option<(u32, u32, u32)>)
    ensures
        r == parse_date_spec(s@),
{
    let cs = crate::text::str_to_chars(s);
    if cs.len() != 10 {
        return None;
    }
    if !(cs[4] == '-' && cs[7] == '-') {
        return None;
    }
    let d0 = crate::num::digit_val_exec(cs[0]);
    let d1 = crate::num::digit_val_exec(cs[1]);
    let d2 = crate::num::digit_val_exec(cs[2]);
    let d3 = crate::num::digit_val_exec(cs[3]);
    let d5 = crate::num::digit_val_exec(cs[5]);
    let d6 = crate::num::digit_val_exec(cs[6]);
    let d8 = crate::num::digit_val_exec(cs[8]);
    let d9 = crate::num::digit_val_exec(cs[9]);
    match (d0, d1, d2, d3, d5, d6, d8, d9) {
        (
            Some(y0),
            Some(y1),
            Some(y2),
            Some(y3),
            Some(m0),
            Some(m1),
            Some(dd0),
            Some(dd1),
        ) => {
            let year: u32 = (((y0 * 10 + y1) * 10 + y2) * 10 + y3) as u32;
            let month: u32 = (m0 * 10 + m1) as u32;
            let day: u32 = (dd0 * 10 + dd1) as u32;
            if year == 0 {
                return None;
            }
            Some((year, month, day))
        },
        _ => None,
    }
}

/// The instant of local midnight on the given calendar date, when the local
/// zone has one; `None` when the date is not a real calendar date or the
/// zone skips that midnight.
pub fn midnight_timestamp(year: u32, month: u32, day: u32) -> (r: Option<i64>)
    requires
        1 <= year <= 9999,
    ensures
        r matches Some(t) ==> MIN_TS <= t && t + 10_000_000_000 <= MAX_TS,
        r is Some ==> valid_civil_date(year as int, month as int, day as int),
{
    local_midnight_raw(year, month, day)
}

} // verus!
