//! Calendar dates through `chrono`: reading them from text and writing them
//! as text. Dates travel through the library as day numbers (see
//! [`CellValue::Date`](crate::CellValue::Date)); only these functions turn
//! them into `chrono` values.

use crate::edit::{edited, EditError, FromValue};
use crate::filter::{coerce_spec, FilterValue, ValueKind};
use crate::value::{midnight_of, CellModel, Timestamp};
use std::fmt::Write;
use vstd::prelude::*;

verus! {

/// What `NaiveDate::parse_from_str(text, pattern)` yields, as the day
/// number of the date it reads (`num_days_from_ce`).
pub uninterp spec fn parsed_date(text: Seq<char>, pattern: Seq<char>) -> Option<i32>;

/// What `NaiveDateTime::parse_from_str(text, pattern)` yields, as a
/// timestamp.
pub uninterp spec fn parsed_date_time(text: Seq<char>, pattern: Seq<char>) -> Option<Timestamp>;

/// The text `NaiveDate::format(pattern)` writes for the date with this day
/// number; `None` where there is no such date or the pattern is invalid.
pub uninterp spec fn formatted_date(days: i32, pattern: Seq<char>) -> Option<Seq<char>>;

/// The text `NaiveDateTime::format(pattern)` writes for this timestamp;
/// `None` where there is no such date and time or the pattern is invalid.
pub uninterp spec fn formatted_date_time(t: Timestamp, pattern: Seq<char>) -> Option<Seq<char>>;

/// The text `NaiveDate`'s `Display` writes for the date with this day
/// number; `None` where there is no such date.
pub uninterp spec fn displayed_date(days: i32) -> Option<Seq<char>>;

/// The text `NaiveDateTime`'s `Display` writes for this timestamp; `None`
/// where there is no such date and time.
pub uninterp spec fn displayed_date_time(t: Timestamp) -> Option<Seq<char>>;

/// Reads a date with `NaiveDate::parse_from_str`.
///
/// Trusted: the result equals `parsed_date(text@, pattern@)`; which texts
/// a pattern accepts is chrono's parser and is not restated.
#[verifier::external_body]
fn chrono_parse_date(text: &str, pattern: &str) -> (r: Option<i32>)
    ensures
        r == parsed_date(text@, pattern@),
{
    match chrono::NaiveDate::parse_from_str(text, pattern) {
        Ok(date) => Some(chrono::Datelike::num_days_from_ce(&date)),
        Err(_) => None,
    }
}

/// Reads a date and time with `NaiveDateTime::parse_from_str`.
///
/// Trusted: the result equals `parsed_date_time(text@, pattern@)`; the
/// parser itself is chrono's and is not restated.
#[verifier::external_body]
fn chrono_parse_date_time(text: &str, pattern: &str) -> (r: Option<Timestamp>)
    ensures
        r == parsed_date_time(text@, pattern@),
{
    match chrono::NaiveDateTime::parse_from_str(text, pattern) {
        Ok(moment) => Some(Timestamp {
            days: chrono::Datelike::num_days_from_ce(&moment),
            seconds: chrono::Timelike::num_seconds_from_midnight(&moment),
            nanos: chrono::Timelike::nanosecond(&moment),
        }),
        Err(_) => None,
    }
}

/// Writes a date with `NaiveDate::format`.
///
/// Trusted: the result's text equals `formatted_date(days, pattern@)`;
/// the formatting is chrono's and is not restated.
#[verifier::external_body]
pub(crate) fn chrono_format_date(days: i32, pattern: &str) -> (r: Option<String>)
    ensures
        match r {
            Some(s) => formatted_date(days, pattern@) == Some(s@),
            None => formatted_date(days, pattern@) is None,
        },
{
    let date = chrono::NaiveDate::from_num_days_from_ce_opt(days)?;
    let mut text = String::new();
    write!(text, "{}", date.format(pattern)).ok()?;
    Some(text)
}

/// Writes a date and time with `NaiveDateTime::format`.
///
/// Trusted: the result's text equals `formatted_date_time(t, pattern@)`;
/// the formatting is chrono's and is not restated.
#[verifier::external_body]
pub(crate) fn chrono_format_date_time(t: Timestamp, pattern: &str) -> (r: Option<String>)
    ensures
        match r {
            Some(s) => formatted_date_time(t, pattern@) == Some(s@),
            None => formatted_date_time(t, pattern@) is None,
        },
{
    let date = chrono::NaiveDate::from_num_days_from_ce_opt(t.days)?;
    let time = chrono::NaiveTime::from_num_seconds_from_midnight_opt(t.seconds, t.nanos)?;
    let mut text = String::new();
    write!(text, "{}", chrono::NaiveDateTime::new(date, time).format(pattern)).ok()?;
    Some(text)
}

/// Writes a date with `NaiveDate`'s `Display`.
///
/// Trusted: the result's text equals `displayed_date(days)`.
#[verifier::external_body]
pub(crate) fn chrono_display_date(days: i32) -> (r: Option<String>)
    ensures
        match r {
            Some(s) => displayed_date(days) == Some(s@),
            None => displayed_date(days) is None,
        },
{
    Some(chrono::NaiveDate::from_num_days_from_ce_opt(days)?.to_string())
}

/// Writes a date and time with `NaiveDateTime`'s `Display`.
///
/// Trusted: the result's text equals `displayed_date_time(t)`.
#[verifier::external_body]
pub(crate) fn chrono_display_date_time(t: Timestamp) -> (r: Option<String>)
    ensures
        match r {
            Some(s) => displayed_date_time(t) == Some(s@),
            None => displayed_date_time(t) is None,
        },
{
    let date = chrono::NaiveDate::from_num_days_from_ce_opt(t.days)?;
    let time = chrono::NaiveTime::from_num_seconds_from_midnight_opt(t.seconds, t.nanos)?;
    Some(chrono::NaiveDateTime::new(date, time).to_string())
}

/// The first of `a`, `b`, `c` that is `Some`.
pub open spec fn first_some<T>(a: Option<T>, b: Option<T>, c: Option<T>) -> Option<T> {
    if a is Some {
        a
    } else if b is Some {
        b
    } else {
        c
    }
}

/// The date `text` reads as: ISO `2026-09-18`, German `18.09.2026` or US
/// `09/18/2026`, tried in that order.
pub open spec fn parse_date_spec(text: Seq<char>) -> Option<i32> {
    first_some(
        parsed_date(text, "%Y-%m-%d"@),
        parsed_date(text, "%d.%m.%Y"@),
        parsed_date(text, "%m/%d/%Y"@),
    )
}

/// The date and time `text` reads as: ISO with a space or a `T`, with or
/// without seconds, German, US, or a date alone at midnight.
pub open spec fn parse_date_time_spec(text: Seq<char>) -> Option<Timestamp> {
    let with_time = first_some(
        first_some(
            parsed_date_time(text, "%Y-%m-%d %H:%M:%S"@),
            parsed_date_time(text, "%Y-%m-%dT%H:%M:%S"@),
            parsed_date_time(text, "%Y-%m-%d %H:%M"@),
        ),
        parsed_date_time(text, "%Y-%m-%dT%H:%M"@),
        first_some(
            parsed_date_time(text, "%d.%m.%Y %H:%M"@),
            parsed_date_time(text, "%m/%d/%Y %H:%M"@),
            None,
        ),
    );
    if with_time is Some {
        with_time
    } else {
        match parse_date_spec(text) {
            Some(days) => Some(midnight_of(days)),
            None => None,
        }
    }
}

/// Reads a date in one of the accepted forms.
pub fn parse_date(text: &str) -> (r: Option<i32>)
    ensures
        r == parse_date_spec(text@),
{
    let iso = chrono_parse_date(text, "%Y-%m-%d");
    if iso.is_some() {
        return iso;
    }
    let german = chrono_parse_date(text, "%d.%m.%Y");
    if german.is_some() {
        return german;
    }
    chrono_parse_date(text, "%m/%d/%Y")
}

/// Reads a date and time in one of the accepted forms.
pub fn parse_date_time(text: &str) -> (r: Option<Timestamp>)
    ensures
        r == parse_date_time_spec(text@),
{
    let a = chrono_parse_date_time(text, "%Y-%m-%d %H:%M:%S");
    if a.is_some() {
        return a;
    }
    let b = chrono_parse_date_time(text, "%Y-%m-%dT%H:%M:%S");
    if b.is_some() {
        return b;
    }
    let c = chrono_parse_date_time(text, "%Y-%m-%d %H:%M");
    if c.is_some() {
        return c;
    }
    let d = chrono_parse_date_time(text, "%Y-%m-%dT%H:%M");
    if d.is_some() {
        return d;
    }
    let e = chrono_parse_date_time(text, "%d.%m.%Y %H:%M");
    if e.is_some() {
        return e;
    }
    let f = chrono_parse_date_time(text, "%m/%d/%Y %H:%M");
    if f.is_some() {
        return f;
    }
    match parse_date(text) {
        Some(days) => Some(Timestamp::midnight(days)),
        None => None,
    }
}

#[verifier::external_type_specification]
#[verifier::external_body]
pub struct ExNaiveDate(chrono::NaiveDate);

#[verifier::external_type_specification]
#[verifier::external_body]
pub struct ExNaiveDateTime(chrono::NaiveDateTime);

#[verifier::external_type_specification]
#[verifier::external_body]
pub struct ExNaiveTime(chrono::NaiveTime);

/// The day number (`num_days_from_ce`) of `NaiveDate::MIN`, 1 January
/// 262144 BCE.
pub const MIN_DAYS: i32 = -95746129;

/// The day number (`num_days_from_ce`) of `NaiveDate::MAX`, 31 December
/// 262142 CE.
pub const MAX_DAYS: i32 = 95745399;

/// Whether chrono can hold the date with this day number: it lies between
/// `NaiveDate::MIN` and `NaiveDate::MAX`.
pub open spec fn day_in_range(days: i32) -> bool {
    MIN_DAYS <= days <= MAX_DAYS
}

/// Whether chrono can hold this time of day: a second of the day, with a
/// fraction under one second, or under two within the last second of a
/// minute (a leap second).
pub open spec fn time_in_range(seconds: u32, nanos: u32) -> bool {
    seconds < 86400 && (nanos < 1_000_000_000 || (nanos < 2_000_000_000 && seconds % 60 == 59))
}

/// The day number of a chrono date, as `Datelike::num_days_from_ce` gives
/// it: 1 January of year 1 is day 1.
pub uninterp spec fn date_days(d: chrono::NaiveDate) -> i32;

/// The seconds since midnight of a chrono time, as
/// `Timelike::num_seconds_from_midnight` gives them.
pub uninterp spec fn time_seconds(t: chrono::NaiveTime) -> u32;

/// The nanoseconds within the second of a chrono time, as
/// `Timelike::nanosecond` gives them (a leap second's included).
pub uninterp spec fn time_nanos(t: chrono::NaiveTime) -> u32;

/// The date of a chrono moment, as `NaiveDateTime::date` gives it.
pub uninterp spec fn moment_date(m: chrono::NaiveDateTime) -> chrono::NaiveDate;

/// The time of day of a chrono moment, as `NaiveDateTime::time` gives it.
pub uninterp spec fn moment_time(m: chrono::NaiveDateTime) -> chrono::NaiveTime;

/// The timestamp a chrono moment stands for: its date's day number, and
/// its time's seconds and nanoseconds.
pub open spec fn moment_stamp(m: chrono::NaiveDateTime) -> Timestamp {
    Timestamp {
        days: date_days(moment_date(m)),
        seconds: time_seconds(moment_time(m)),
        nanos: time_nanos(moment_time(m)),
    }
}

/// The date with this day number, by `NaiveDate::from_num_days_from_ce_opt`.
///
/// Trusted to give a date exactly when the day number lies between the day
/// numbers of `NaiveDate::MIN` and `NaiveDate::MAX`, and then the date
/// whose day number is `days`.
#[verifier::external_body]
fn chrono_date(days: i32) -> (r: Option<chrono::NaiveDate>)
    ensures
        r is Some == day_in_range(days),
        r matches Some(d) ==> date_days(d) == days,
{
    chrono::NaiveDate::from_num_days_from_ce_opt(days)
}

/// The time of day `seconds` after midnight plus `nanos`, by
/// `NaiveTime::from_num_seconds_from_midnight_opt`.
///
/// Trusted to give a time exactly when chrono's documentation says it does:
/// under 86400 seconds, with under a second of nanoseconds, or under two in
/// a minute's last second (a leap second); and then the time that keeps
/// those seconds and nanoseconds.
#[verifier::external_body]
fn chrono_time(seconds: u32, nanos: u32) -> (r: Option<chrono::NaiveTime>)
    ensures
        r is Some == time_in_range(seconds, nanos),
        r matches Some(t) ==> time_seconds(t) == seconds && time_nanos(t) == nanos,
{
    chrono::NaiveTime::from_num_seconds_from_midnight_opt(seconds, nanos)
}

/// The moment at `time` on `date`, by `NaiveDateTime::new`, which cannot
/// fail. Trusted to keep the date and the time it is given.
#[verifier::external_body]
fn chrono_date_time(date: chrono::NaiveDate, time: chrono::NaiveTime) -> (r: chrono::NaiveDateTime)
    ensures
        moment_date(r) == date,
        moment_time(r) == time,
{
    chrono::NaiveDateTime::new(date, time)
}

/// The moment a timestamp stands for, when chrono can hold both its day and
/// its time of day.
fn chrono_moment(t: Timestamp) -> (r: Option<chrono::NaiveDateTime>)
    ensures
        r is Some == (day_in_range(t.days) && time_in_range(t.seconds, t.nanos)),
        r matches Some(m) ==> moment_stamp(m) == t,
{
    match chrono_date(t.days) {
        Some(date) => match chrono_time(t.seconds, t.nanos) {
            Some(time) => Some(chrono_date_time(date, time)),
            None => None,
        },
        None => None,
    }
}

impl FromValue for chrono::NaiveDate {
    /// Reads a date, in one of the accepted forms if it is text: the date
    /// with the value's day number. Refused when empty, not a date, or a
    /// day chrono cannot hold.
    fn from_value(value: Option<FilterValue>) -> (r: Result<Self, EditError>)
        ensures
            match edited(value) {
                None => r matches Err(EditError::Required),
                Some(v) => match coerce_spec(v, ValueKind::Date) {
                    Some(CellModel::Date(d)) => if day_in_range(d) {
                        r matches Ok(x) && date_days(x) == d
                    } else {
                        r matches Err(EditError::Invalid(ValueKind::Date))
                    },
                    _ => r matches Err(EditError::Invalid(ValueKind::Date)),
                },
            },
    {
        match value {
            None => Err(EditError::Required),
            Some(v) => match v.coerce(ValueKind::Date) {
                Some(FilterValue::Date(days)) => match chrono_date(days) {
                    Some(date) => Ok(date),
                    None => Err(EditError::Invalid(ValueKind::Date)),
                },
                _ => Err(EditError::Invalid(ValueKind::Date)),
            },
        }
    }
}

impl FromValue for chrono::NaiveDateTime {
    /// Reads a date and time, in one of the accepted forms if it is text: the
    /// moment of the value's timestamp, a date being its midnight. Refused
    /// when empty, not a date, or a moment chrono cannot hold.
    fn from_value(value: Option<FilterValue>) -> (r: Result<Self, EditError>)
        ensures
            match edited(value) {
                None => r matches Err(EditError::Required),
                Some(v) => match coerce_spec(v, ValueKind::DateTime) {
                    Some(CellModel::DateTime(t)) => if day_in_range(t.days) && time_in_range(t.seconds, t.nanos) {
                        r matches Ok(x) && moment_stamp(x) == t
                    } else {
                        r matches Err(EditError::Invalid(ValueKind::DateTime))
                    },
                    _ => r matches Err(EditError::Invalid(ValueKind::DateTime)),
                },
            },
    {
        match value {
            None => Err(EditError::Required),
            Some(v) => match v.coerce(ValueKind::DateTime) {
                Some(FilterValue::DateTime(t)) => match chrono_moment(t) {
                    Some(moment) => Ok(moment),
                    None => Err(EditError::Invalid(ValueKind::DateTime)),
                },
                _ => Err(EditError::Invalid(ValueKind::DateTime)),
            },
        }
    }
}

} // verus!
