//! The calls into the `chrono` crate. Each stands behind a contract that is
//! taken on trust: the verifier does not look into chrono, and what the rest
//! of the library proves of dates and instants is proved from these contracts.

use crate::calendar::{
    date_exists, days_before_month, days_since_epoch, seconds_since_midnight, time_exists,
};
use crate::notation::{date_text, utc_text, DATE_PATTERN};
use chrono::{DateTime, NaiveDate};
use vstd::prelude::*;

verus! {

/// The first second that chrono can show as a date and time: the midnight
/// that begins the first of January of the year -262143.
pub const MIN_TIMESTAMP: i64 = -8_334_601_228_800;

/// The last second that chrono can show as a date and time: the last one of
/// the 31st of December of the year 262142.
pub const MAX_TIMESTAMP: i64 = 8_210_266_876_799;

/// Builds the date with chrono's `NaiveDate::from_ymd_opt` and writes it with
/// `NaiveDate::format`, whose result is turned into a `String` at once.
///
/// Taken on trust: chrono builds the date exactly when the calendar has that
/// day, and under [`DATE_PATTERN`] it writes the English three-letter weekday,
/// a comma and a space, the day in two digits, a space, the English
/// three-letter month, a comma and a space, and the year in four digits. The
/// years are held to 0 to 9999, where century and year-in-century have two
/// digits each.
#[verifier::external_body]
pub(crate) fn format_date(
    year: i32,
    month: u32,
    day: u32,
    pattern: &str,
) -> (text: Option<String>)
    requires
        0 <= year <= 9999,
        pattern@ == DATE_PATTERN@,
    ensures
        text is Some <==> date_exists(year as int, month as int, day as int),
        text matches Some(t) ==> t@ == date_text(year as int, month as int, day as int),
{
    match NaiveDate::from_ymd_opt(year, month, day) {
        Some(date) => Some(date.format(pattern).to_string()),
        None => None,
    }
}

/// Builds the date with chrono's `NaiveDate::from_ymd_opt`, sets the time of
/// day with `NaiveDate::and_hms_opt` and asks `DateTime::timestamp` for the
/// seconds since the first of January 1970, 0:00:00 UTC.
///
/// Taken on trust: chrono answers exactly when the calendar has that day and
/// the time of day is one of a day of 24 hours of 60 minutes of 60 seconds,
/// and its answer counts 86400 seconds for every day since the first of
/// January 1970 and adds the seconds since midnight. The years are held to 0
/// to 9999, which chrono can all represent.
#[verifier::external_body]
pub(crate) fn timestamp_at(
    year: i32,
    month: u32,
    day: u32,
    hour: u32,
    minute: u32,
    second: u32,
) -> (secs: Option<i64>)
    requires
        0 <= year <= 9999,
    ensures
        secs is Some <==> (date_exists(year as int, month as int, day as int) && time_exists(
            hour as int,
            minute as int,
            second as int,
        )),
        secs matches Some(s) ==> s == 86400 * days_since_epoch(
            year as int,
            month as int,
            day as int,
        ) + seconds_since_midnight(hour as int, minute as int, second as int),
{
    match NaiveDate::from_ymd_opt(year, month, day) {
        Some(date) => match date.and_hms_opt(hour, minute, second) {
            Some(at) => Some(at.and_utc().timestamp()),
            None => None,
        },
        None => None,
    }
}

/// Builds the instant with chrono's `DateTime::from_timestamp_secs` and
/// writes it with the `Display` of `DateTime<Utc>`.
///
/// Taken on trust: chrono builds the instant exactly for the seconds from
/// [`MIN_TIMESTAMP`] to [`MAX_TIMESTAMP`], the days of its years -262143 to
/// 262142. It then writes the date of the day that the seconds fall on, as
/// year, month and day with hyphens between, a space, the time of day as
/// hours, minutes and seconds with colons between, a space and `UTC`. Month,
/// day, hours, minutes and seconds have two digits each. The year has four
/// digits from 0 to 9999, and beyond them a sign before at least four.
#[verifier::external_body]
pub(crate) fn instant_text(secs: i64) -> (text: Option<String>)
    ensures
        text is Some <==> MIN_TIMESTAMP <= secs <= MAX_TIMESTAMP,
        text matches Some(t) ==> t@ == utc_text(secs as int),
{
    match DateTime::from_timestamp_secs(secs) {
        Some(instant) => Some(instant.to_string()),
        None => None,
    }
}

/// The two limits are the first second of the first day and the last second
/// of the last day of the years that chrono represents.
pub proof fn lemma_timestamp_limits()
    ensures
        MIN_TIMESTAMP == 86400 * days_since_epoch(-262143, 1, 1),
        MAX_TIMESTAMP == 86400 * days_since_epoch(262142, 12, 31) + seconds_since_midnight(
            23,
            59,
            59,
        ),
{
    reveal_with_fuel(days_before_month, 13);
}

} // verus!
