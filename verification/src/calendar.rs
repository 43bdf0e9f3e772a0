//! The proleptic Gregorian calendar: which days exist, and how many days lie
//! between a day and the first of January 1970.

use vstd::prelude::*;

verus! {

/// Whether `year` has a 29th of February.
pub open spec fn is_leap_year(year: int) -> bool {
    year % 4 == 0 && (year % 100 != 0 || year % 400 == 0)
}

/// The number of days of `month` in `year`, for a month from 1 to 12.
pub open spec fn days_in_month(year: int, month: int) -> int {
    if month == 2 {
        if is_leap_year(year) {
            29
        } else {
            28
        }
    } else if month == 4 || month == 6 || month == 9 || month == 11 {
        30
    } else {
        31
    }
}

/// Whether the calendar has a day `day` in month `month` of `year`.
pub open spec fn date_exists(year: int, month: int, day: int) -> bool {
    1 <= month <= 12 && 1 <= day <= days_in_month(year, month)
}

/// The number of days of `year`.
pub open spec fn days_in_year(year: int) -> int {
    if is_leap_year(year) {
        366
    } else {
        365
    }
}

/// The number of days of `year` that lie before the first of `month`.
pub open spec fn days_before_month(year: int, month: int) -> int
    decreases month,
{
    if month <= 1 {
        0
    } else {
        days_before_month(year, month - 1) + days_in_month(year, month - 1)
    }
}

/// The number of days from the first of January of year 1 to the first of
/// January of `year`; negative for years before 1.
pub open spec fn days_before_year(year: int) -> int {
    365 * (year - 1) + (year - 1) / 4 - (year - 1) / 100 + (year - 1) / 400
}

/// The number of days from the first of January 1970 to the given date;
/// negative for dates before it.
pub open spec fn days_since_epoch(year: int, month: int, day: int) -> int {
    days_before_year(year) - days_before_year(1970) + days_before_month(year, month) + day - 1
}

/// Whether a day of 24 hours of 60 minutes of 60 seconds has this time.
pub open spec fn time_exists(hour: int, minute: int, second: int) -> bool {
    0 <= hour < 24 && 0 <= minute < 60 && 0 <= second < 60
}

/// The number of seconds from midnight to the given time of day.
pub open spec fn seconds_since_midnight(hour: int, minute: int, second: int) -> int {
    3600 * hour + 60 * minute + second
}

/// The day of the week of the given date, counted from Sunday as 0.
pub open spec fn weekday_index(year: int, month: int, day: int) -> int {
    (days_since_epoch(year, month, day) + 4) % 7
}

/// The date that lies `day_number` days after the first of January 1970, or
/// before it for a negative number.
pub open spec fn date_of_day(day_number: int) -> (int, int, int) {
    choose|date: (int, int, int)|
        date_exists(date.0, date.1, date.2) && days_since_epoch(date.0, date.1, date.2)
            == day_number
}

/// A year ends where the next one begins.
pub proof fn lemma_year_length(year: int)
    ensures
        days_before_year(year + 1) == days_before_year(year) + days_in_year(year),
{
}

/// Between the beginnings of two years lie at least 365 days for each year
/// from the earlier to the later.
pub proof fn lemma_years_apart(earlier: int, later: int)
    requires
        earlier <= later,
    ensures
        days_before_year(later) - days_before_year(earlier) >= 365 * (later - earlier),
    decreases later - earlier,
{
    if earlier < later {
        lemma_years_apart(earlier, later - 1);
        lemma_year_length(later - 1);
    }
}

/// Every day of a year lies within the length of that year.
pub proof fn lemma_day_within_year(year: int, month: int, day: int)
    requires
        date_exists(year, month, day),
    ensures
        0 <= days_before_month(year, month) + day - 1 < days_in_year(year),
{
    reveal_with_fuel(days_before_month, 13);
}

/// No two days of the calendar have the same number: the count of days since
/// the epoch tells the date.
pub proof fn lemma_day_number_tells_date(
    year: int,
    month: int,
    day: int,
    other_year: int,
    other_month: int,
    other_day: int,
)
    requires
        date_exists(year, month, day),
        date_exists(other_year, other_month, other_day),
        days_since_epoch(year, month, day) == days_since_epoch(
            other_year,
            other_month,
            other_day,
        ),
    ensures
        year == other_year,
        month == other_month,
        day == other_day,
{
    reveal_with_fuel(days_before_month, 13);
    lemma_day_within_year(year, month, day);
    lemma_day_within_year(other_year, other_month, other_day);
    if year < other_year {
        lemma_year_length(year);
        lemma_years_apart(year + 1, other_year);
    } else if other_year < year {
        lemma_year_length(other_year);
        lemma_years_apart(other_year + 1, year);
    }
}

/// The date of the day number of a date is that date.
pub proof fn lemma_date_of_day(year: int, month: int, day: int)
    requires
        date_exists(year, month, day),
    ensures
        date_of_day(days_since_epoch(year, month, day)) == (year, month, day),
{
    let number = days_since_epoch(year, month, day);
    let known = (year, month, day);
    assert(date_exists(known.0, known.1, known.2) && days_since_epoch(known.0, known.1, known.2)
        == number);
    let found = date_of_day(number);
    lemma_day_number_tells_date(found.0, found.1, found.2, year, month, day);
}

/// Every day number, before or after the epoch, is the number of a day of
/// the calendar.
pub proof fn lemma_every_day_has_a_date(number: int)
    ensures
        ({
            let date = date_of_day(number);
            date_exists(date.0, date.1, date.2) && days_since_epoch(date.0, date.1, date.2)
                == number
        }),
    decreases
            (if number >= 0 {
                number
            } else {
                -number
            }),
{
    reveal_with_fuel(days_before_month, 13);
    if number == 0 {
        let date = (1970int, 1int, 1int);
        assert(date_exists(date.0, date.1, date.2) && days_since_epoch(date.0, date.1, date.2)
            == number);
    } else if number > 0 {
        lemma_every_day_has_a_date(number - 1);
        let (y, m, d) = date_of_day(number - 1);
        let date = if d < days_in_month(y, m) {
            (y, m, d + 1)
        } else if m < 12 {
            (y, m + 1, 1int)
        } else {
            (y + 1, 1int, 1int)
        };
        lemma_year_length(y);
        assert(date_exists(date.0, date.1, date.2) && days_since_epoch(date.0, date.1, date.2)
            == number);
    } else {
        lemma_every_day_has_a_date(number + 1);
        let (y, m, d) = date_of_day(number + 1);
        let date = if d > 1 {
            (y, m, d - 1)
        } else if m > 1 {
            (y, m - 1, days_in_month(y, m - 1))
        } else {
            (y - 1, 12int, 31int)
        };
        lemma_year_length(y - 1);
        assert(date_exists(date.0, date.1, date.2) && days_since_epoch(date.0, date.1, date.2)
            == number);
    }
}

} // verus!
