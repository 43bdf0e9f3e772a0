//! How dates and instants are written: the token form `YYYY-M-D` that is
//! read, and the two readable forms that are given out.

use crate::calendar::{
    date_exists, date_of_day, days_since_epoch, lemma_date_of_day, lemma_every_day_has_a_date,
    weekday_index,
};
use crate::decimal::{
    all_digits, char_is_digit, digit_char, digit_of, digits_value, lemma_digits_value_below,
    lemma_digits_value_push, lemma_nat_text_denotes, nat_text, pow10,
};
use crate::text::{all_plain, chars_of, lemma_plain_concat};
use vstd::prelude::*;

verus! {

/// The `strftime` pattern of the readable form of a date: abbreviated weekday,
/// day in two digits, abbreviated month, century and year in two digits each.
pub const DATE_PATTERN: &'static str = "%a, %d %b, %C%y";

/// Year, month and day as they were written, not yet held against the calendar.
#[derive(Clone, Copy, Debug)]
pub struct DateFields {
    pub year: i32,
    pub month: u32,
    pub day: u32,
}

/// Whether `s` is a year of four digits, a month of `month_len` digits and a
/// day of `day_len` digits, joined by hyphens, with nothing before, between or
/// after.
pub open spec fn has_date_form(s: Seq<char>, month_len: int, day_len: int) -> bool {
    &&& 1 <= month_len <= 2
    &&& 1 <= day_len <= 2
    &&& s.len() == 6 + month_len + day_len
    &&& all_digits(s.subrange(0, 4))
    &&& s[4] == '-'
    &&& all_digits(s.subrange(5, 5 + month_len))
    &&& s[5 + month_len] == '-'
    &&& all_digits(s.subrange(6 + month_len, s.len() as int))
}

/// The fields written in `s` when `s` has the form `YYYY-M-D`: a year of
/// exactly four digits, then a month and a day of one or two digits each.
pub open spec fn date_fields(s: Seq<char>) -> Option<DateFields> {
    let month_len: int = if s.len() > 6 && s[6] == '-' {
        1
    } else {
        2
    };
    let day_len = s.len() - 6 - month_len;
    if has_date_form(s, month_len, day_len) {
        Some(
            DateFields {
                year: digits_value(s.subrange(0, 4)) as i32,
                month: digits_value(s.subrange(5, 5 + month_len)) as u32,
                day: digits_value(s.subrange(6 + month_len, s.len() as int)) as u32,
            },
        )
    } else {
        None
    }
}

/// The fields of a date are the numbers that its digits denote: a year up to
/// 9999, a month and a day up to 99.
pub proof fn lemma_date_fields_range(s: Seq<char>)
    requires
        date_fields(s) is Some,
    ensures
        ({
            let fields = date_fields(s).unwrap();
            let month_len: int = if s[6] == '-' {
                1
            } else {
                2
            };
            &&& fields.year == digits_value(s.subrange(0, 4)) <= 9999
            &&& fields.month == digits_value(s.subrange(5, 5 + month_len)) <= 99
            &&& fields.day == digits_value(s.subrange(6 + month_len, s.len() as int)) <= 99
        }),
{
    let month_len: int = if s[6] == '-' {
        1
    } else {
        2
    };
    reveal_with_fuel(pow10, 5);
    lemma_digits_value_below(s.subrange(0, 4));
    lemma_digits_value_below(s.subrange(5, 5 + month_len));
    lemma_digits_value_below(s.subrange(6 + month_len, s.len() as int));
}

/// Reads the digits of `chars` from `from` up to `to`, at most four of them.
fn read_digits(chars: &Vec<char>, from: usize, to: usize) -> (value: Option<u32>)
    requires
        from <= to <= chars.len(),
        to - from <= 4,
    ensures
        value is Some <==> all_digits(chars@.subrange(from as int, to as int)),
        value matches Some(v) ==> v == digits_value(chars@.subrange(from as int, to as int)),
        value matches Some(v) ==> v <= 9999 && (to - from <= 2 ==> v <= 99),
{
    let ghost run = chars@.subrange(from as int, to as int);
    let mut value: u32 = 0;
    let mut i: usize = from;
    while i < to
        invariant
            from <= i <= to <= chars.len(),
            to - from <= 4,
            run == chars@.subrange(from as int, to as int),
            all_digits(run.take(i - from)),
            value == digits_value(run.take(i - from)),
            i - from == 0 ==> value == 0,
            i - from == 1 ==> value <= 9,
            i - from == 2 ==> value <= 99,
            i - from == 3 ==> value <= 999,
            i - from == 4 ==> value <= 9999,
        decreases to - i,
    {
        let c = chars[i];
        if !char_is_digit(c) {
            assert(run[i - from] == c);
            return None;
        }
        proof {
            lemma_digits_value_push(run.take(i - from), c);
            assert(run.take(i - from).push(c) =~= run.take(i + 1 - from));
        }
        value = value * 10 + digit_of(c) as u32;
        i += 1;
    }
    assert(run.take(to - from) =~= run);
    Some(value)
}

/// Reads a date written as `YYYY-M-D`.
///
/// Returns the three numbers as written when `text` is a four-digit year, a
/// month and a day of one or two digits each, joined by hyphens, and `None`
/// for every other text. Whether such a day exists is not looked at here.
pub fn scan_date(text: &str) -> (fields: Option<DateFields>)
    ensures
        fields == date_fields(text@),
{
    let chars = chars_of(text);
    let n = chars.len();
    if n < 8 || n > 10 {
        return None;
    }
    let month_len: usize = if chars[6] == '-' {
        1
    } else {
        2
    };
    if n < 7 + month_len || n > 8 + month_len {
        return None;
    }
    if chars[4] != '-' || chars[5 + month_len] != '-' {
        return None;
    }
    let year = match read_digits(&chars, 0, 4) {
        Some(v) => v,
        None => { return None; },
    };
    let month = match read_digits(&chars, 5, 5 + month_len) {
        Some(v) => v,
        None => { return None; },
    };
    let day = match read_digits(&chars, 6 + month_len, n) {
        Some(v) => v,
        None => { return None; },
    };
    Some(DateFields { year: year as i32, month, day })
}

/// The three-letter English name of the day of the week, Sunday being 0.
pub open spec fn weekday_name(index: int) -> Seq<char> {
    if index == 0 {
        "Sun"@
    } else if index == 1 {
        "Mon"@
    } else if index == 2 {
        "Tue"@
    } else if index == 3 {
        "Wed"@
    } else if index == 4 {
        "Thu"@
    } else if index == 5 {
        "Fri"@
    } else {
        "Sat"@
    }
}

/// The three-letter English name of the month, January being 1.
pub open spec fn month_name(month: int) -> Seq<char> {
    if month == 1 {
        "Jan"@
    } else if month == 2 {
        "Feb"@
    } else if month == 3 {
        "Mar"@
    } else if month == 4 {
        "Apr"@
    } else if month == 5 {
        "May"@
    } else if month == 6 {
        "Jun"@
    } else if month == 7 {
        "Jul"@
    } else if month == 8 {
        "Aug"@
    } else if month == 9 {
        "Sep"@
    } else if month == 10 {
        "Oct"@
    } else if month == 11 {
        "Nov"@
    } else {
        "Dec"@
    }
}

/// A number below one hundred in two digits, with a leading zero if needed.
pub open spec fn two_digits(n: int) -> Seq<char> {
    seq![digit_char(n / 10), digit_char(n % 10)]
}

/// A date of the years 0 to 9999 as weekday, day, month and year, like
/// `Thu, 03 Dec, 2015`.
pub open spec fn date_text(year: int, month: int, day: int) -> Seq<char> {
    weekday_name(weekday_index(year, month, day)) + ", "@ + two_digits(day) + " "@ + month_name(
        month,
    ) + ", "@ + two_digits(year / 100) + two_digits(year % 100)
}

/// A number below ten thousand in four digits, with leading zeros if needed.
pub open spec fn four_digits(n: int) -> Seq<char> {
    two_digits(n / 100) + two_digits(n % 100)
}

/// A year as instants are written with: four digits for the years 0 to 9999;
/// a `+` and all its digits for a later year; a `-` and the digits of its
/// distance from year 0, at least four of them, for an earlier year.
pub open spec fn year_text(year: int) -> Seq<char> {
    if 0 <= year <= 9999 {
        four_digits(year)
    } else if year > 9999 {
        seq!['+'] + nat_text(year as nat)
    } else if year >= -9999 {
        seq!['-'] + four_digits(-year)
    } else {
        seq!['-'] + nat_text((-year) as nat)
    }
}

/// A date as instants are written with, like `2015-12-03`.
pub open spec fn iso_date_text(year: int, month: int, day: int) -> Seq<char> {
    year_text(year) + "-"@ + two_digits(month) + "-"@ + two_digits(day)
}

/// The time of day that is `seconds` seconds after midnight, like `07:39:24`.
pub open spec fn time_text(seconds: int) -> Seq<char> {
    two_digits(seconds / 3600) + ":"@ + two_digits(seconds / 60 % 60) + ":"@ + two_digits(
        seconds % 60,
    )
}

/// The instant `secs` seconds after the first of January 1970, 0:00:00 UTC,
/// or before it for a negative number: its date, its time of day and the word
/// `UTC`, like `2015-12-03 00:00:00 UTC`.
pub open spec fn utc_text(secs: int) -> Seq<char> {
    let date = date_of_day(secs / 86400);
    iso_date_text(date.0, date.1, date.2) + " "@ + time_text(secs % 86400) + " UTC"@
}

/// Whether `text` shows the instant `secs` seconds from the epoch: the date
/// of an existing day and a time of day that together lie that many seconds
/// from the first of January 1970, 0:00:00, followed by `UTC`.
pub open spec fn shows_instant(text: Seq<char>, secs: int) -> bool {
    exists|year: int, month: int, day: int, seconds: int|
        date_exists(year, month, day) && 0 <= seconds < 86400 && 86400 * #[trigger] days_since_epoch(
            year,
            month,
            day,
        ) + seconds == secs && text == iso_date_text(year, month, day) + " "@ + #[trigger] time_text(
            seconds,
        ) + " UTC"@
}

/// The text of an instant shows that instant: its date and its time of day
/// lie as many seconds from the epoch as the instant does.
pub proof fn lemma_utc_text_shows_instant(secs: int)
    ensures
        shows_instant(utc_text(secs), secs),
{
    lemma_every_day_has_a_date(secs / 86400);
    let date = date_of_day(secs / 86400);
    assert(86400 * days_since_epoch(date.0, date.1, date.2) + secs % 86400 == secs);
    assert(utc_text(secs) == iso_date_text(date.0, date.1, date.2) + " "@ + time_text(
        secs % 86400,
    ) + " UTC"@);
}

/// The text of the midnight that begins a day shows the date of that day and
/// the time 00:00:00.
pub proof fn lemma_utc_text_of_midnight(year: int, month: int, day: int)
    requires
        date_exists(year, month, day),
    ensures
        utc_text(86400 * days_since_epoch(year, month, day)) == iso_date_text(year, month, day)
            + " 00:00:00 UTC"@,
{
    let secs = 86400 * days_since_epoch(year, month, day);
    lemma_date_of_day(year, month, day);
    assert(secs / 86400 == days_since_epoch(year, month, day));
    assert(secs % 86400 == 0);
    reveal_strlit(" ");
    reveal_strlit(":");
    reveal_strlit(" UTC");
    reveal_strlit(" 00:00:00 UTC");
    assert(" "@ + time_text(0) + " UTC"@ =~= " 00:00:00 UTC"@);
    assert(utc_text(secs) =~= iso_date_text(year, month, day) + (" "@ + time_text(0) + " UTC"@));
}

/// A number below one hundred is written in plain characters.
pub proof fn lemma_two_digits_plain(n: int)
    requires
        0 <= n < 100,
    ensures
        all_plain(two_digits(n)),
{
}

/// The readable form of a date is plain.
pub proof fn lemma_date_text_plain(year: int, month: int, day: int)
    requires
        0 <= year <= 9999,
        date_exists(year, month, day),
    ensures
        all_plain(date_text(year, month, day)),
{
    reveal_strlit("Sun");
    reveal_strlit("Mon");
    reveal_strlit("Tue");
    reveal_strlit("Wed");
    reveal_strlit("Thu");
    reveal_strlit("Fri");
    reveal_strlit("Sat");
    reveal_strlit("Jan");
    reveal_strlit("Feb");
    reveal_strlit("Mar");
    reveal_strlit("Apr");
    reveal_strlit("May");
    reveal_strlit("Jun");
    reveal_strlit("Jul");
    reveal_strlit("Aug");
    reveal_strlit("Sep");
    reveal_strlit("Oct");
    reveal_strlit("Nov");
    reveal_strlit("Dec");
    reveal_strlit(", ");
    reveal_strlit(" ");
    let weekday = weekday_name(weekday_index(year, month, day));
    lemma_two_digits_plain(day);
    lemma_two_digits_plain(year / 100);
    lemma_two_digits_plain(year % 100);
    lemma_plain_concat(weekday, ", "@);
    lemma_plain_concat(weekday + ", "@, two_digits(day));
    lemma_plain_concat(weekday + ", "@ + two_digits(day), " "@);
    lemma_plain_concat(weekday + ", "@ + two_digits(day) + " "@, month_name(month));
    lemma_plain_concat(weekday + ", "@ + two_digits(day) + " "@ + month_name(month), ", "@);
    lemma_plain_concat(
        weekday + ", "@ + two_digits(day) + " "@ + month_name(month) + ", "@,
        two_digits(year / 100),
    );
    lemma_plain_concat(
        weekday + ", "@ + two_digits(day) + " "@ + month_name(month) + ", "@ + two_digits(
            year / 100,
        ),
        two_digits(year % 100),
    );
}

/// A year is written in plain characters.
pub proof fn lemma_year_text_plain(year: int)
    ensures
        all_plain(year_text(year)),
{
    if 0 <= year <= 9999 {
        lemma_two_digits_plain(year / 100);
        lemma_two_digits_plain(year % 100);
        lemma_plain_concat(two_digits(year / 100), two_digits(year % 100));
    } else if year > 9999 {
        lemma_nat_text_denotes(year as nat);
        lemma_plain_concat(seq!['+'], nat_text(year as nat));
    } else if year >= -9999 {
        lemma_two_digits_plain((-year) / 100);
        lemma_two_digits_plain((-year) % 100);
        lemma_plain_concat(two_digits((-year) / 100), two_digits((-year) % 100));
        lemma_plain_concat(seq!['-'], four_digits(-year));
    } else {
        lemma_nat_text_denotes((-year) as nat);
        lemma_plain_concat(seq!['-'], nat_text((-year) as nat));
    }
}

/// The text of an instant is plain.
pub proof fn lemma_utc_text_plain(secs: int)
    ensures
        all_plain(utc_text(secs)),
{
    reveal_strlit("-");
    reveal_strlit(":");
    reveal_strlit(" ");
    reveal_strlit(" UTC");
    lemma_every_day_has_a_date(secs / 86400);
    let (year, month, day) = date_of_day(secs / 86400);
    let seconds = secs % 86400;
    lemma_year_text_plain(year);
    lemma_two_digits_plain(month);
    lemma_two_digits_plain(day);
    lemma_plain_concat(year_text(year), "-"@);
    lemma_plain_concat(year_text(year) + "-"@, two_digits(month));
    lemma_plain_concat(year_text(year) + "-"@ + two_digits(month), "-"@);
    lemma_plain_concat(year_text(year) + "-"@ + two_digits(month) + "-"@, two_digits(day));
    lemma_two_digits_plain(seconds / 3600);
    lemma_two_digits_plain(seconds / 60 % 60);
    lemma_two_digits_plain(seconds % 60);
    lemma_plain_concat(two_digits(seconds / 3600), ":"@);
    lemma_plain_concat(two_digits(seconds / 3600) + ":"@, two_digits(seconds / 60 % 60));
    lemma_plain_concat(two_digits(seconds / 3600) + ":"@ + two_digits(seconds / 60 % 60), ":"@);
    lemma_plain_concat(
        two_digits(seconds / 3600) + ":"@ + two_digits(seconds / 60 % 60) + ":"@,
        two_digits(seconds % 60),
    );
    lemma_plain_concat(iso_date_text(year, month, day), " "@);
    lemma_plain_concat(iso_date_text(year, month, day) + " "@, time_text(seconds));
    lemma_plain_concat(iso_date_text(year, month, day) + " "@ + time_text(seconds), " UTC"@);
}

} // verus!
