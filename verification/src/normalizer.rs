//! The conversion of a time token: which notation it is in, what instant it
//! denotes, and what is answered when it denotes none.

use crate::calendar::{date_exists, days_before_month, days_since_epoch};
use crate::chrono_bridge::{
    format_date, instant_text, timestamp_at, MAX_TIMESTAMP, MIN_TIMESTAMP,
};
use crate::notation::{
    date_fields, date_text, iso_date_text, lemma_date_fields_range, lemma_date_text_plain,
    lemma_utc_text_of_midnight, lemma_utc_text_plain, lemma_utc_text_shows_instant, scan_date,
    shows_instant, utc_text, DATE_PATTERN,
};
use crate::text::{all_plain, chars_of};
use crate::decimal::{
    decimal_text, i64_of_text, i64_to_text, is_digit, lemma_decimal_round_trip,
    lemma_decimal_text_plain, lemma_nat_text_denotes, parse_i64,
};
use crate::time::{Time, TimeView};
use vstd::prelude::*;

verus! {

/// The notation that a token is taken to be in.
#[derive(Clone, Copy, Debug, PartialEq, Eq, Structural)]
pub enum TokenKind {
    /// A calendar date: the token holds a hyphen.
    CalendarToken,
    /// A number of seconds since the epoch: the token holds no hyphen.
    EpochToken,
}

/// Why a token could not be converted.
#[derive(Clone, Copy, Debug, PartialEq, Eq, Structural)]
pub enum ErrorKind {
    /// The token was taken for a calendar date and is not a date of the form
    /// `YYYY-M-D`, or no such day exists.
    DateParseFailure,
    /// The token was taken for an epoch value and is not a decimal integer of
    /// 64 bits.
    IntegerParseFailure,
    /// The token is well formed, and the calendar in use cannot represent the
    /// instant.
    CalendarConstructionFailure,
}

/// The notation of `token`: a calendar date if a hyphen occurs in it, an
/// epoch value if none does.
pub open spec fn token_kind(token: Seq<char>) -> TokenKind {
    if token.contains('-') {
        TokenKind::CalendarToken
    } else {
        TokenKind::EpochToken
    }
}

/// What the date path makes of `token`.
///
/// A token of the form `YYYY-M-D` that names an existing day gives that day
/// in its readable form and the seconds from the epoch to its midnight, UTC.
/// Every other token is a [`ErrorKind::DateParseFailure`].
pub open spec fn date_conversion(token: Seq<char>) -> Result<TimeView, ErrorKind> {
    match date_fields(token) {
        Some(f) => if date_exists(f.year as int, f.month as int, f.day as int) {
            Ok(
                TimeView {
                    utc: date_text(f.year as int, f.month as int, f.day as int),
                    unix: decimal_text(
                        86400 * days_since_epoch(f.year as int, f.month as int, f.day as int),
                    ),
                },
            )
        } else {
            Err(ErrorKind::DateParseFailure)
        },
        None => Err(ErrorKind::DateParseFailure),
    }
}

/// What the epoch path makes of `token`.
///
/// A decimal integer of 64 bits within the calendar's range gives the instant
/// that many seconds after the epoch, written as date, time of day and `UTC`,
/// and the integer written out again. An integer beyond that range is a
/// [`ErrorKind::CalendarConstructionFailure`], every other token an
/// [`ErrorKind::IntegerParseFailure`].
pub open spec fn epoch_conversion(token: Seq<char>) -> Result<TimeView, ErrorKind> {
    match i64_of_text(token) {
        Some(secs) => if MIN_TIMESTAMP <= secs <= MAX_TIMESTAMP {
            Ok(TimeView { utc: utc_text(secs as int), unix: decimal_text(secs as int) })
        } else {
            Err(ErrorKind::CalendarConstructionFailure)
        },
        None => Err(ErrorKind::IntegerParseFailure),
    }
}

/// What `token` converts to: the date path decides for a calendar token, the
/// epoch path for an epoch token, and neither looks at the other.
pub open spec fn conversion(token: Seq<char>) -> Result<TimeView, ErrorKind> {
    match token_kind(token) {
        TokenKind::CalendarToken => date_conversion(token),
        TokenKind::EpochToken => epoch_conversion(token),
    }
}

/// The reserved word that stands in both fields for a failure of this kind.
pub open spec fn sentinel_word(kind: ErrorKind) -> Seq<char> {
    match kind {
        ErrorKind::DateParseFailure => "NONE"@,
        ErrorKind::IntegerParseFailure => "ERROR"@,
        ErrorKind::CalendarConstructionFailure => "OUT_OF_RANGE"@,
    }
}

/// What is answered for `token`: its conversion, or the reserved word of the
/// failure in both fields.
pub open spec fn normalized(token: Seq<char>) -> TimeView {
    match conversion(token) {
        Ok(time) => time,
        Err(kind) => TimeView { utc: sentinel_word(kind), unix: sentinel_word(kind) },
    }
}

/// A conversion's outcome with the texts of a success as sequences.
pub open spec fn outcome_view(outcome: Result<Time, ErrorKind>) -> Result<TimeView, ErrorKind> {
    match outcome {
        Ok(time) => Ok(time@),
        Err(kind) => Err(kind),
    }
}

/// Tells which notation `token` is in, by looking for a hyphen.
pub fn classify(token: &str) -> (kind: TokenKind)
    ensures
        kind == token_kind(token@),
{
    let chars = chars_of(token);
    let mut i: usize = 0;
    while i < chars.len()
        invariant
            i <= chars.len(),
            chars@ == token@,
            forall|j: int| 0 <= j < i ==> chars@[j] != '-',
        decreases chars.len() - i,
    {
        if chars[i] == '-' {
            assert(token@[i as int] == '-');
            return TokenKind::CalendarToken;
        }
        i += 1;
    }
    TokenKind::EpochToken
}

/// Converts a calendar date written as `YYYY-M-D` to the day in readable form
/// and the Unix timestamp of its midnight, UTC.
///
/// A token of another form, or one that names a day that does not exist, is a
/// [`ErrorKind::DateParseFailure`]. No token fails in another way here.
pub fn parse_utc_date(date: String) -> (outcome: Result<Time, ErrorKind>)
    ensures
        outcome_view(outcome) == date_conversion(date@),
{
    let fields = match scan_date(date.as_str()) {
        Some(fields) => fields,
        None => { return Err(ErrorKind::DateParseFailure); },
    };
    proof {
        lemma_date_fields_range(date@);
    }
    let utc = match format_date(fields.year, fields.month, fields.day, DATE_PATTERN) {
        Some(text) => text,
        None => { return Err(ErrorKind::DateParseFailure); },
    };
    // The day exists, and so does its midnight: this call always answers.
    let secs = match timestamp_at(fields.year, fields.month, fields.day, 0, 0, 0) {
        Some(secs) => secs,
        None => { return Err(ErrorKind::CalendarConstructionFailure); },
    };
    Ok(Time { utc, unix: i64_to_text(secs) })
}

/// Converts a Unix timestamp in decimal notation to the instant in readable
/// form and the timestamp written out again.
///
/// A token that is no decimal integer of 64 bits is an
/// [`ErrorKind::IntegerParseFailure`]; an integer below [`MIN_TIMESTAMP`] or
/// above [`MAX_TIMESTAMP`] is a [`ErrorKind::CalendarConstructionFailure`].
pub fn parse_unix(date: String) -> (outcome: Result<Time, ErrorKind>)
    ensures
        outcome_view(outcome) == epoch_conversion(date@),
{
    let secs = match parse_i64(date.as_str()) {
        Some(secs) => secs,
        None => { return Err(ErrorKind::IntegerParseFailure); },
    };
    let utc = match instant_text(secs) {
        Some(text) => text,
        None => { return Err(ErrorKind::CalendarConstructionFailure); },
    };
    Ok(Time { utc, unix: i64_to_text(secs) })
}

/// Converts a token by the path that its notation calls for.
pub fn convert(token: String) -> (outcome: Result<Time, ErrorKind>)
    ensures
        outcome_view(outcome) == conversion(token@),
{
    match classify(token.as_str()) {
        TokenKind::CalendarToken => parse_utc_date(token),
        TokenKind::EpochToken => parse_unix(token),
    }
}

/// The answer to a token that could not be converted: the reserved word of
/// the failure in both fields.
pub fn sentinel(kind: ErrorKind) -> (time: Time)
    ensures
        time@ == (TimeView { utc: sentinel_word(kind), unix: sentinel_word(kind) }),
{
    let word = match kind {
        ErrorKind::DateParseFailure => "NONE",
        ErrorKind::IntegerParseFailure => "ERROR",
        ErrorKind::CalendarConstructionFailure => "OUT_OF_RANGE",
    };
    Time { utc: word.to_owned(), unix: word.to_owned() }
}

/// Answers a token: the converted time, or the reserved word of the failure
/// in both fields. Every token has an answer.
pub fn normalize(token: String) -> (time: Time)
    ensures
        time@ == normalized(token@),
{
    match convert(token) {
        Ok(time) => time,
        Err(kind) => sentinel(kind),
    }
}

/// Classification decides alone which path answers: a token with a hyphen is
/// converted as the date path converts it, a token without one as the epoch
/// path does.
pub proof fn lemma_classification_purity(token: Seq<char>)
    ensures
        token.contains('-') ==> conversion(token) == date_conversion(token),
        !token.contains('-') ==> conversion(token) == epoch_conversion(token),
{
}

/// The epoch path echoes the integer: the decimal text of any number of
/// seconds within the calendar's range converts to a text that shows the
/// instant that many seconds after the epoch, with the same decimal text as
/// its timestamp.
pub proof fn lemma_epoch_echo(secs: i64)
    requires
        MIN_TIMESTAMP <= secs <= MAX_TIMESTAMP,
    ensures
        epoch_conversion(decimal_text(secs as int)) == Ok::<TimeView, ErrorKind>(
            TimeView { utc: utc_text(secs as int), unix: decimal_text(secs as int) },
        ),
        shows_instant(utc_text(secs as int), secs as int),
{
    lemma_decimal_round_trip(secs as int);
    lemma_utc_text_shows_instant(secs as int);
}

/// Whatever notation the integer was written in, the epoch path writes it
/// out in the shortest one: the timestamp of a converted token is the decimal
/// text of the integer that the token denotes.
pub proof fn lemma_epoch_timestamp(token: Seq<char>, secs: i64)
    requires
        i64_of_text(token) == Some(secs),
        MIN_TIMESTAMP <= secs <= MAX_TIMESTAMP,
    ensures
        epoch_conversion(token) matches Ok(time) && time.unix == decimal_text(secs as int)
            && time.utc == utc_text(secs as int),
{
}

/// The decimal text of a number of seconds that is not negative and within
/// the calendar's range is answered with the instant and the same text.
pub proof fn lemma_normalized_echo(secs: i64)
    requires
        0 <= secs <= MAX_TIMESTAMP,
    ensures
        normalized(decimal_text(secs as int)) == (TimeView {
            utc: utc_text(secs as int),
            unix: decimal_text(secs as int),
        }),
{
    let text = decimal_text(secs as int);
    lemma_nat_text_denotes(secs as nat);
    assert(!text.contains('-')) by {
        if text.contains('-') {
            let i = choose|i: int| 0 <= i < text.len() && text[i] == '-';
            assert(is_digit(text[i]));
        }
    }
    lemma_epoch_echo(secs);
}

/// The two paths agree on a day: the timestamp that the date path gives it,
/// converted by the epoch path, shows the date of that day at 00:00:00 and the
/// same timestamp again.
pub proof fn lemma_date_timestamp_shows_date(token: Seq<char>)
    requires
        date_conversion(token) is Ok,
    ensures
        ({
            let fields = date_fields(token).unwrap();
            let time = date_conversion(token).unwrap();
            epoch_conversion(time.unix) == Ok::<TimeView, ErrorKind>(
                TimeView {
                    utc: iso_date_text(fields.year as int, fields.month as int, fields.day as int)
                        + " 00:00:00 UTC"@,
                    unix: time.unix,
                },
            )
        }),
{
    let fields = date_fields(token).unwrap();
    let (year, month, day) = (fields.year as int, fields.month as int, fields.day as int);
    let secs = 86400 * days_since_epoch(year, month, day);
    lemma_date_fields_range(token);
    assert(MIN_TIMESTAMP <= secs <= MAX_TIMESTAMP) by {
        reveal_with_fuel(days_before_month, 13);
    }
    lemma_decimal_round_trip(secs);
    lemma_utc_text_of_midnight(year, month, day);
}

/// The answer depends on the token alone: two answers to the same token are
/// the same, character for character.
pub proof fn lemma_same_token_same_answer(token: Seq<char>, first: Time, second: Time)
    requires
        first@ == normalized(token),
        second@ == normalized(token),
    ensures
        first.utc@ == second.utc@,
        first.unix@ == second.unix@,
{
}

/// No decimal text is one of the reserved words.
pub proof fn lemma_decimal_text_is_no_sentinel(n: int, kind: ErrorKind)
    ensures
        decimal_text(n) != sentinel_word(kind),
{
    reveal_strlit("NONE");
    reveal_strlit("ERROR");
    reveal_strlit("OUT_OF_RANGE");
    if n < 0 {
        assert(decimal_text(n)[0] == '-');
    } else {
        lemma_nat_text_denotes(n as nat);
        assert(is_digit(decimal_text(n)[0]));
    }
    assert(sentinel_word(kind)[0] == 'N' || sentinel_word(kind)[0] == 'E' || sentinel_word(kind)[0]
        == 'O');
}

/// A reserved word in the `unix` field marks a failure and nothing else: the
/// answer holds the word of a kind of failure there exactly when the token
/// fails in that way.
pub proof fn lemma_sentinel_marks_failure(token: Seq<char>, kind: ErrorKind)
    ensures
        normalized(token).unix == sentinel_word(kind) <==> conversion(token) == Err::<
            TimeView,
            ErrorKind,
        >(kind),
{
    reveal_strlit("NONE");
    reveal_strlit("ERROR");
    reveal_strlit("OUT_OF_RANGE");
    match conversion(token) {
        Ok(time) => {
            let n = choose|n: int| time.unix == decimal_text(n);
            assert(exists|n: int| time.unix == decimal_text(n)) by {
                if token.contains('-') {
                    let f = date_fields(token).unwrap();
                    assert(time.unix == decimal_text(
                        86400 * days_since_epoch(f.year as int, f.month as int, f.day as int),
                    ));
                } else {
                    assert(time.unix == decimal_text(i64_of_text(token).unwrap() as int));
                }
            }
            lemma_decimal_text_is_no_sentinel(n, kind);
        },
        Err(other) => {
            assert(sentinel_word(ErrorKind::DateParseFailure).len() == 4);
            assert(sentinel_word(ErrorKind::IntegerParseFailure).len() == 5);
            assert(sentinel_word(ErrorKind::CalendarConstructionFailure).len() == 12);
        },
    }
}

/// Both fields of every answer are plain: printable ASCII without quotation
/// mark or backslash, so that a quoted string holds them as they stand.
pub proof fn lemma_answer_is_plain(token: Seq<char>)
    ensures
        all_plain(normalized(token).utc),
        all_plain(normalized(token).unix),
{
    reveal_strlit("NONE");
    reveal_strlit("ERROR");
    reveal_strlit("OUT_OF_RANGE");
    if conversion(token) is Ok {
        if token.contains('-') {
            let fields = date_fields(token).unwrap();
            let (year, month, day) = (fields.year as int, fields.month as int, fields.day as int);
            lemma_date_fields_range(token);
            lemma_date_text_plain(year, month, day);
            lemma_decimal_text_plain(86400 * days_since_epoch(year, month, day));
        } else {
            let secs = i64_of_text(token).unwrap();
            lemma_utc_text_plain(secs as int);
            lemma_decimal_text_plain(secs as int);
        }
    }
}

} // verus!
