use time_normalizer::decimal::i64_to_text;
use time_normalizer::{normalize, parse_unix, parse_utc_date, ErrorKind};

#[test]
fn a_hyphen_sends_the_token_down_the_date_path_alone() {
    assert!(parse_unix("-5".to_string()).is_ok());
    assert_eq!(parse_utc_date("-5".to_string()), Err(ErrorKind::DateParseFailure));
    let answer = normalize("-5".to_string());
    assert_eq!(answer.utc, "NONE");
    assert_eq!(answer.unix, "NONE");
    for token in ["2015-12-3", "2000-2-29", "1969-12-31"] {
        assert_eq!(Ok(normalize(token.to_string())), parse_utc_date(token.to_string()));
    }
}

#[test]
fn no_hyphen_sends_the_token_down_the_epoch_path_alone() {
    for token in ["0", "1449100800", "1449100800000", "+5", "007"] {
        assert_eq!(Ok(normalize(token.to_string())), parse_unix(token.to_string()));
    }
    let answer = normalize("20151203".to_string());
    assert_eq!(answer.utc, "1970-08-22 05:33:23 UTC");
    assert_eq!(answer.unix, "20151203");
}

#[test]
fn the_epoch_path_echoes_every_integer_of_the_calendar() {
    for n in [
        0_i64, 1, -1, 59, 60, 86399, 86400, -86400, 1449100800, 1449100800000, 253402300799,
        253402300800, -62167219200, -62167219201, 8210266876799, -8334601228800,
    ] {
        let time = parse_unix(n.to_string()).unwrap();
        assert_eq!(time.unix, n.to_string());
        assert_eq!(time.unix, i64_to_text(n));
        assert!(time.utc.ends_with(" UTC"));
    }
}

#[test]
fn the_same_token_has_the_same_answer() {
    for token in ["2015-12-3", "1449100800000", "not-a-date", "abc", "", "9000000000000", "-5"] {
        let first = normalize(token.to_string());
        let second = normalize(token.to_string());
        assert_eq!(first, second);
        assert_eq!(first.utc.as_bytes(), second.utc.as_bytes());
        assert_eq!(first.unix.as_bytes(), second.unix.as_bytes());
    }
}

#[test]
fn the_timestamp_of_a_day_shows_that_day_at_midnight() {
    for (token, shown) in [
        ("2015-12-3", "2015-12-03 00:00:00 UTC"),
        ("2000-2-29", "2000-02-29 00:00:00 UTC"),
        ("1969-12-31", "1969-12-31 00:00:00 UTC"),
        ("0000-1-1", "0000-01-01 00:00:00 UTC"),
        ("0005-3-7", "0005-03-07 00:00:00 UTC"),
        ("9999-12-31", "9999-12-31 00:00:00 UTC"),
    ] {
        let day = parse_utc_date(token.to_string()).unwrap();
        let instant = parse_unix(day.unix.clone()).unwrap();
        assert_eq!(instant.utc, shown);
        assert_eq!(instant.unix, day.unix);
    }
}

#[test]
fn a_reserved_word_marks_a_failure_and_nothing_else() {
    for token in ["2015-12-3", "0", "1449100800000", "-5", "abc", "9000000000000", "1-1-1"] {
        let answer = normalize(token.to_string());
        let failed = time_normalizer::convert(token.to_string()).is_err();
        let marked = ["NONE", "ERROR", "OUT_OF_RANGE"].contains(&answer.unix.as_str());
        assert_eq!(failed, marked, "{token}");
        if failed {
            assert_eq!(answer.utc, answer.unix);
        }
    }
}

#[test]
fn every_answer_has_two_plain_fields() {
    for token in ["2015-12-3", "1449100800000", "not-a-date", "abc", "9000000000000"] {
        let answer = normalize(token.to_string());
        for field in [&answer.utc, &answer.unix] {
            assert!(!field.is_empty());
            assert!(field.chars().all(|c| c == ' ' || c.is_ascii_graphic()));
            assert!(!field.contains('"') && !field.contains('\\'));
        }
    }
}
