use time_normalizer::decimal::{char_is_digit, digit_of, i64_to_text, parse_i64};
use time_normalizer::text::chars_of;

#[test]
fn digits_are_the_ten_ascii_digits() {
    for (value, c) in ('0'..='9').enumerate() {
        assert!(char_is_digit(c));
        assert_eq!(digit_of(c) as usize, value);
    }
    for c in ['/', ':', 'a', ' ', '-', '+', '\u{0660}', '\u{ff10}'] {
        assert!(!char_is_digit(c));
    }
}

#[test]
fn chars_of_keeps_every_character_in_order() {
    assert_eq!(chars_of(""), Vec::<char>::new());
    assert_eq!(chars_of("a-1"), vec!['a', '-', '1']);
    assert_eq!(chars_of("\u{e9}t\u{e9}"), vec!['\u{e9}', 't', '\u{e9}']);
}

#[test]
fn parse_i64_reads_signs_and_digits() {
    assert_eq!(parse_i64("0"), Some(0));
    assert_eq!(parse_i64("7"), Some(7));
    assert_eq!(parse_i64("+7"), Some(7));
    assert_eq!(parse_i64("-7"), Some(-7));
    assert_eq!(parse_i64("-0"), Some(0));
    assert_eq!(parse_i64("+0"), Some(0));
    assert_eq!(parse_i64("000123"), Some(123));
    assert_eq!(parse_i64("1449100800000"), Some(1449100800000));
    assert_eq!(parse_i64("00000000000000000000000000000001"), Some(1));
}

#[test]
fn parse_i64_reaches_both_ends() {
    assert_eq!(parse_i64("9223372036854775807"), Some(i64::MAX));
    assert_eq!(parse_i64("+9223372036854775807"), Some(i64::MAX));
    assert_eq!(parse_i64("-9223372036854775808"), Some(i64::MIN));
    assert_eq!(parse_i64("-9223372036854775807"), Some(i64::MIN + 1));
    assert_eq!(parse_i64("9223372036854775808"), None);
    assert_eq!(parse_i64("-9223372036854775809"), None);
    assert_eq!(parse_i64("9223372036854775810"), None);
    assert_eq!(parse_i64("18446744073709551616"), None);
    assert_eq!(parse_i64("92233720368547758070"), None);
}

#[test]
fn parse_i64_refuses_everything_else() {
    for text in [
        "", "+", "-", "+-1", "-+1", "--1", "1-", "1+", " 1", "1 ", "\t1", "1\n", "1_000", "1,000",
        "1.0", "0x1f", "1e3", "abc", "\u{0661}", "\u{ff11}", "\u{2212}1",
    ] {
        assert_eq!(parse_i64(text), None, "{text:?}");
    }
}

#[test]
fn parse_i64_agrees_with_the_standard_reader() {
    for text in [
        "0", "-0", "+0", "12", "-12", "+12", "0012", "", "+", "-", " 1", "1 ", "1_0", "a",
        "9223372036854775807", "9223372036854775808", "-9223372036854775808",
        "-9223372036854775809",
    ] {
        assert_eq!(parse_i64(text), text.parse::<i64>().ok(), "{text:?}");
    }
}

#[test]
fn i64_to_text_writes_the_shortest_form() {
    assert_eq!(i64_to_text(0), "0");
    assert_eq!(i64_to_text(5), "5");
    assert_eq!(i64_to_text(-5), "-5");
    assert_eq!(i64_to_text(10), "10");
    assert_eq!(i64_to_text(-10), "-10");
    assert_eq!(i64_to_text(1449100800), "1449100800");
    assert_eq!(i64_to_text(i64::MAX), "9223372036854775807");
    assert_eq!(i64_to_text(i64::MIN), "-9223372036854775808");
}

#[test]
fn reading_what_was_written_gives_the_number_back() {
    for n in [
        0, 1, -1, 9, 10, -10, 99, 100, 1449100800, -86400, 8210266876799, -8334601228800,
        i64::MAX, i64::MIN, i64::MIN + 1,
    ] {
        assert_eq!(i64_to_text(n), n.to_string());
        assert_eq!(parse_i64(&i64_to_text(n)), Some(n));
    }
}
