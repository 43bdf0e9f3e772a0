use time_normalizer::notation::{scan_date, DateFields};

fn fields(text: &str) -> Option<(i32, u32, u32)> {
    scan_date(text).map(|DateFields { year, month, day }| (year, month, day))
}

#[test]
fn scan_date_reads_the_three_numbers() {
    assert_eq!(fields("2015-12-3"), Some((2015, 12, 3)));
    assert_eq!(fields("2015-12-03"), Some((2015, 12, 3)));
    assert_eq!(fields("2015-1-3"), Some((2015, 1, 3)));
    assert_eq!(fields("2015-01-31"), Some((2015, 1, 31)));
    assert_eq!(fields("0000-1-1"), Some((0, 1, 1)));
    assert_eq!(fields("0007-07-07"), Some((7, 7, 7)));
    assert_eq!(fields("9999-12-31"), Some((9999, 12, 31)));
}

#[test]
fn scan_date_does_not_ask_whether_the_day_exists() {
    assert_eq!(fields("2015-2-30"), Some((2015, 2, 30)));
    assert_eq!(fields("2015-13-1"), Some((2015, 13, 1)));
    assert_eq!(fields("2015-0-0"), Some((2015, 0, 0)));
    assert_eq!(fields("2015-99-99"), Some((2015, 99, 99)));
}

#[test]
fn scan_date_wants_a_year_of_four_digits() {
    assert_eq!(fields("15-12-3"), None);
    assert_eq!(fields("215-12-3"), None);
    assert_eq!(fields("12015-12-3"), None);
    assert_eq!(fields("+2015-12-3"), None);
    assert_eq!(fields("-2015-12-3"), None);
    assert_eq!(fields("20a5-12-3"), None);
}

#[test]
fn scan_date_wants_month_and_day_of_one_or_two_digits() {
    assert_eq!(fields("2015--3"), None);
    assert_eq!(fields("2015-12-"), None);
    assert_eq!(fields("2015-123-3"), None);
    assert_eq!(fields("2015-12-123"), None);
    assert_eq!(fields("2015-1x-3"), None);
    assert_eq!(fields("2015-12-x"), None);
    assert_eq!(fields("2015-12"), None);
    assert_eq!(fields("2015-1-1-1"), None);
}

#[test]
fn scan_date_takes_nothing_around_or_between() {
    assert_eq!(fields(""), None);
    assert_eq!(fields(" 2015-12-3"), None);
    assert_eq!(fields("2015-12-3 "), None);
    assert_eq!(fields("2015 - 12 - 3"), None);
    assert_eq!(fields("2015-12-3\n"), None);
    assert_eq!(fields("2015/12/3"), None);
    assert_eq!(fields("2015\u{2010}12\u{2010}3"), None);
    assert_eq!(fields("\u{ff12}\u{ff10}\u{ff11}\u{ff15}-12-3"), None);
}
