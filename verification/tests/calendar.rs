use pac_windows::calendar::{timestamp_text, FIRST_SECOND, LAST_SECOND};

#[test]
fn the_epoch() {
    assert_eq!(timestamp_text(0), "1970-01-01 00:00:00");
}

#[test]
fn seconds_count_from_the_epoch() {
    assert_eq!(timestamp_text(1), "1970-01-01 00:00:01");
    assert_eq!(timestamp_text(-1), "1969-12-31 23:59:59");
    assert_eq!(timestamp_text(86399), "1970-01-01 23:59:59");
    assert_eq!(timestamp_text(86400), "1970-01-02 00:00:00");
    assert_eq!(timestamp_text(1_000_000_000), "2001-09-09 01:46:40");
}

#[test]
fn leap_years() {
    assert_eq!(timestamp_text(951782400), "2000-02-29 00:00:00");
    assert_eq!(timestamp_text(1709164800), "2024-02-29 00:00:00");
    assert_eq!(timestamp_text(-2203891200), "1900-03-01 00:00:00");
    assert_eq!(timestamp_text(-2203891201), "1900-02-28 23:59:59");
}

#[test]
fn days_without_a_value_are_in_1899() {
    assert_eq!(timestamp_text(-25569 * 86400), "1899-12-30 00:00:00");
}

#[test]
fn years_of_other_lengths() {
    assert_eq!(timestamp_text(253402300799), "9999-12-31 23:59:59");
    assert_eq!(timestamp_text(253402300800), "+10000-01-01 00:00:00");
    assert_eq!(timestamp_text(-62167219200), "0000-01-01 00:00:00");
    assert_eq!(timestamp_text(-62167219201), "-0001-12-31 23:59:59");
}

#[test]
fn the_ends_of_the_range() {
    assert_eq!(timestamp_text(FIRST_SECOND), "-262143-01-01 00:00:00");
    assert_eq!(timestamp_text(LAST_SECOND), "+262142-12-31 23:59:59");
}

#[test]
fn out_of_range_is_the_epoch() {
    for secs in [FIRST_SECOND - 1, LAST_SECOND + 1, i64::MIN, i64::MAX] {
        assert_eq!(timestamp_text(secs), "1970-01-01 00:00:00");
    }
}

#[test]
fn later_days_have_larger_texts_within_four_digit_years() {
    let mut before = timestamp_text(0);
    for day in 1..800i64 {
        let now = timestamp_text(day * 86400);
        assert!(before < now);
        before = now;
    }
}
