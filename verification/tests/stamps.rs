use netbird_loki_exporter::text::{parse_u64, trim_trailing, trim_trailing_text};
use netbird_loki_exporter::timestamp::{
    checked_unix_nanos, unix_nanos_or_zero, parse_line_instant, timestamp_to_nanoseconds, Timestamp,
};

#[test]
fn rfc3339_text_gives_its_nanoseconds() {
    assert_eq!(timestamp_to_nanoseconds("2023-01-01T00:00:00Z", 7), "1672531200000000000");
    assert_eq!(timestamp_to_nanoseconds("2023-01-01T00:00:00Z", 0), "1672531200000000000");
}

#[test]
fn fraction_and_offset_are_honoured() {
    assert_eq!(timestamp_to_nanoseconds("2023-01-01T01:00:00.5+01:00", 7), "1672531200500000000");
}

#[test]
fn instant_before_the_epoch_is_negative() {
    assert_eq!(timestamp_to_nanoseconds("1969-12-31T23:59:59Z", 7), "-1000000000");
    assert_eq!(timestamp_to_nanoseconds("1970-01-01T00:00:00Z", 7), "0");
}

#[test]
fn missing_offset_is_read_as_utc() {
    assert_eq!(
        parse_line_instant("2023-01-01T00:00:00"),
        Some(Timestamp { secs: 1_672_531_200, nanos: 0 })
    );
    assert_eq!(timestamp_to_nanoseconds("2023-01-01T00:00:00", 7), "1672531200000000000");
}

#[test]
fn every_trailing_z_is_dropped_for_the_second_reading() {
    assert_eq!(timestamp_to_nanoseconds("2023-01-01T00:00:00ZZ", 7), "1672531200000000000");
}

#[test]
fn unreadable_text_takes_the_clock_reading() {
    assert_eq!(parse_line_instant("not-a-date"), None);
    assert_eq!(timestamp_to_nanoseconds("not-a-date", 42), "42");
    assert_eq!(timestamp_to_nanoseconds("", -3), "-3");
}

#[test]
fn instant_counts_in_nanoseconds_or_zero() {
    assert_eq!(unix_nanos_or_zero(Timestamp { secs: 1_700_000_000, nanos: 123_456_789 }), 1_700_000_000_123_456_789);
    assert_eq!(unix_nanos_or_zero(Timestamp { secs: 0, nanos: 0 }), 0);
    assert_eq!(unix_nanos_or_zero(Timestamp { secs: -1, nanos: 999_999_999 }), -1);
    // Outside the span of 64-bit nanoseconds.
    assert_eq!(unix_nanos_or_zero(Timestamp { secs: 9_223_372_037, nanos: 0 }), 0);
    assert_eq!(unix_nanos_or_zero(Timestamp { secs: i64::MAX, nanos: u32::MAX }), 0);
    assert_eq!(unix_nanos_or_zero(Timestamp { secs: i64::MIN, nanos: 0 }), 0);
}

#[test]
fn nanoseconds_fit_or_do_not() {
    assert_eq!(
        checked_unix_nanos(Timestamp { secs: 9_223_372_036, nanos: 854_775_807 }),
        Some(i64::MAX)
    );
    assert_eq!(checked_unix_nanos(Timestamp { secs: 9_223_372_036, nanos: 854_775_808 }), None);
    assert_eq!(
        checked_unix_nanos(Timestamp { secs: -9_223_372_037, nanos: 145_224_192 }),
        Some(i64::MIN)
    );
    assert_eq!(checked_unix_nanos(Timestamp { secs: -9_223_372_037, nanos: 145_224_191 }), None);
}

#[test]
fn instant_outside_the_nanosecond_span_is_stamped_zero() {
    assert_eq!(timestamp_to_nanoseconds("3000-01-01T00:00:00Z", 7), "0");
    assert_eq!(timestamp_to_nanoseconds("1600-01-01T00:00:00Z", 7), "0");
}

#[test]
fn ends_of_the_nanosecond_span() {
    assert_eq!(timestamp_to_nanoseconds("2262-04-11T23:47:16.854775807Z", 7), "9223372036854775807");
    assert_eq!(timestamp_to_nanoseconds("2262-04-11T23:47:16.854775808Z", 7), "0");
    assert_eq!(timestamp_to_nanoseconds("1677-09-21T00:12:43.145224192Z", 7), "-9223372036854775808");
    assert_eq!(timestamp_to_nanoseconds("1677-09-21T00:12:43.145224191Z", 7), "0");
}

#[test]
fn leap_second_is_a_valid_reading() {
    assert_eq!(
        parse_line_instant("2016-12-31T23:59:60Z"),
        Some(Timestamp { secs: 1_483_228_799, nanos: 1_000_000_000 })
    );
    assert_eq!(timestamp_to_nanoseconds("2016-12-31T23:59:60Z", 7), "1483228800000000000");
}

#[test]
fn trailing_characters_are_trimmed() {
    assert_eq!(trim_trailing("https://api.netbird.io///", '/'), "https://api.netbird.io");
    assert_eq!(trim_trailing("abc", '/'), "abc");
    assert_eq!(trim_trailing("///", '/'), "");
    assert_eq!(trim_trailing("", '/'), "");
    assert_eq!(trim_trailing("a/b", '/'), "a/b");
}

#[test]
fn trailing_texts_are_trimmed() {
    assert_eq!(trim_trailing_text("https://x/api", "/api"), "https://x");
    assert_eq!(trim_trailing_text("https://x/api/api", "/api"), "https://x");
    assert_eq!(trim_trailing_text("https://x/apis", "/api"), "https://x/apis");
    assert_eq!(trim_trailing_text("api", "/api"), "api");
    assert_eq!(trim_trailing_text("/api", "/api"), "");
    assert_eq!(trim_trailing_text("abc", ""), "abc");
}

#[test]
fn unsigned_numbers_are_read() {
    assert_eq!(parse_u64("10"), Some(10));
    assert_eq!(parse_u64("0"), Some(0));
    assert_eq!(parse_u64("+5"), Some(5));
    assert_eq!(parse_u64("007"), Some(7));
    assert_eq!(parse_u64("18446744073709551615"), Some(u64::MAX));
}

#[test]
fn what_is_no_unsigned_number_is_refused() {
    assert_eq!(parse_u64(""), None);
    assert_eq!(parse_u64("+"), None);
    assert_eq!(parse_u64("-1"), None);
    assert_eq!(parse_u64(" 5"), None);
    assert_eq!(parse_u64("5 "), None);
    assert_eq!(parse_u64("1_000"), None);
    assert_eq!(parse_u64("ten"), None);
    assert_eq!(parse_u64("++5"), None);
    assert_eq!(parse_u64("18446744073709551616"), None);
    assert_eq!(parse_u64("99999999999999999999999"), None);
}

#[test]
fn unsigned_reading_agrees_with_the_standard_one() {
    for text in ["10", "+5", "", "+", "-1", " 5", "007", "18446744073709551615", "18446744073709551616", "1e3", "٣"] {
        assert_eq!(parse_u64(text), text.parse::<u64>().ok(), "{:?}", text);
    }
}
