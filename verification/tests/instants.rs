//! Moments as text.

use alder::ids::{random_token, token_of};
use alder::instant::Instant;

#[test]
fn what_is_written_of_a_moment_is_read_as_that_moment() {
    for (seconds, nanos, text) in [
        (-62_167_219_200, 0, "0000-01-01T00:00:00Z"),
        (253_402_300_799, 999_999_999, "9999-12-31T23:59:59.999999999Z"),
        (0, 1, "1970-01-01T00:00:00.000000001Z"),
        (0, 1_000, "1970-01-01T00:00:00.000001Z"),
        (0, 1_000_000, "1970-01-01T00:00:00.001Z"),
        (1_785_166_800, 0, "2026-07-27T15:40:00Z"),
        (253_402_300_800, 0, "+10000-01-01T00:00:00Z"),
        (-62_167_219_201, 0, "-0001-12-31T23:59:59Z"),
        (1_483_228_799, 1_000_000_000, "2016-12-31T23:59:60Z"),
        (59, 1_500_000_000, "1970-01-01T00:00:60.500Z"),
        (-1, 1_999_999_999, "1969-12-31T23:59:60.999999999Z"),
        (8_210_266_876_799, 0, "+262142-12-31T23:59:59Z"),
        (-8_334_601_228_800, 0, "-262143-01-01T00:00:00Z"),
    ] {
        let at = Instant { seconds, nanos };
        assert_eq!(at.to_wire().as_deref(), Some(text));
        assert_eq!(Instant::read(text), Ok(at));
        assert_eq!(Instant::read(&at.to_rfc3339()), Ok(at));
    }
}

#[test]
fn a_moment_beyond_all_calendars_has_no_text() {
    for (seconds, nanos) in [
        (i64::MAX, 0),
        (i64::MIN, 0),
        (8_210_266_876_800, 0),
        (-8_334_601_228_801, 0),
        (0, 1_000_000_000),
        (59, 2_000_000_000),
    ] {
        let at = Instant { seconds, nanos };
        assert_eq!(at.to_wire(), None);
        assert_eq!(at.to_rfc3339(), "");
    }
}

#[test]
fn the_clock_goes_on() {
    let first = Instant::now();
    let second = Instant::now();
    assert!(!second.is_before(first));
    assert!(Instant::read("not a moment").is_err());
}

#[test]
fn a_token_is_the_end_of_an_identifier_turned_round() {
    assert_eq!(token_of("01ARZ3NDEKTSV4RRFFQ69G5FAV"), "vaf5g9");
    assert_eq!(token_of("ABC"), "cba");
    assert_eq!(random_token().len(), 6);
    assert_ne!(random_token(), random_token());
}
