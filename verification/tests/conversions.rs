use timeconv::ops::{
    apple_timestamp_to_datetime, display_with_offset, apple_to_unix_timestamp, datetime_to_apple_timestamp,
    datetime_to_unix_timestamp, datetime_to_unix_with_offset, parse_menu_choice,
    unix_timestamp_to_datetime, unix_to_apple_timestamp, MenuChoice,
};
use timeconv::timestamp::{ConvError, Timestamp, APPLE_UNIX_OFFSET};

#[test]
fn offset_round_trip_concrete() {
    // The two epoch shifts are exact additive inverses of each other.
    let a = unix_to_apple_timestamp("1700000000.25").unwrap();
    let text = a.text.clone();
    let back = apple_to_unix_timestamp(&text).unwrap();
    assert_eq!(back.value, Timestamp { secs: 1_700_000_000, nanos: 250_000_000 });
    assert_eq!(back.text, "1700000000.25");

    let a2 = unix_to_apple_timestamp("-1.5").unwrap();
    let back2 = apple_to_unix_timestamp(&a2.text).unwrap();
    assert_eq!(back2.text, "-1.5");
}

#[test]
fn apple_epoch_maps_to_fixed_offset() {
    // appleToUnix(0) == 978307200 and unixToApple(978307200) == 0.
    let u = apple_to_unix_timestamp("0").unwrap();
    assert_eq!(u.value, Timestamp { secs: 978_307_200, nanos: 0 });
    assert_eq!(u.text, "978307200");

    let a = unix_to_apple_timestamp("978307200").unwrap();
    assert_eq!(a.value, Timestamp { secs: 0, nanos: 0 });
    assert_eq!(a.text, "0");
}

#[test]
fn unix_timestamp_resolves_to_utc_datetime() {
    let d = unix_timestamp_to_datetime("1700000000").unwrap();
    assert_eq!(d.utc, "2023-11-14 22:13:20.000");
    // The local rendering has the same shape, whatever the host timezone.
    assert_eq!(d.local.len(), 23);
}

#[test]
fn unix_epoch_resolves_to_utc_datetime() {
    let d = unix_timestamp_to_datetime("0").unwrap();
    assert_eq!(d.utc, "1970-01-01 00:00:00.000");
}

#[test]
fn apple_epoch_datetime_with_utc_offset() {
    // Read in a zone with offset zero, 2001-01-01 00:00:00 is the Apple epoch.
    let dt = match timeconv::civil::parse_datetime("2001-01-01 00:00:00") {
        Ok(dt) => dt,
        Err(_) => panic!("the literal must parse"),
    };
    let unix = datetime_to_unix_with_offset(&dt, 0);
    assert_eq!(unix, 978_307_200);
    assert_eq!(unix - APPLE_UNIX_OFFSET, 0);
}

#[test]
fn non_numeric_input_is_a_parse_error_and_recoverable() {
    assert_eq!(unix_to_apple_timestamp("abc").unwrap_err(), ConvError::ParseError);
    assert_eq!(apple_to_unix_timestamp("abc").unwrap_err(), ConvError::ParseError);
    assert!(unix_timestamp_to_datetime("abc").is_err());
    assert!(apple_timestamp_to_datetime("abc").is_err());
    // A later well-formed request still succeeds.
    assert!(unix_to_apple_timestamp("978307200").is_ok());
}

#[test]
fn empty_and_malformed_numbers_are_parse_errors() {
    for bad in ["", "+", "-", ".", "1.2.3", "1a", "--1", "1 2", " 1"] {
        assert_eq!(unix_to_apple_timestamp(bad).unwrap_err(), ConvError::ParseError, "{bad}");
    }
}

#[test]
fn missing_datetime_fields_are_a_parse_error() {
    assert_eq!(datetime_to_unix_timestamp("2024-01-01").unwrap_err(), ConvError::ParseError);
    assert_eq!(datetime_to_apple_timestamp("2024-01-01").unwrap_err(), ConvError::ParseError);
    assert_eq!(datetime_to_unix_timestamp("2024-01-01 12:00").unwrap_err(), ConvError::ParseError);
}

#[test]
fn invalid_calendar_fields_are_a_parse_error() {
    for bad in [
        "2023-02-29 12:00:00",
        "2024-13-01 00:00:00",
        "2024-00-10 00:00:00",
        "2024-04-31 00:00:00",
        "2024-01-00 00:00:00",
        "2024-01-01 24:00:00",
        "2024-01-01 00:60:00",
        "2024-01-01 00:00:60",
    ] {
        assert_eq!(datetime_to_unix_timestamp(bad).unwrap_err(), ConvError::ParseError, "{bad}");
    }
    // A leap day of a real leap year parses.
    assert!(timeconv::civil::parse_datetime("2024-02-29 12:00:00").is_ok());
}

#[test]
fn fractional_timestamp_rounds_to_nanoseconds() {
    let a = unix_to_apple_timestamp("1700000000.123456789").unwrap();
    assert_eq!(a.value.secs, 1_700_000_000 - APPLE_UNIX_OFFSET);
    assert_eq!(a.value.nanos, 123_456_789);

    // The tenth fractional digit rounds, ties away from zero.
    let up = unix_to_apple_timestamp("978307200.0000000005").unwrap();
    assert_eq!(up.value, Timestamp { secs: 0, nanos: 1 });
    let down = unix_to_apple_timestamp("978307200.00000000049").unwrap();
    assert_eq!(down.value, Timestamp { secs: 0, nanos: 0 });

    // Rounding never carries into the next whole second.
    let clamped = unix_to_apple_timestamp("978307200.9999999999").unwrap();
    assert_eq!(clamped.value, Timestamp { secs: 0, nanos: 999_999_999 });
}

#[test]
fn fractional_display_keeps_millisecond_precision() {
    let d = unix_timestamp_to_datetime("1700000000.123456789").unwrap();
    assert_eq!(d.utc, "2023-11-14 22:13:20.123");
}

#[test]
fn out_of_range_values_are_invalid_timestamps() {
    // Larger than any representable count of seconds.
    assert_eq!(
        unix_to_apple_timestamp("99999999999999999999").unwrap_err(),
        ConvError::InvalidTimestamp
    );
    // The epoch shift would leave the representable range.
    assert_eq!(
        unix_to_apple_timestamp("-9223372036854775807").unwrap_err(),
        ConvError::InvalidTimestamp
    );
    assert_eq!(
        apple_to_unix_timestamp("9223372036854775807").unwrap_err(),
        ConvError::InvalidTimestamp
    );
    // Representable seconds, but no calendar date-time holds them.
    assert_eq!(
        unix_timestamp_to_datetime("9000000000000").unwrap_err(),
        ConvError::InvalidTimestamp
    );
}

#[test]
fn apple_timestamp_reports_intermediate_unix_value() {
    let d = apple_timestamp_to_datetime("0").unwrap();
    assert_eq!(d.unix_text, "978307200");
    assert_eq!(d.utc, "2001-01-01 00:00:00.000");
}

#[test]
fn datetime_to_unix_reports_scaled_milliseconds() {
    // Whatever the host timezone, the result is within a day of the UTC
    // reading and the millisecond value is the seconds scaled by a thousand.
    match datetime_to_unix_timestamp("2001-01-01 00:00:00") {
        Ok(es) => {
            assert!((es.seconds - 978_307_200).abs() < 86_400);
            assert_eq!(es.millis, es.seconds * 1000);
        },
        Err(e) => assert_eq!(e, ConvError::InvalidTimestamp),
    }
    match datetime_to_apple_timestamp("2001-01-01 00:00:00") {
        Ok(es) => {
            assert!(es.seconds.abs() < 86_400);
            assert_eq!(es.millis, es.seconds * 1000);
        },
        Err(e) => assert_eq!(e, ConvError::InvalidTimestamp),
    }
}

#[test]
fn calendar_range_boundaries_resolve_exactly() {
    // The last instant chrono's calendar holds.
    let max = Timestamp { secs: 8_210_266_876_799, nanos: 0 };
    let d = display_with_offset(&max, 0).unwrap();
    assert_eq!(d.utc, "+262142-12-31 23:59:59.000");
    assert_eq!(d.local, d.utc);
    let over = Timestamp { secs: 8_210_266_876_800, nanos: 0 };
    assert!(display_with_offset(&over, 0).is_err());
    // The first instant it holds.
    let min = Timestamp { secs: -8_334_601_228_800, nanos: 0 };
    let d2 = display_with_offset(&min, 0).unwrap();
    assert_eq!(d2.utc, "-262143-01-01 00:00:00.000");
    let under = Timestamp { secs: -8_334_601_228_801, nanos: 0 };
    assert!(display_with_offset(&under, 0).is_err());
}

#[test]
fn offset_shifts_the_local_rendering() {
    let epoch = Timestamp { secs: 0, nanos: 0 };
    let d = display_with_offset(&epoch, -3600).unwrap();
    assert_eq!(d.utc, "1970-01-01 00:00:00.000");
    assert_eq!(d.local, "1969-12-31 23:00:00.000");
    let d2 = display_with_offset(&epoch, 28_800).unwrap();
    assert_eq!(d2.local, "1970-01-01 08:00:00.000");
}

#[test]
fn menu_choices_dispatch_as_numbered() {
    assert_eq!(parse_menu_choice("1"), MenuChoice::UnixToDateTime);
    assert_eq!(parse_menu_choice("2"), MenuChoice::DateTimeToUnix);
    assert_eq!(parse_menu_choice("3"), MenuChoice::AppleToDateTime);
    assert_eq!(parse_menu_choice("4"), MenuChoice::DateTimeToApple);
    assert_eq!(parse_menu_choice("5"), MenuChoice::UnixToApple);
    assert_eq!(parse_menu_choice("6"), MenuChoice::AppleToUnix);
    assert_eq!(parse_menu_choice("7"), MenuChoice::Quit);
    assert_eq!(parse_menu_choice("8"), MenuChoice::Invalid);
    assert_eq!(parse_menu_choice(""), MenuChoice::Invalid);
    assert_eq!(parse_menu_choice("12"), MenuChoice::Invalid);
}
