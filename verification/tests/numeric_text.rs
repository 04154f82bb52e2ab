use timeconv::numeric::{parse_decimal, timestamp_to_decimal};
use timeconv::timestamp::{ConvError, Timestamp};

#[test]
fn parses_integers_and_signs() {
    assert_eq!(parse_decimal("0").unwrap(), Timestamp { secs: 0, nanos: 0 });
    assert_eq!(parse_decimal("+5").unwrap(), Timestamp { secs: 5, nanos: 0 });
    assert_eq!(parse_decimal("-5").unwrap(), Timestamp { secs: -5, nanos: 0 });
    assert_eq!(
        parse_decimal("9223372036854775807").unwrap(),
        Timestamp { secs: i64::MAX, nanos: 0 }
    );
    assert_eq!(
        parse_decimal("-9223372036854775808").unwrap(),
        Timestamp { secs: i64::MIN, nanos: 0 }
    );
    assert_eq!(parse_decimal("9223372036854775808").unwrap_err(), ConvError::InvalidTimestamp);
    assert_eq!(parse_decimal("-9223372036854775809").unwrap_err(), ConvError::InvalidTimestamp);
}

#[test]
fn parses_fractions_with_floor_convention() {
    assert_eq!(parse_decimal("1.5").unwrap(), Timestamp { secs: 1, nanos: 500_000_000 });
    assert_eq!(parse_decimal("-1.5").unwrap(), Timestamp { secs: -2, nanos: 500_000_000 });
    assert_eq!(parse_decimal(".5").unwrap(), Timestamp { secs: 0, nanos: 500_000_000 });
    assert_eq!(parse_decimal("5.").unwrap(), Timestamp { secs: 5, nanos: 0 });
    assert_eq!(parse_decimal("-0.000000001").unwrap(), Timestamp { secs: -1, nanos: 999_999_999 });
    assert_eq!(
        parse_decimal("1700000000.123456789").unwrap(),
        Timestamp { secs: 1_700_000_000, nanos: 123_456_789 }
    );
}

#[test]
fn rejects_text_that_is_not_a_decimal_literal() {
    for bad in ["abc", "1e5", "0x10", "1.2.3", "++1", "-+1", "1-", "NaN", "inf"] {
        assert_eq!(parse_decimal(bad).unwrap_err(), ConvError::ParseError, "{bad}");
    }
}

#[test]
fn renders_decimal_text_exactly() {
    assert_eq!(timestamp_to_decimal(&Timestamp { secs: 0, nanos: 0 }), "0");
    assert_eq!(timestamp_to_decimal(&Timestamp { secs: 42, nanos: 0 }), "42");
    assert_eq!(timestamp_to_decimal(&Timestamp { secs: 1, nanos: 500_000_000 }), "1.5");
    assert_eq!(timestamp_to_decimal(&Timestamp { secs: -2, nanos: 500_000_000 }), "-1.5");
    assert_eq!(timestamp_to_decimal(&Timestamp { secs: -1, nanos: 999_999_999 }), "-0.000000001");
    assert_eq!(timestamp_to_decimal(&Timestamp { secs: 0, nanos: 123_456_789 }), "0.123456789");
    assert_eq!(timestamp_to_decimal(&Timestamp { secs: 0, nanos: 100 }), "0.0000001");
    assert_eq!(timestamp_to_decimal(&Timestamp { secs: i64::MIN, nanos: 0 }), "-9223372036854775808");
    assert_eq!(timestamp_to_decimal(&Timestamp { secs: i64::MAX, nanos: 0 }), "9223372036854775807");
}

#[test]
fn parse_and_render_round_trip() {
    for text in ["0", "1.5", "-1.5", "978307200", "-0.000000001", "1700000000.123456789"] {
        let t = parse_decimal(text).unwrap();
        assert_eq!(timestamp_to_decimal(&t), text, "{text}");
    }
}
