use timeconv::civil::{format_civil, parse_datetime, CivilDateTime};
use timeconv::timestamp::ConvError;

#[test]
fn parses_strict_datetime_fields() {
    let dt = parse_datetime("2023-11-14 22:13:20").unwrap();
    assert_eq!(
        dt,
        CivilDateTime { year: 2023, month: 11, day: 14, hour: 22, minute: 13, second: 20 }
    );
}

#[test]
fn rejects_loose_datetime_shapes() {
    for bad in [
        "2023-1-14 22:13:20",
        "23-11-14 22:13:20",
        "2023/11/14 22:13:20",
        "2023-11-14T22:13:20",
        "2023-11-14 22:13:20 ",
        " 2023-11-14 22:13:20",
        "2023-11-14 22:13:20.5",
    ] {
        assert_eq!(parse_datetime(bad).unwrap_err(), ConvError::ParseError, "{bad}");
    }
}

#[test]
fn century_leap_rule_is_applied() {
    assert!(parse_datetime("2000-02-29 00:00:00").is_ok());
    assert_eq!(parse_datetime("1900-02-29 00:00:00").unwrap_err(), ConvError::ParseError);
}

#[test]
fn renders_datetimes_with_milliseconds() {
    let dt = CivilDateTime { year: 2023, month: 11, day: 14, hour: 22, minute: 13, second: 20 };
    assert_eq!(format_civil(&dt, 123), "2023-11-14 22:13:20.123");
    assert_eq!(format_civil(&dt, 0), "2023-11-14 22:13:20.000");
}

#[test]
fn renders_years_outside_four_digits_with_a_sign() {
    let before = CivilDateTime { year: -566, month: 3, day: 4, hour: 5, minute: 6, second: 7 };
    assert_eq!(format_civil(&before, 89), "-0566-03-04 05:06:07.089");
    let far = CivilDateTime { year: 12345, month: 1, day: 2, hour: 3, minute: 4, second: 5 };
    assert_eq!(format_civil(&far, 6), "+12345-01-02 03:04:05.006");
}
