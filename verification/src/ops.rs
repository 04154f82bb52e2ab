//! The conversion operations: each takes the text of one input line, already
//! trimmed, and returns the values and rendered text the caller prints.

use vstd::prelude::*;
use vstd::string::StringSliceAdditionalSpecFns;

use crate::civil::{
    dt_day, dt_hour, dt_minute, dt_month, dt_second, dt_year, format_civil, parse_datetime,
    render_civil, valid_datetime, CivilDateTime,
};
use crate::clock::{
    local_offset_at_unix, local_offset_for_civil, unix_from_utc_civil, unix_of_utc_civil,
    utc_civil_from_unix, utc_civil_of,
};
use crate::digits::ascii_chars;
use crate::numeric::{
    parse_decimal, parsed_fits, parsed_nanos, parsed_secs, timestamp_decimal, timestamp_to_decimal,
    valid_decimal,
};
use crate::timestamp::{
    apple_to_unix, spec_apple_to_unix, spec_unix_to_apple, unix_to_apple, ConvError, Timestamp,
    APPLE_UNIX_OFFSET,
};

verus! {

/// A resolved instant, rendered in the host's local timezone and in UTC, both
/// as `YYYY-MM-DD HH:MM:SS.mmm`.
#[derive(Debug)]
pub struct InstantDisplay {
    pub local: String,
    pub utc: String,
}

/// An Apple timestamp resolved to an instant: the equivalent Unix timestamp
/// as decimal text, and the rendered local and UTC date-times.
#[derive(Debug)]
pub struct AppleDisplay {
    pub unix_text: String,
    pub local: String,
    pub utc: String,
}

/// A date-time resolved to epoch seconds, with the scaled millisecond value
/// the tool also prints (the seconds times one thousand; the format carries
/// no sub-second precision).
#[derive(Debug)]
pub struct EpochSeconds {
    pub seconds: i64,
    pub millis: i64,
}

/// A converted timestamp and its decimal rendering.
#[derive(Debug)]
pub struct ConvertedTimestamp {
    pub value: Timestamp,
    pub text: String,
}

/// The timestamp a decimal literal denotes.
pub open spec fn spec_parsed_timestamp(s: Seq<u8>) -> Timestamp {
    Timestamp { secs: parsed_secs(s) as i64, nanos: parsed_nanos(s) as u32 }
}

/// The civil fields of a `(year, month, day, hour, minute, second)` tuple.
pub open spec fn civil_from_tuple(f: (int, int, int, int, int, int)) -> CivilDateTime {
    CivilDateTime {
        year: f.0 as i32,
        month: f.1 as u32,
        day: f.2 as u32,
        hour: f.3 as u32,
        minute: f.4 as u32,
        second: f.5 as u32,
    }
}

/// The instants chrono's civil calendar can hold.
pub open spec fn in_civil_range(secs: int) -> bool {
    -8_334_601_228_800 <= secs <= 8_210_266_876_799
}

/// A timestamp rendered as its UTC date-time with milliseconds.
pub open spec fn utc_render(t: Timestamp) -> Seq<u8> {
    render_civil(civil_from_tuple(utc_civil_of(t.secs as int)), t.nanos as int / 1_000_000)
}

/// A timestamp rendered as the date-time of the timezone with the given
/// offset, with milliseconds.
pub open spec fn local_render(t: Timestamp, off: int) -> Seq<u8> {
    render_civil(civil_from_tuple(utc_civil_of(t.secs + off)), t.nanos as int / 1_000_000)
}

/// Renders an instant in the timezone with the given offset and in UTC.
/// Fails exactly when the instant, or its offset-shifted civil reading, falls
/// outside the representable calendar.
pub fn display_with_offset(t: &Timestamp, off: i32) -> (r: Result<InstantDisplay, ConvError>)
    requires
        t.wf(),
        -86_400 < off < 86_400,
    ensures
        r matches Ok(d) <==> in_civil_range(t.secs as int) && in_civil_range(t.secs + off),
        r matches Ok(d) ==> {
            &&& d.utc@ == ascii_chars(utc_render(*t))
            &&& d.local@ == ascii_chars(local_render(*t, off as int))
        },
        r matches Err(e) ==> e == ConvError::InvalidTimestamp,
{
    let utc_c = match utc_civil_from_unix(t.secs) {
        Some(c) => c,
        None => return Err(ConvError::InvalidTimestamp),
    };
    let local_secs = match t.secs.checked_add(off as i64) {
        Some(x) => x,
        None => return Err(ConvError::InvalidTimestamp),
    };
    let local_c = match utc_civil_from_unix(local_secs) {
        Some(c) => c,
        None => return Err(ConvError::InvalidTimestamp),
    };
    let millis: u32 = t.nanos / 1_000_000;
    proof {
        assert(utc_c == civil_from_tuple(utc_civil_of(t.secs as int)));
        assert(local_c == civil_from_tuple(utc_civil_of(t.secs + off)));
    }
    let utc = format_civil(&utc_c, millis);
    let local = format_civil(&local_c, millis);
    Ok(InstantDisplay { local, utc })
}

/// Resolves a Unix timestamp in the host's local timezone and renders it
/// there and in UTC. Fails, with `InvalidTimestamp`, only when the host
/// timezone cannot resolve the instant or the calendar cannot hold it.
pub fn display_timestamp_as_datetime(t: &Timestamp) -> (r: Result<InstantDisplay, ConvError>)
    requires
        t.wf(),
    ensures
        r matches Ok(d) ==> exists|off: int|
            {
                &&& -86_400 < off < 86_400
                &&& in_civil_range(t.secs as int)
                &&& d.utc@ == ascii_chars(utc_render(*t))
                &&& d.local@ == ascii_chars(#[trigger] local_render(*t, off))
            },
        r matches Err(e) ==> e == ConvError::InvalidTimestamp,
{
    let off = match local_offset_at_unix(t.secs) {
        Some(o) => o,
        None => return Err(ConvError::InvalidTimestamp),
    };
    let res = display_with_offset(t, off);
    proof {
        match res {
            Result::Ok(ref d) => {
                assert(d.local@ == ascii_chars(local_render(*t, off as int)));
            },
            Result::Err(_) => {},
        }
    }
    res
}

/// Converts decimal Unix seconds to a local and UTC date-time. Text that is
/// not a decimal literal is a `ParseError`; a timestamp the host timezone or
/// the calendar cannot hold is an `InvalidTimestamp`.
pub fn unix_timestamp_to_datetime(input: &str) -> (r: Result<InstantDisplay, ConvError>)
    ensures
        r matches Err(e) && e == ConvError::ParseError <==> !valid_decimal(input.spec_bytes()),
        valid_decimal(input.spec_bytes()) && !parsed_fits(input.spec_bytes()) ==> (r matches Err(e)
            && e == ConvError::InvalidTimestamp),
        r matches Ok(d) ==> {
            let t = spec_parsed_timestamp(input.spec_bytes());
            &&& valid_decimal(input.spec_bytes())
            &&& parsed_fits(input.spec_bytes())
            &&& d.utc@ == ascii_chars(utc_render(t))
            &&& exists|off: int|
                {
                    &&& -86_400 < off < 86_400
                    &&& d.local@ == ascii_chars(#[trigger] local_render(t, off))
                }
        },
{
    let t = match parse_decimal(input) {
        Ok(t) => t,
        Err(e) => return Err(e),
    };
    proof {
        assert(t == spec_parsed_timestamp(input.spec_bytes()));
    }
    display_timestamp_as_datetime(&t)
}

/// Converts decimal Apple seconds to the equivalent Unix timestamp and its
/// local and UTC date-times. Text that is not a decimal literal is a
/// `ParseError`; a value out of range for the epoch shift, the host timezone
/// or the calendar is an `InvalidTimestamp`.
pub fn apple_timestamp_to_datetime(input: &str) -> (r: Result<AppleDisplay, ConvError>)
    ensures
        r matches Err(e) && e == ConvError::ParseError <==> !valid_decimal(input.spec_bytes()),
        r matches Ok(d) ==> {
            let u = Timestamp {
                secs: spec_apple_to_unix(parsed_secs(input.spec_bytes())) as i64,
                nanos: parsed_nanos(input.spec_bytes()) as u32,
            };
            &&& valid_decimal(input.spec_bytes())
            &&& parsed_fits(input.spec_bytes())
            &&& spec_apple_to_unix(parsed_secs(input.spec_bytes())) <= i64::MAX
            &&& d.unix_text@ == ascii_chars(timestamp_decimal(u))
            &&& d.utc@ == ascii_chars(utc_render(u))
            &&& exists|off: int|
                {
                    &&& -86_400 < off < 86_400
                    &&& d.local@ == ascii_chars(#[trigger] local_render(u, off))
                }
        },
{
    let a = match parse_decimal(input) {
        Ok(t) => t,
        Err(e) => return Err(e),
    };
    let u = match apple_to_unix(&a) {
        Ok(t) => t,
        Err(e) => return Err(e),
    };
    proof {
        let s = input.spec_bytes();
        assert(a == spec_parsed_timestamp(s));
        assert(u == Timestamp {
            secs: spec_apple_to_unix(parsed_secs(s)) as i64,
            nanos: parsed_nanos(s) as u32,
        });
    }
    let unix_text = timestamp_to_decimal(&u);
    let disp = match display_timestamp_as_datetime(&u) {
        Ok(d) => d,
        Err(e) => return Err(e),
    };
    Ok(AppleDisplay { unix_text, local: disp.local, utc: disp.utc })
}

/// The Unix timestamp of a civil date-time read in the timezone with the
/// given offset: the date-time read as UTC, shifted back by the offset.
pub fn datetime_to_unix_with_offset(dt: &CivilDateTime, off: i32) -> (t: i64)
    requires
        dt.wf(),
        -86_400 < off < 86_400,
    ensures
        t == unix_of_utc_civil(
            dt.year as int,
            dt.month as int,
            dt.day as int,
            dt.hour as int,
            dt.minute as int,
            dt.second as int,
        ) - off,
        -9_000_000_100_000 <= t <= 9_000_000_100_000,
{
    let base = match unix_from_utc_civil(dt.year, dt.month, dt.day, dt.hour, dt.minute, dt.second) {
        Some(b) => b,
        None => {
            proof {
                assert(false);
            }
            0
        },
    };
    base - off as i64
}

/// Converts a `YYYY-MM-DD HH:MM:SS` date-time, read in the host's local
/// timezone, to Unix epoch seconds, with the scaled millisecond value the
/// tool prints beside them. Malformed or impossible date-time text is a
/// `ParseError`; a date-time the host timezone cannot resolve uniquely is an
/// `InvalidTimestamp`.
pub fn datetime_to_unix_timestamp(input: &str) -> (r: Result<EpochSeconds, ConvError>)
    ensures
        r matches Err(e) && e == ConvError::ParseError <==> !valid_datetime(input.spec_bytes()),
        r matches Ok(es) ==> {
            let s = input.spec_bytes();
            &&& valid_datetime(s)
            &&& es.millis == es.seconds * 1000
            &&& exists|off: int|
                {
                    &&& -86_400 < #[trigger] spec_off_mark(off) < 86_400
                    &&& es.seconds == unix_of_utc_civil(
                        dt_year(s),
                        dt_month(s),
                        dt_day(s),
                        dt_hour(s),
                        dt_minute(s),
                        dt_second(s),
                    ) - off
                }
        },
        r matches Err(e) ==> e == ConvError::ParseError || e == ConvError::InvalidTimestamp,
{
    let dt = match parse_datetime(input) {
        Ok(d) => d,
        Err(_) => return Err(ConvError::ParseError),
    };
    let off = match local_offset_for_civil(dt.year, dt.month, dt.day, dt.hour, dt.minute, dt.second)
        {
        Some(o) => o,
        None => return Err(ConvError::InvalidTimestamp),
    };
    let seconds = datetime_to_unix_with_offset(&dt, off);
    let millis = seconds * 1000;
    proof {
        assert(spec_off_mark(off as int) == off as int);
    }
    Ok(EpochSeconds { seconds, millis })
}

/// The identity on offsets; it marks the offset a contract speaks of.
pub open spec fn spec_off_mark(off: int) -> int {
    off
}

/// Converts a `YYYY-MM-DD HH:MM:SS` date-time, read in the host's local
/// timezone, to Apple epoch seconds, with the scaled millisecond value the
/// tool prints beside them. Errors as the Unix variant does.
pub fn datetime_to_apple_timestamp(input: &str) -> (r: Result<EpochSeconds, ConvError>)
    ensures
        r matches Err(e) && e == ConvError::ParseError <==> !valid_datetime(input.spec_bytes()),
        r matches Ok(es) ==> {
            let s = input.spec_bytes();
            &&& valid_datetime(s)
            &&& es.millis == es.seconds * 1000
            &&& exists|off: int|
                {
                    &&& -86_400 < #[trigger] spec_off_mark(off) < 86_400
                    &&& es.seconds == spec_unix_to_apple(
                        unix_of_utc_civil(
                            dt_year(s),
                            dt_month(s),
                            dt_day(s),
                            dt_hour(s),
                            dt_minute(s),
                            dt_second(s),
                        ) - off,
                    )
                }
        },
        r matches Err(e) ==> e == ConvError::ParseError || e == ConvError::InvalidTimestamp,
{
    let dt = match parse_datetime(input) {
        Ok(d) => d,
        Err(_) => return Err(ConvError::ParseError),
    };
    let off = match local_offset_for_civil(dt.year, dt.month, dt.day, dt.hour, dt.minute, dt.second)
        {
        Some(o) => o,
        None => return Err(ConvError::InvalidTimestamp),
    };
    let unix_seconds = datetime_to_unix_with_offset(&dt, off);
    let seconds = unix_seconds - APPLE_UNIX_OFFSET;
    let millis = seconds * 1000;
    proof {
        assert(spec_off_mark(off as int) == off as int);
    }
    Ok(EpochSeconds { seconds, millis })
}

/// Converts decimal Unix seconds to Apple seconds: the same instant counted
/// from the Apple epoch, with its decimal rendering. Text that is not a
/// decimal literal is a `ParseError`; a value whose shift leaves the
/// representable seconds is an `InvalidTimestamp`.
pub fn unix_to_apple_timestamp(input: &str) -> (r: Result<ConvertedTimestamp, ConvError>)
    ensures
        r matches Err(e) && e == ConvError::ParseError <==> !valid_decimal(input.spec_bytes()),
        r matches Ok(c) <==> valid_decimal(input.spec_bytes()) && parsed_fits(input.spec_bytes())
            && spec_unix_to_apple(parsed_secs(input.spec_bytes())) >= i64::MIN,
        r matches Ok(c) ==> {
            &&& c.value.secs == spec_unix_to_apple(parsed_secs(input.spec_bytes()))
            &&& c.value.nanos == parsed_nanos(input.spec_bytes())
            &&& c.value.wf()
            &&& c.text@ == ascii_chars(timestamp_decimal(c.value))
        },
        r matches Err(e) ==> e == ConvError::ParseError || e == ConvError::InvalidTimestamp,
{
    let t = match parse_decimal(input) {
        Ok(t) => t,
        Err(e) => return Err(e),
    };
    let a = match unix_to_apple(&t) {
        Ok(a) => a,
        Err(e) => return Err(e),
    };
    let text = timestamp_to_decimal(&a);
    Ok(ConvertedTimestamp { value: a, text })
}

/// Converts decimal Apple seconds to Unix seconds: the same instant counted
/// from the Unix epoch, with its decimal rendering. Errors as the Unix
/// variant does.
pub fn apple_to_unix_timestamp(input: &str) -> (r: Result<ConvertedTimestamp, ConvError>)
    ensures
        r matches Err(e) && e == ConvError::ParseError <==> !valid_decimal(input.spec_bytes()),
        r matches Ok(c) <==> valid_decimal(input.spec_bytes()) && parsed_fits(input.spec_bytes())
            && spec_apple_to_unix(parsed_secs(input.spec_bytes())) <= i64::MAX,
        r matches Ok(c) ==> {
            &&& c.value.secs == spec_apple_to_unix(parsed_secs(input.spec_bytes()))
            &&& c.value.nanos == parsed_nanos(input.spec_bytes())
            &&& c.value.wf()
            &&& c.text@ == ascii_chars(timestamp_decimal(c.value))
        },
        r matches Err(e) ==> e == ConvError::ParseError || e == ConvError::InvalidTimestamp,
{
    let t = match parse_decimal(input) {
        Ok(t) => t,
        Err(e) => return Err(e),
    };
    let u = match apple_to_unix(&t) {
        Ok(u) => u,
        Err(e) => return Err(e),
    };
    let text = timestamp_to_decimal(&u);
    Ok(ConvertedTimestamp { value: u, text })
}

/// One choice of the interactive menu.
#[derive(Clone, Copy, Debug, PartialEq, Eq, Structural)]
pub enum MenuChoice {
    UnixToDateTime,
    DateTimeToUnix,
    AppleToDateTime,
    DateTimeToApple,
    UnixToApple,
    AppleToUnix,
    Quit,
    Invalid,
}

/// The menu choice a line of input selects.
pub open spec fn spec_menu_choice(s: Seq<u8>) -> MenuChoice {
    if s == seq![49u8] {
        MenuChoice::UnixToDateTime
    } else if s == seq![50u8] {
        MenuChoice::DateTimeToUnix
    } else if s == seq![51u8] {
        MenuChoice::AppleToDateTime
    } else if s == seq![52u8] {
        MenuChoice::DateTimeToApple
    } else if s == seq![53u8] {
        MenuChoice::UnixToApple
    } else if s == seq![54u8] {
        MenuChoice::AppleToUnix
    } else if s == seq![55u8] {
        MenuChoice::Quit
    } else {
        MenuChoice::Invalid
    }
}

/// Reads a menu selection: the digits 1 through 7 select an operation or the
/// exit; anything else is invalid and harmless.
pub fn parse_menu_choice(input: &str) -> (r: MenuChoice)
    ensures
        r == spec_menu_choice(input.spec_bytes()),
{
    let b: &[u8] = input.as_bytes();
    let ghost s = input.spec_bytes();
    if b.len() != 1 {
        return MenuChoice::Invalid;
    }
    let c = b[0];
    proof {
        assert(s.len() == 1);
        if c == 49 {
            assert(s =~= seq![49u8]);
        }
        if c == 50 {
            assert(s =~= seq![50u8]);
        }
        if c == 51 {
            assert(s =~= seq![51u8]);
        }
        if c == 52 {
            assert(s =~= seq![52u8]);
        }
        if c == 53 {
            assert(s =~= seq![53u8]);
        }
        if c == 54 {
            assert(s =~= seq![54u8]);
        }
        if c == 55 {
            assert(s =~= seq![55u8]);
        }
    }
    if c == 49 {
        MenuChoice::UnixToDateTime
    } else if c == 50 {
        MenuChoice::DateTimeToUnix
    } else if c == 51 {
        MenuChoice::AppleToDateTime
    } else if c == 52 {
        MenuChoice::DateTimeToApple
    } else if c == 53 {
        MenuChoice::UnixToApple
    } else if c == 54 {
        MenuChoice::AppleToUnix
    } else if c == 55 {
        MenuChoice::Quit
    } else {
        MenuChoice::Invalid
    }
}

} // verus!
