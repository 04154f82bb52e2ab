//! Civil calendar date-times: validity against the proleptic Gregorian
//! calendar, strict parsing of `YYYY-MM-DD HH:MM:SS` text, and rendering with
//! a millisecond suffix.

use vstd::prelude::*;
use vstd::string::StringSliceAdditionalSpecFns;

use crate::digits::{
    all_digits, ascii_chars, ascii_to_string, four_digits, is_ascii_seq, is_digit,
    lemma_ascii_concat, lemma_digits_are_ascii, lemma_four_digits_digits, lemma_three_digits_digits,
    lemma_two_digits_digits, push_four_digits, push_three_digits, push_two_digits, three_digits,
    two_digits,
};
use crate::timestamp::ConvError;

verus! {

/// A civil (proleptic Gregorian) calendar date and time of day, with no
/// attached timezone.
#[derive(Clone, Copy, Debug, PartialEq, Eq, Structural)]
pub struct CivilDateTime {
    pub year: i32,
    pub month: u32,
    pub day: u32,
    pub hour: u32,
    pub minute: u32,
    pub second: u32,
}

/// A leap year of the proleptic Gregorian calendar.
pub open spec fn is_leap_year(y: int) -> bool {
    y % 4 == 0 && (y % 100 != 0 || y % 400 == 0)
}

/// The number of days in a month of a year.
pub open spec fn days_in_month(y: int, m: int) -> int {
    if m == 2 {
        if is_leap_year(y) {
            29
        } else {
            28
        }
    } else if m == 4 || m == 6 || m == 9 || m == 11 {
        30
    } else {
        31
    }
}

/// A real calendar date: the month exists and the day exists in the month.
pub open spec fn valid_ymd(y: int, m: int, d: int) -> bool {
    1 <= m <= 12 && 1 <= d <= days_in_month(y, m)
}

impl CivilDateTime {
    /// Well-formed: a real calendar date within the representable years, and
    /// a time of day.
    pub open spec fn wf(self) -> bool {
        &&& -262_143 <= self.year <= 262_142
        &&& valid_ymd(self.year as int, self.month as int, self.day as int)
        &&& self.hour < 24
        &&& self.minute < 60
        &&& self.second < 60
    }
}

/// Whether a year, at or after the common era, is a leap year.
pub fn is_leap_year_exec(y: i32) -> (r: bool)
    requires
        y >= 0,
    ensures
        r == is_leap_year(y as int),
{
    y % 4 == 0 && (y % 100 != 0 || y % 400 == 0)
}

/// The number of days in a month of a year at or after the common era.
pub fn days_in_month_exec(y: i32, m: u32) -> (r: u32)
    requires
        y >= 0,
        1 <= m <= 12,
    ensures
        r as int == days_in_month(y as int, m as int),
{
    if m == 2 {
        if is_leap_year_exec(y) {
            29
        } else {
            28
        }
    } else if m == 4 || m == 6 || m == 9 || m == 11 {
        30
    } else {
        31
    }
}

/// The value of two digit bytes at a position.
pub open spec fn two_val(s: Seq<u8>, i: int) -> int {
    (s[i] - 48) * 10 + (s[i + 1] - 48)
}

/// The text has the exact shape `YYYY-MM-DD HH:MM:SS`.
pub open spec fn dt_shape_ok(s: Seq<u8>) -> bool {
    &&& s.len() == 19
    &&& is_digit(s[0]) && is_digit(s[1]) && is_digit(s[2]) && is_digit(s[3])
    &&& s[4] == 45
    &&& is_digit(s[5]) && is_digit(s[6])
    &&& s[7] == 45
    &&& is_digit(s[8]) && is_digit(s[9])
    &&& s[10] == 32
    &&& is_digit(s[11]) && is_digit(s[12])
    &&& s[13] == 58
    &&& is_digit(s[14]) && is_digit(s[15])
    &&& s[16] == 58
    &&& is_digit(s[17]) && is_digit(s[18])
}

/// The year the text spells.
pub open spec fn dt_year(s: Seq<u8>) -> int {
    two_val(s, 0) * 100 + two_val(s, 2)
}

/// The month the text spells.
pub open spec fn dt_month(s: Seq<u8>) -> int {
    two_val(s, 5)
}

/// The day the text spells.
pub open spec fn dt_day(s: Seq<u8>) -> int {
    two_val(s, 8)
}

/// The hour the text spells.
pub open spec fn dt_hour(s: Seq<u8>) -> int {
    two_val(s, 11)
}

/// The minute the text spells.
pub open spec fn dt_minute(s: Seq<u8>) -> int {
    two_val(s, 14)
}

/// The second the text spells.
pub open spec fn dt_second(s: Seq<u8>) -> int {
    two_val(s, 17)
}

/// The text is a date-time in the strict format: the exact shape, a real
/// calendar date, and a time of day.
pub open spec fn valid_datetime(s: Seq<u8>) -> bool {
    &&& dt_shape_ok(s)
    &&& valid_ymd(dt_year(s), dt_month(s), dt_day(s))
    &&& dt_hour(s) <= 23
    &&& dt_minute(s) <= 59
    &&& dt_second(s) <= 59
}

/// Parses a date-time strictly against `YYYY-MM-DD HH:MM:SS`: fixed-width
/// fields, a real calendar date, and a time of day. Anything else is a
/// `ParseError`; nothing is taken from a partial match.
pub fn parse_datetime(input: &str) -> (r: Result<CivilDateTime, ConvError>)
    ensures
        r matches Ok(dt) <==> valid_datetime(input.spec_bytes()),
        r matches Ok(dt) ==> {
            &&& dt.year == dt_year(input.spec_bytes())
            &&& dt.month == dt_month(input.spec_bytes())
            &&& dt.day == dt_day(input.spec_bytes())
            &&& dt.hour == dt_hour(input.spec_bytes())
            &&& dt.minute == dt_minute(input.spec_bytes())
            &&& dt.second == dt_second(input.spec_bytes())
            &&& dt.wf()
        },
        r matches Err(e) ==> e == ConvError::ParseError,
{
    let b: &[u8] = input.as_bytes();
    if b.len() != 19 {
        return Err(ConvError::ParseError);
    }
    if b[4] != 45 || b[7] != 45 || b[10] != 32 || b[13] != 58 || b[16] != 58 {
        return Err(ConvError::ParseError);
    }
    let mut i: usize = 0;
    while i < 19
        invariant
            i <= 19,
            b@.len() == 19,
            b@ == input.spec_bytes(),
            forall|k: int|
                0 <= k < i && k != 4 && k != 7 && k != 10 && k != 13 && k != 16 ==> is_digit(
                    #[trigger] b@[k],
                ),
        decreases 19 - i,
    {
        if i != 4 && i != 7 && i != 10 && i != 13 && i != 16 {
            if b[i] < 48 || b[i] > 57 {
                return Err(ConvError::ParseError);
            }
        }
        i += 1;
    }
    let year: i32 = (b[0] - 48) as i32 * 1000 + (b[1] - 48) as i32 * 100 + (b[2] - 48) as i32 * 10
        + (b[3] - 48) as i32;
    let month: u32 = (b[5] - 48) as u32 * 10 + (b[6] - 48) as u32;
    let day: u32 = (b[8] - 48) as u32 * 10 + (b[9] - 48) as u32;
    let hour: u32 = (b[11] - 48) as u32 * 10 + (b[12] - 48) as u32;
    let minute: u32 = (b[14] - 48) as u32 * 10 + (b[15] - 48) as u32;
    let second: u32 = (b[17] - 48) as u32 * 10 + (b[18] - 48) as u32;
    if month < 1 || month > 12 {
        return Err(ConvError::ParseError);
    }
    if day < 1 || day > days_in_month_exec(year, month) {
        return Err(ConvError::ParseError);
    }
    if hour > 23 || minute > 59 || second > 59 {
        return Err(ConvError::ParseError);
    }
    Ok(CivilDateTime { year, month, day, hour, minute, second })
}

/// The year rendered the way chrono formats `%Y`: four zero-padded digits,
/// more digits after an explicit sign outside 0000..=9999.
pub open spec fn year_repr(y: int) -> Seq<u8> {
    if y < 0 {
        seq![45u8] + year_digits_mag(-y)
    } else if y > 9999 {
        seq![43u8] + year_digits_mag(y)
    } else {
        four_digits(y)
    }
}

/// The magnitude of a year, at least four digits, zero padded.
pub open spec fn year_digits_mag(m: int) -> Seq<u8> {
    if m < 10000 {
        four_digits(m)
    } else if m < 100000 {
        seq![(48 + m / 10000) as u8] + four_digits(m % 10000)
    } else {
        seq![(48 + m / 100000) as u8, (48 + (m / 10000) % 10) as u8] + four_digits(m % 10000)
    }
}

/// A date-time rendered as `YYYY-MM-DD HH:MM:SS.mmm`.
pub open spec fn render_civil(c: CivilDateTime, millis: int) -> Seq<u8> {
    year_repr(c.year as int) + seq![45u8] + two_digits(c.month as int) + seq![45u8] + two_digits(
        c.day as int,
    ) + seq![32u8] + two_digits(c.hour as int) + seq![58u8] + two_digits(c.minute as int)
        + seq![58u8] + two_digits(c.second as int) + seq![46u8] + three_digits(millis)
}

/// The rendering of a well-formed date-time is ASCII.
proof fn lemma_render_civil_ascii(c: CivilDateTime, millis: int)
    requires
        c.wf(),
        0 <= millis < 1000,
    ensures
        is_ascii_seq(render_civil(c, millis)),
{
    lemma_year_repr_ascii(c.year as int);
    lemma_two_digits_digits(c.month as int);
    lemma_two_digits_digits(c.day as int);
    lemma_two_digits_digits(c.hour as int);
    lemma_two_digits_digits(c.minute as int);
    lemma_two_digits_digits(c.second as int);
    lemma_three_digits_digits(millis);
    assert forall|i: int| 0 <= i < render_civil(c, millis).len() implies #[trigger] render_civil(
        c,
        millis,
    )[i] < 128 by {
        let r = render_civil(c, millis);
        let yr = year_repr(c.year as int);
        let yl = yr.len() as int;
        if i < yl {
            assert(r[i] == yr[i]);
        } else if i < yl + 3 {
            assert(r[i] == (yr + seq![45u8] + two_digits(c.month as int))[i]);
        } else if i < yl + 6 {
            assert(r[i] == (yr + seq![45u8] + two_digits(c.month as int) + seq![45u8] + two_digits(
                c.day as int,
            ))[i]);
        } else if i < yl + 9 {
            assert(r[i] == (yr + seq![45u8] + two_digits(c.month as int) + seq![45u8] + two_digits(
                c.day as int,
            ) + seq![32u8] + two_digits(c.hour as int))[i]);
        } else if i < yl + 12 {
            assert(r[i] == (yr + seq![45u8] + two_digits(c.month as int) + seq![45u8] + two_digits(
                c.day as int,
            ) + seq![32u8] + two_digits(c.hour as int) + seq![58u8] + two_digits(
                c.minute as int,
            ))[i]);
        } else {
            assert(r[i] == (yr + seq![45u8] + two_digits(c.month as int) + seq![45u8] + two_digits(
                c.day as int,
            ) + seq![32u8] + two_digits(c.hour as int) + seq![58u8] + two_digits(c.minute as int)
                + seq![58u8] + two_digits(c.second as int) + seq![46u8] + three_digits(millis))[i]);
        }
    }
}

/// The year rendering is ASCII.
proof fn lemma_year_repr_ascii(y: int)
    requires
        -1_000_000 < y < 1_000_000,
    ensures
        is_ascii_seq(year_repr(y)),
{
    if y < 0 {
        lemma_year_mag_ascii(-y);
        lemma_ascii_concat(seq![45u8], year_digits_mag(-y));
    } else if y > 9999 {
        lemma_year_mag_ascii(y);
        lemma_ascii_concat(seq![43u8], year_digits_mag(y));
    } else {
        lemma_four_digits_digits(y);
        lemma_digits_are_ascii(four_digits(y));
    }
}

/// The year magnitude rendering is ASCII.
proof fn lemma_year_mag_ascii(m: int)
    requires
        0 < m < 1_000_000,
    ensures
        is_ascii_seq(year_digits_mag(m)),
{
    lemma_four_digits_digits(m % 10000);
    lemma_digits_are_ascii(four_digits(m % 10000));
    if m < 10000 {
        lemma_four_digits_digits(m);
        lemma_digits_are_ascii(four_digits(m));
    } else if m < 100000 {
        lemma_ascii_concat(seq![(48 + m / 10000) as u8], four_digits(m % 10000));
    } else {
        lemma_ascii_concat(
            seq![(48 + m / 100000) as u8, (48 + (m / 10000) % 10) as u8],
            four_digits(m % 10000),
        );
    }
}

/// Appends the magnitude of a year, at least four digits.
fn push_year_mag(m: u32, out: &mut Vec<u8>)
    requires
        m < 1_000_000,
    ensures
        final(out)@ == old(out)@ + year_digits_mag(m as int),
{
    if m < 10000 {
        push_four_digits(m, out);
    } else if m < 100000 {
        out.push(48 + (m / 10000) as u8);
        push_four_digits(m % 10000, out);
        assert(out@ =~= old(out)@ + year_digits_mag(m as int));
    } else {
        out.push(48 + (m / 100000) as u8);
        out.push(48 + ((m / 10000) % 10) as u8);
        push_four_digits(m % 10000, out);
        assert(out@ =~= old(out)@ + year_digits_mag(m as int));
    }
}

/// Appends the year as chrono's `%Y` would format it.
fn push_year(y: i32, out: &mut Vec<u8>)
    requires
        -1_000_000 < y < 1_000_000,
    ensures
        final(out)@ == old(out)@ + year_repr(y as int),
{
    if y < 0 {
        out.push(45);
        push_year_mag((-y) as u32, out);
        assert(out@ =~= old(out)@ + year_repr(y as int));
    } else if y > 9999 {
        out.push(43);
        push_year_mag(y as u32, out);
        assert(out@ =~= old(out)@ + year_repr(y as int));
    } else {
        push_four_digits(y as u32, out);
    }
}

/// Renders a date-time as `YYYY-MM-DD HH:MM:SS.mmm`.
pub fn format_civil(c: &CivilDateTime, millis: u32) -> (r: String)
    requires
        c.wf(),
        millis < 1000,
    ensures
        r@ == ascii_chars(render_civil(*c, millis as int)),
{
    let mut buf: Vec<u8> = Vec::new();
    push_year(c.year, &mut buf);
    buf.push(45);
    push_two_digits(c.month, &mut buf);
    buf.push(45);
    push_two_digits(c.day, &mut buf);
    buf.push(32);
    push_two_digits(c.hour, &mut buf);
    buf.push(58);
    push_two_digits(c.minute, &mut buf);
    buf.push(58);
    push_two_digits(c.second, &mut buf);
    buf.push(46);
    push_three_digits(millis, &mut buf);
    proof {
        assert(buf@ =~= render_civil(*c, millis as int));
        lemma_render_civil_ascii(*c, millis as int);
    }
    ascii_to_string(buf)
}

} // verus!
