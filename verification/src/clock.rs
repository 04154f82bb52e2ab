//! The calendar and the host timezone, through chrono: the declarations the
//! library trusts, with names for the results that are functions of their
//! arguments alone.

use vstd::prelude::*;

use crate::civil::CivilDateTime;
use crate::civil::valid_ymd;

verus! {

/// The civil (proleptic Gregorian) date and time in UTC of a Unix timestamp,
/// as `(year, month, day, hour, minute, second)`.
pub uninterp spec fn utc_civil_of(secs: int) -> (int, int, int, int, int, int);

/// The Unix timestamp of a civil date and time read as UTC.
pub uninterp spec fn unix_of_utc_civil(y: int, mo: int, d: int, h: int, mi: int, s: int) -> int;

/// Relies on chrono's `DateTime::<Utc>::from_timestamp` and its `Datelike` and
/// `Timelike` accessors: the UTC civil fields of a Unix timestamp. It returns
/// `Some` exactly for the instants from `NaiveDate::MIN` at midnight to
/// `NaiveDate::MAX` at the last second of the day; the two constants below are
/// the Unix timestamps of those bounds, from chrono's year range -262143..=262142
/// and its day arithmetic. The fields of a returned date-time are a real
/// calendar date in that year range and a time of day.
#[verifier::external_body]
pub(crate) fn utc_civil_from_unix(secs: i64) -> (r: Option<CivilDateTime>)
    ensures
        r.is_some() <==> -8_334_601_228_800 <= secs <= 8_210_266_876_799,
        r matches Some(c) ==> {
            &&& (
                c.year as int,
                c.month as int,
                c.day as int,
                c.hour as int,
                c.minute as int,
                c.second as int,
            ) == utc_civil_of(secs as int)
            &&& c.wf()
        },
{
    match chrono::DateTime::<chrono::Utc>::from_timestamp(secs, 0) {
        None => None,
        Some(dt) => Some(
            CivilDateTime {
                year: chrono::Datelike::year(&dt),
                month: chrono::Datelike::month(&dt),
                day: chrono::Datelike::day(&dt),
                hour: chrono::Timelike::hour(&dt),
                minute: chrono::Timelike::minute(&dt),
                second: chrono::Timelike::second(&dt),
            },
        ),
    }
}

/// Relies on chrono's `NaiveDate::from_ymd_opt`, `NaiveDate::and_hms_opt` and
/// `DateTime::timestamp`: the Unix timestamp of a civil date and time read as
/// UTC. `from_ymd_opt` accepts exactly the real calendar dates of the years
/// -262143..=262142, `and_hms_opt` exactly the times of day, and the
/// timestamp of an accepted date-time stays within nine trillion seconds of
/// the epoch (at most 96.5 million days of 86400 seconds from it).
#[verifier::external_body]
pub(crate) fn unix_from_utc_civil(y: i32, mo: u32, d: u32, h: u32, mi: u32, s: u32) -> (r: Option<
    i64,
>)
    ensures
        r.is_some() <==> {
            &&& -262_143 <= y <= 262_142
            &&& valid_ymd(y as int, mo as int, d as int)
            &&& h < 24
            &&& mi < 60
            &&& s < 60
        },
        r matches Some(t) ==> {
            &&& t == unix_of_utc_civil(
                y as int,
                mo as int,
                d as int,
                h as int,
                mi as int,
                s as int,
            )
            &&& -9_000_000_000_000 <= t <= 9_000_000_000_000
        },
{
    let date = match chrono::NaiveDate::from_ymd_opt(y, mo, d) {
        Some(x) => x,
        None => return None,
    };
    let time = match date.and_hms_opt(h, mi, s) {
        Some(x) => x,
        None => return None,
    };
    Some(time.and_utc().timestamp())
}

/// Relies on chrono's `TimeZone::timestamp_opt` on `Local`: the host
/// timezone's offset from UTC at a Unix instant. An offset of a resolved
/// time lies strictly between -86400 and 86400 seconds (`FixedOffset`'s
/// invariant). The offset depends on the host's timezone database, so nothing
/// else is assumed of it.
#[verifier::external_body]
pub(crate) fn local_offset_at_unix(secs: i64) -> (r: Option<i32>)
    ensures
        r matches Some(off) ==> -86_400 < off < 86_400,
{
    match chrono::TimeZone::timestamp_opt(&chrono::Local, secs, 0) {
        chrono::LocalResult::Single(dt) => Some(dt.offset().local_minus_utc()),
        _ => None,
    }
}

/// Relies on chrono's `TimeZone::offset_from_local_datetime` on `Local`: the
/// host timezone's offset from UTC for a naive local civil time, `None` both
/// when the civil time does not exist in the host zone and when it is
/// ambiguous, and for fields no `NaiveDateTime` holds. An offset lies
/// strictly between -86400 and 86400 seconds. The offset depends on the
/// host's timezone database, so nothing else is assumed of it.
#[verifier::external_body]
pub(crate) fn local_offset_for_civil(y: i32, mo: u32, d: u32, h: u32, mi: u32, s: u32) -> (r:
    Option<i32>)
    ensures
        r matches Some(off) ==> -86_400 < off < 86_400,
{
    let date = match chrono::NaiveDate::from_ymd_opt(y, mo, d) {
        Some(x) => x,
        None => return None,
    };
    let time = match date.and_hms_opt(h, mi, s) {
        Some(x) => x,
        None => return None,
    };
    match chrono::TimeZone::offset_from_local_datetime(&chrono::Local, &time) {
        chrono::LocalResult::Single(off) => Some(off.local_minus_utc()),
        _ => None,
    }
}

} // verus!
