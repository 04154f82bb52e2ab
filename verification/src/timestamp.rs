//! The timestamp model: a count of seconds and nanoseconds relative to an
//! epoch, and the fixed-offset conversions between the Unix and Apple epochs.

use vstd::prelude::*;

verus! {

/// Seconds between the Unix epoch (1970-01-01 00:00:00 UTC) and the Apple
/// epoch (2001-01-01 00:00:00 UTC).
pub const APPLE_UNIX_OFFSET: i64 = 978_307_200;

/// The errors an operation can report: input that is not a number or not a
/// date-time in the expected format, and a numerically valid timestamp or
/// date-time that does not map to a representable instant.
#[derive(Clone, Copy, Debug, PartialEq, Eq, Structural)]
pub enum ConvError {
    ParseError,
    InvalidTimestamp,
}

/// An instant relative to an epoch: `secs` whole seconds plus `nanos`
/// nanoseconds. The represented value is `secs + nanos / 1e9` seconds, so a
/// negative instant with a fractional part carries a `secs` one below its
/// integer part (for example, -1.5 seconds is `secs == -2, nanos == 5e8`).
#[derive(Clone, Copy, Debug, PartialEq, Eq, Structural)]
pub struct Timestamp {
    pub secs: i64,
    pub nanos: u32,
}

impl Timestamp {
    /// Well-formed: the nanosecond part stays below one whole second.
    pub open spec fn wf(self) -> bool {
        self.nanos < 1_000_000_000
    }

    /// The represented value, as a whole number of nanoseconds.
    pub open spec fn value_nanos(self) -> int {
        self.secs * 1_000_000_000 + self.nanos
    }
}

/// A Unix timestamp, shifted to count from the Apple epoch.
pub open spec fn spec_unix_to_apple(secs: int) -> int {
    secs - APPLE_UNIX_OFFSET
}

/// An Apple timestamp, shifted to count from the Unix epoch.
pub open spec fn spec_apple_to_unix(secs: int) -> int {
    secs + APPLE_UNIX_OFFSET
}

/// Shifts a Unix timestamp to the Apple epoch. Fails only when the result
/// falls below the representable range of seconds.
pub fn unix_to_apple(t: &Timestamp) -> (r: Result<Timestamp, ConvError>)
    ensures
        r matches Ok(a) <==> spec_unix_to_apple(t.secs as int) >= i64::MIN,
        r matches Ok(a) ==> a.secs == spec_unix_to_apple(t.secs as int) && a.nanos == t.nanos,
        r matches Err(e) ==> e == ConvError::InvalidTimestamp,
{
    match t.secs.checked_sub(APPLE_UNIX_OFFSET) {
        Some(secs) => Ok(Timestamp { secs, nanos: t.nanos }),
        None => Err(ConvError::InvalidTimestamp),
    }
}

/// Shifts an Apple timestamp to the Unix epoch. Fails only when the result
/// rises above the representable range of seconds.
pub fn apple_to_unix(t: &Timestamp) -> (r: Result<Timestamp, ConvError>)
    ensures
        r matches Ok(u) <==> spec_apple_to_unix(t.secs as int) <= i64::MAX,
        r matches Ok(u) ==> u.secs == spec_apple_to_unix(t.secs as int) && u.nanos == t.nanos,
        r matches Err(e) ==> e == ConvError::InvalidTimestamp,
{
    match t.secs.checked_add(APPLE_UNIX_OFFSET) {
        Some(secs) => Ok(Timestamp { secs, nanos: t.nanos }),
        None => Err(ConvError::InvalidTimestamp),
    }
}

/// Round-trip law: shifting a timestamp from the Unix epoch to the Apple
/// epoch and back returns the original value exactly, and likewise in the
/// other direction; in particular the Apple epoch itself maps to the Unix
/// timestamp of 2001-01-01 00:00:00 UTC and back to zero.
pub proof fn lemma_unix_apple_round_trip(secs: int)
    ensures
        spec_apple_to_unix(spec_unix_to_apple(secs)) == secs,
        spec_unix_to_apple(spec_apple_to_unix(secs)) == secs,
        spec_apple_to_unix(0) == 978_307_200,
        spec_unix_to_apple(978_307_200) == 0,
{
}

/// Round-trip law at the level of the executable conversions: whenever
/// `unix_to_apple` accepts a timestamp, `apple_to_unix` accepts its result
/// and restores the original, nanoseconds included.
pub proof fn lemma_exec_round_trip(t: Timestamp, a: Timestamp)
    requires
        a.secs == spec_unix_to_apple(t.secs as int),
        a.nanos == t.nanos,
    ensures
        spec_apple_to_unix(a.secs as int) == t.secs,
        spec_apple_to_unix(a.secs as int) <= i64::MAX,
{
}

} // verus!
