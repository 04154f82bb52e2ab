//! Conversions between Unix timestamps, Apple (Cocoa) timestamps, and civil
//! calendar date-times, with exact integer second/nanosecond arithmetic.

pub mod civil;
pub mod digits;
pub mod clock;
pub mod numeric;
pub mod ops;
pub mod timestamp;
