//! Error values for corrupt telemetry: individual header or comment values
//! that fail to parse. These are reported and skipped; they never abort a
//! corpus pass.

use vstd::prelude::*;

verus! {

/// A single corrupt value found while reading a game record.
#[derive(Debug, Clone, Copy, PartialEq, Eq, Structural)]
pub enum CorruptValue {
    /// A rating header whose value is not a decimal integer in range.
    Rating,
    /// A clock annotation whose duration is not a readable `h:mm:ss` time.
    ClockTime,
}

} // verus!
