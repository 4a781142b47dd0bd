//! Reading `h:mm:ss` clock durations, as they appear after the clock marker
//! in game-record comments.

use vstd::prelude::*;

use crate::bytes::{dec_value, lemma_dec_value_digits, parse_u31, split_bytes, split_on};
use crate::errors::CorruptValue;

verus! {

/// Total seconds denoted by a byte sequence of the form `h:mm:ss`: the text
/// is split on `:`, the first three fields are read as unsigned decimal
/// numbers and later fields are ignored. `None` when there are fewer than
/// three fields, a field is empty or not all digits, a field exceeds
/// `i32::MAX`, or the total does (such a value is corrupt telemetry).
pub open spec fn duration_seconds(s: Seq<u8>) -> Option<int> {
    let fields = split_on(s, 58);
    if fields.len() < 3 {
        None
    } else {
        match (dec_value(fields[0]), dec_value(fields[1]), dec_value(fields[2])) {
            (Some(h), Some(m), Some(sec)) => if h <= i32::MAX && m <= i32::MAX && sec <= i32::MAX
                && h * 3600 + m * 60 + sec <= i32::MAX {
                Some(h * 3600 + m * 60 + sec)
            } else {
                None
            },
            _ => None,
        }
    }
}

/// Reads a clock duration out of a byte slice; a duration is never
/// negative.
pub fn parse_clock(s: &[u8]) -> (r: Option<i32>)
    ensures
        r is Some ==> duration_seconds(s@) == Some(r->Some_0 as int) && r->Some_0 >= 0,
        r is None ==> duration_seconds(s@) is None,
{
    let fields = split_bytes(s, 58);
    let ghost spec_fields = split_on(s@, 58);
    if fields.len() < 3 {
        return None;
    }
    proof {
        assert(fields.deep_view()[0] == fields@[0]@);
        assert(fields.deep_view()[1] == fields@[1]@);
        assert(fields.deep_view()[2] == fields@[2]@);
        lemma_dec_value_digits(spec_fields[0]);
        lemma_dec_value_digits(spec_fields[1]);
        lemma_dec_value_digits(spec_fields[2]);
    }
    let hours = match parse_u31(fields[0].as_slice()) {
        Some(v) => v,
        None => {
            return None;
        },
    };
    let minutes = match parse_u31(fields[1].as_slice()) {
        Some(v) => v,
        None => {
            return None;
        },
    };
    let seconds = match parse_u31(fields[2].as_slice()) {
        Some(v) => v,
        None => {
            return None;
        },
    };
    let total: i64 = (hours as i64) * 3600 + (minutes as i64) * 60 + (seconds as i64);
    if total > 2147483647 {
        None
    } else {
        Some(total as i32)
    }
}

/// Converts an `h:mm:ss` clock annotation into a whole number of seconds,
/// as the comment scanner does; a value that cannot be read that way is
/// corrupt and reported as such.
pub fn convert_time(time: &str) -> (r: Result<i32, CorruptValue>)
    ensures
        r is Ok ==> duration_seconds(vstd::utf8::encode_utf8(time@)) == Some(r->Ok_0 as int)
            && r->Ok_0 >= 0,
        r is Err ==> duration_seconds(vstd::utf8::encode_utf8(time@)) is None && r->Err_0
            == CorruptValue::ClockTime,
{
    match parse_clock(time.as_bytes()) {
        Some(v) => Ok(v),
        None => Err(CorruptValue::ClockTime),
    }
}

} // verus!
