use chess_ttm::clock::convert_time;
use chess_ttm::errors::CorruptValue;

#[test]
fn conversion() {
    assert_eq!(convert_time("0:0:0").unwrap(), 0);
    assert_eq!(convert_time("00:00:00").unwrap(), 0);
    assert_eq!(convert_time("0:0:1").unwrap(), 1);
    assert_eq!(convert_time("0:1:01").unwrap(), 61);
    assert_eq!(convert_time("00:01:01").unwrap(), 61);
    assert_eq!(convert_time("01:01:01").unwrap(), 3661);
}

#[test]
fn conversion_ignores_fields_past_the_third() {
    assert_eq!(convert_time("1:2:3:4").unwrap(), 3723);
}

#[test]
fn conversion_rejects_malformed_durations() {
    assert_eq!(convert_time(""), Err(CorruptValue::ClockTime));
    assert_eq!(convert_time("1:2"), Err(CorruptValue::ClockTime));
    assert_eq!(convert_time("::"), Err(CorruptValue::ClockTime));
    assert_eq!(convert_time("a:b:c"), Err(CorruptValue::ClockTime));
    assert_eq!(convert_time("1:-2:3"), Err(CorruptValue::ClockTime));
    assert_eq!(convert_time("0:0:99999999999"), Err(CorruptValue::ClockTime));
}

#[test]
fn conversion_rejects_overflowing_totals() {
    // every field parses, but the total does not fit a 32-bit number
    assert_eq!(convert_time("1000000:0:0"), Err(CorruptValue::ClockTime));
    assert_eq!(convert_time("596523:0:0").unwrap(), 2147482800);
}
