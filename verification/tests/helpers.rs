use azure_gateway::helpers::{
    parse_u64_opt, stddev_from_stats, unix_secs_from_systemtime_value, Spread,
};
use serde_json::Value;

fn object(fields: Vec<(&str, Value)>) -> Value {
    let mut map = serde_json::Map::new();
    for (key, value) in fields {
        map.insert(key.to_string(), value);
    }
    Value::Object(map)
}

/// The standard deviation of stored statistics.
fn stddev(stats: &Value) -> Option<f64> {
    match stddev_from_stats(stats)? {
        Spread::Zero => Some(0.0),
        Spread::RootOf { m2, divisor } => Some((f64::from_bits(m2.bits) / divisor as f64).sqrt()),
    }
}

#[test]
fn parse_u64_opt_parses_digits() {
    assert_eq!(parse_u64_opt(Some("42".into())), Some(42));
    assert_eq!(parse_u64_opt(Some("x".into())), None);
    assert_eq!(parse_u64_opt(None), None);
}

#[test]
fn unix_secs_from_systemtime_value_reads_field() {
    let v = object(vec![("secs_since_epoch", Value::from(1_700_000_000u64))]);
    assert_eq!(unix_secs_from_systemtime_value(&v), Some(1_700_000_000));
    assert_eq!(unix_secs_from_systemtime_value(&object(vec![])), None);
}

#[test]
fn stddev_sample_at_most_one_count_returns_zero_or_none() {
    assert_eq!(
        stddev(&object(vec![("count", Value::from(1)), ("m2", Value::from(10.0))])),
        Some(0.0)
    );
    assert_eq!(
        stddev(&object(vec![("count", Value::from(0)), ("m2", Value::from(1.0))])),
        Some(0.0)
    );
    assert_eq!(stddev(&object(vec![("m2", Value::from(1.0))])), None);
}

#[test]
fn stddev_sample_two_observations() {
    let stats = object(vec![("count", Value::from(2u64)), ("m2", Value::from(1.0))]);
    let s = stddev(&stats).unwrap();
    assert!((s - 1.0).abs() < 1e-9);
}

#[test]
fn numbers_are_read_as_the_standard_library_reads_them() {
    for s in [
        "", "+", "-", "0", "00", "007", "+5", "++5", "-1", " 1", "1 ", "1_0", "0x1", "1e3",
        "18446744073709551615", "18446744073709551616", "+18446744073709551615",
        "018446744073709551615", "99999999999999999999999", "\u{0661}", "12a", "a12", "4294967296",
    ] {
        assert_eq!(parse_u64_opt(Some(s.to_string())), s.parse::<u64>().ok(), "{s}");
    }
}

#[test]
fn seconds_must_be_natural_numbers() {
    for value in [
        Value::from(-1),
        Value::from(1.5),
        Value::from("7"),
        Value::Null,
        Value::Bool(true),
        Value::Array(vec![]),
    ] {
        assert_eq!(unix_secs_from_systemtime_value(&object(vec![("secs_since_epoch", value)])), None);
    }
    assert_eq!(unix_secs_from_systemtime_value(&Value::from(3)), None);
    assert_eq!(
        unix_secs_from_systemtime_value(&object(vec![("secs_since_epoch", Value::from(u64::MAX))])),
        Some(u64::MAX)
    );
}

#[test]
fn spread_takes_the_sum_of_squares_and_one_less_than_the_count() {
    let stats = object(vec![("count", Value::from(5)), ("m2", Value::from(16.0))]);
    match stddev_from_stats(&stats) {
        Some(Spread::RootOf { m2, divisor }) => {
            assert_eq!(f64::from_bits(m2.bits), 16.0);
            assert_eq!(divisor, 4);
        }
        other => panic!("{other:?}"),
    }
    assert_eq!(stddev(&stats), Some(2.0));
    let whole = object(vec![("count", Value::from(3)), ("m2", Value::from(8))]);
    assert_eq!(stddev(&whole), Some(2.0));
}

#[test]
fn spread_is_missing_where_a_figure_is() {
    assert_eq!(stddev_from_stats(&object(vec![("count", Value::from(2))])), None);
    assert_eq!(
        stddev_from_stats(&object(vec![("count", Value::from(2)), ("m2", Value::Null)])),
        None
    );
    assert_eq!(
        stddev_from_stats(&object(vec![("count", Value::from(1.0)), ("m2", Value::from(1.0))])),
        None
    );
    assert_eq!(
        stddev_from_stats(&object(vec![("count", Value::from(1))])),
        Some(Spread::Zero)
    );
}

#[test]
fn whole_numbers_become_the_nearest_doubles() {
    for n in [
        1u64,
        2,
        3,
        10,
        1023,
        (1 << 52) - 1,
        1 << 52,
        (1 << 53) - 1,
        1 << 53,
        (1 << 53) + 1,
        (1 << 53) + 2,
        (1 << 53) + 3,
        (1 << 54) + 2,
        (1 << 54) + 6,
        (1 << 60) + 129,
        123_456_789_012_345_678,
        u64::MAX >> 1,
        u64::MAX - 1024,
        u64::MAX - 1023,
        u64::MAX,
    ] {
        let stats = object(vec![("count", Value::from(3)), ("m2", Value::from(n))]);
        match stddev_from_stats(&stats) {
            Some(Spread::RootOf { m2, divisor }) => {
                assert_eq!(m2.bits, (n as f64).to_bits(), "{n}");
                assert_eq!(divisor, 2);
            }
            other => panic!("{other:?}"),
        }
    }
}
