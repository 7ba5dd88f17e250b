use chrono::NaiveDateTime;
use lumolog::instant::Instant;
use lumolog::timeindex::parse_timestamp;

fn naive(t: Instant) -> NaiveDateTime {
    chrono::DateTime::from_timestamp(t.secs, t.nanos)
        .unwrap()
        .naive_utc()
}

#[test]
fn test_parse_rfc3339_z() {
    let dt = naive(parse_timestamp("2024-01-15T08:30:01Z").unwrap());
    assert_eq!(dt.to_string(), "2024-01-15 08:30:01");
}

#[test]
fn test_parse_rfc3339_offset() {
    let dt = naive(parse_timestamp("2024-01-15T08:30:01+00:00").unwrap());
    assert_eq!(dt.to_string(), "2024-01-15 08:30:01");
}

#[test]
fn test_parse_rfc3339_frac() {
    let dt = naive(parse_timestamp("2024-01-15T08:30:01.123Z").unwrap());
    assert_eq!(
        dt.format("%Y-%m-%d %H:%M:%S%.3f").to_string(),
        "2024-01-15 08:30:01.123"
    );
}

#[test]
fn timeindex_test_parse_iso_no_offset() {
    let dt = naive(parse_timestamp("2024-01-15T08:30:01.123").unwrap());
    assert_eq!(
        dt.format("%Y-%m-%d %H:%M:%S%.3f").to_string(),
        "2024-01-15 08:30:01.123"
    );
}

#[test]
fn timeindex_test_parse_space_separated() {
    let dt = naive(parse_timestamp("2024-01-15 08:30:01").unwrap());
    assert_eq!(dt.to_string(), "2024-01-15 08:30:01");
}

#[test]
fn test_parse_python_comma() {
    let dt = naive(parse_timestamp("2024-01-15 08:30:01,123").unwrap());
    assert!(dt.to_string().starts_with("2024-01-15 08:30:01"));
}

#[test]
fn timeindex_test_parse_epoch_millis() {
    // 2024-01-15T08:30:00Z = 1705307400 * 1000 = 1705307400000
    let dt = naive(parse_timestamp("1705307400000").unwrap());
    assert_eq!(dt.format("%Y-%m-%d").to_string(), "2024-01-15");
}

#[test]
fn timeindex_test_parse_epoch_secs() {
    let dt = naive(parse_timestamp("1705307400").unwrap());
    assert_eq!(dt.format("%Y-%m-%d").to_string(), "2024-01-15");
}

#[test]
fn test_parse_empty_returns_none() {
    assert!(parse_timestamp("").is_none());
    assert!(parse_timestamp("   ").is_none());
}

#[test]
fn test_parse_garbage_returns_none() {
    assert!(parse_timestamp("not a timestamp").is_none());
}
