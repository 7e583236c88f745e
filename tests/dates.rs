use commitmux::dates::{format_iso_date, format_timestamp};

#[test]
fn test_format_iso_date_epoch() {
    assert_eq!(format_iso_date(0), "1970-01-01T00:00:00Z");
}

#[test]
fn test_format_iso_date_known_timestamp() {
    assert_eq!(format_iso_date(946684800), "2000-01-01T00:00:00Z");
}

#[test]
fn iso_date_other_instants() {
    assert_eq!(format_iso_date(1705318496), "2024-01-15T11:34:56Z");
    assert_eq!(format_iso_date(951782400), "2000-02-29T00:00:00Z");
    assert_eq!(format_iso_date(1709251199), "2024-02-29T23:59:59Z");
    assert_eq!(format_iso_date(-5), "1970-01-01T00:00:00Z");
    assert_eq!(format_iso_date(253402300799), "9999-12-31T23:59:59Z");
    assert_eq!(format_iso_date(253402300800), "10000-01-01T00:00:00Z");
}

#[test]
fn test_format_timestamp_includes_utc() {
    let ts = 1705318496i64;
    let result = format_timestamp(ts);
    assert!(
        result.ends_with(" UTC"),
        "format_timestamp should end with ' UTC', got: {}",
        result
    );
    assert!(result.len() > 4, "timestamp should be more than just ' UTC'");
}

#[test]
fn timestamp_exact_text() {
    assert_eq!(format_timestamp(1705318496), "2024-01-15 11:34:56 UTC");
    assert_eq!(format_timestamp(0), "never");
    assert_eq!(format_timestamp(-1), "never");
}
