use oxidedisk::timefmt::{format_time, format_time_at};

#[test]
fn unknown_time_is_a_dash() {
    assert_eq!(format_time(None), "—");
}

#[test]
fn known_time_is_date_and_minutes() {
    let s = format_time(Some(1_700_000_000_000_000_000));
    assert_eq!(s.len(), 16);
    assert_eq!(&s[4..5], "-");
    assert_eq!(&s[7..8], "-");
    assert_eq!(&s[10..11], " ");
    assert_eq!(&s[13..14], ":");
    assert!(s.starts_with("2023-11-1"));
}

#[test]
fn time_at_a_fixed_offset() {
    assert_eq!(format_time_at(Some(0), 0), "1970-01-01 00:00");
    assert_eq!(format_time_at(Some(0), 3600), "1970-01-01 01:00");
    assert_eq!(format_time_at(Some(0), -3600), "1969-12-31 23:00");
    assert_eq!(format_time_at(Some(90_061_000_000_000), 0), "1970-01-02 01:01");
    assert_eq!(format_time_at(Some(u64::MAX as i128), 0), "2554-07-21 23:34");
    assert_eq!(format_time_at(Some(-1), 0), "1969-12-31 23:59");
    assert_eq!(format_time_at(Some(-11_644_473_600_000_000_000), 0), "1601-01-01 00:00");
    assert_eq!(format_time_at(None, 0), "—");
}
