use felix_kernel::time::{bcd, ctime, get_timestamp, leap_year, pit_divisor, rtc_to_unix_seconds, RtcDateTime};

#[test]
fn timestamp_splits_milliseconds() {
    let t = get_timestamp(12_345);
    assert_eq!(t.second, 12);
    assert_eq!(t.millisecond, 345);
}

#[test]
fn bcd_decodes_packed_digits() {
    assert_eq!(bcd(0x59), 59);
    assert_eq!(bcd(0x00), 0);
    assert_eq!(bcd(0x12), 12);
}

#[test]
fn leap_years_follow_gregorian_rule() {
    assert!(leap_year(2000));
    assert!(!leap_year(1900));
    assert!(leap_year(2024));
    assert!(!leap_year(2023));
}

#[test]
fn unix_seconds_of_known_dates() {
    let epoch = RtcDateTime { second: 0, minute: 0, hour: 0, day: 1, month: 1, year: 1970 };
    assert_eq!(rtc_to_unix_seconds(epoch), Some(0));
    let d = RtcDateTime { second: 56, minute: 34, hour: 12, day: 29, month: 2, year: 2024 };
    assert_eq!(rtc_to_unix_seconds(d), Some(1_709_210_096));
    let bad = RtcDateTime { second: 0, minute: 0, hour: 0, day: 30, month: 2, year: 2024 };
    assert_eq!(rtc_to_unix_seconds(bad), None);
    let old = RtcDateTime { second: 0, minute: 0, hour: 0, day: 1, month: 1, year: 1969 };
    assert_eq!(rtc_to_unix_seconds(old), None);
}

#[test]
fn ctime_of_epoch() {
    assert_eq!(ctime(0), b"Thu Jan  1 00:00:00 1970".to_vec());
}

#[test]
fn pit_divisor_is_clamped() {
    assert_eq!(pit_divisor(100), 11_931);
    assert_eq!(pit_divisor(1), 0xFFFF);
    assert_eq!(pit_divisor(2_000_000), 1);
}

#[test]
fn ctime_of_leap_day() {
    assert_eq!(ctime(68_169_600), b"Tue Feb 29 00:00:00 1972".to_vec());
    assert_eq!(ctime(68_256_000), b"Wed Mar  1 00:00:00 1972".to_vec());
}

#[test]
fn ctime_of_last_day_of_leap_year() {
    // 1972-12-31 23:59:59
    assert_eq!(ctime(94_694_399), b"Sun Dec 31 23:59:59 1972".to_vec());
}
