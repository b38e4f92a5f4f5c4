use inqjet::calendar::civil_from_days;
use inqjet::clock::{snap_timestamp, timestamp_at, timestamp_from_nanos};
use inqjet::format::{
    format_record, format_timestamp, level_color, level_str, write_log_prefix,
};
use inqjet::record::write_standard_payload;
use inqjet::text::{push_decimal, push_digits};
use std::time::{Duration, UNIX_EPOCH};

fn timestamp(nanos: u64) -> String {
    let mut buf = Vec::new();
    format_timestamp(nanos, &mut buf);
    String::from_utf8(buf).unwrap()
}

#[test]
fn timestamp_snap_is_reasonable() {
    let ts = snap_timestamp().unwrap();
    // After 2024-01-01
    assert!(ts > 1_704_067_200_000_000_000);
    // Before 2100-01-01
    assert!(ts < 4_102_444_800_000_000_000);
}

#[test]
fn timestamp_format_known_value() {
    // 1705329045 = 19737 days * 86400 + 52245 secs (14:30:45)
    let nanos: u64 = 1_705_329_045_123_456_789;
    let mut buf = Vec::new();
    format_timestamp(nanos, &mut buf);
    let s = String::from_utf8(buf).unwrap();
    assert_eq!(s, "2024-01-15T14:30:45.123456789Z");
}

#[test]
fn timestamp_format_epoch() {
    let mut buf = Vec::new();
    format_timestamp(0, &mut buf);
    let s = String::from_utf8(buf).unwrap();
    assert_eq!(s, "1970-01-01T00:00:00.000000000Z");
}

#[test]
fn standard_format_no_color() {
    let ts: u64 = 1_705_329_045_123_456_789;
    let mut payload = [0u8; 64];
    let n = write_standard_payload(&mut payload, 42, "my_app", "hello world");

    let mut out = Vec::new();
    format_record(ts, 3, &payload[..n], &mut out, false);

    let s = String::from_utf8(out).unwrap();
    assert_eq!(
        s,
        "2024-01-15T14:30:45.123456789Z [INFO] my_app:42 hello world\n"
    );
}

#[test]
fn standard_format_no_line() {
    let ts: u64 = 1_705_329_045_123_456_789;
    let mut payload = [0u8; 64];
    let n = write_standard_payload(&mut payload, 0, "app", "msg");

    let mut out = Vec::new();
    format_record(ts, 1, &payload[..n], &mut out, false);

    let s = String::from_utf8(out).unwrap();
    assert_eq!(s, "2024-01-15T14:30:45.123456789Z [ERROR] app msg\n");
}

#[test]
fn standard_format_with_color() {
    let ts: u64 = 1_705_329_045_123_456_789;
    let mut payload = [0u8; 64];
    let n = write_standard_payload(&mut payload, 10, "srv", "ok");

    let mut out = Vec::new();
    format_record(ts, 3, &payload[..n], &mut out, true);

    let s = String::from_utf8(out).unwrap();
    // Should contain ANSI codes
    assert!(s.contains("\x1b["));
    // Should still contain the content
    assert!(s.contains("[INFO]"));
    assert!(s.contains("srv:10"));
    assert!(s.contains("ok\n"));
}

#[test]
fn civil_from_days_epoch() {
    assert_eq!(civil_from_days(0), (1970, 1, 1));
}

#[test]
fn civil_from_days_known_date() {
    // 2024-01-15 = 19737 days since epoch
    assert_eq!(civil_from_days(19737), (2024, 1, 15));
}

#[test]
fn civil_from_days_leap_year() {
    // 2024-02-29 = 19782 days since epoch
    assert_eq!(civil_from_days(19782), (2024, 2, 29));
}

#[test]
fn civil_from_days_around_the_epoch() {
    assert_eq!(civil_from_days(-1), (1969, 12, 31));
    assert_eq!(civil_from_days(-719468), (0, 3, 1));
    assert_eq!(civil_from_days(-719469), (0, 2, 29));
    assert_eq!(civil_from_days(11016), (2000, 2, 29));
    assert_eq!(civil_from_days(47540), (2100, 2, 28));
    assert_eq!(civil_from_days(47541), (2100, 3, 1));
}

#[test]
fn timestamps_of_neighbours_differ() {
    assert_eq!(timestamp(999_999_999), "1970-01-01T00:00:00.999999999Z");
    assert_eq!(timestamp(1_000_000_000), "1970-01-01T00:00:01.000000000Z");
    assert_eq!(timestamp(u64::MAX), "2554-07-21T23:34:33.709551615Z");
    assert_eq!(timestamp(u64::MAX).len(), 30);
}

#[test]
fn colored_line_exact() {
    let mut payload = [0u8; 64];
    let n = write_standard_payload(&mut payload, 7, "net", "down");
    let mut out = Vec::new();
    format_record(0, 2, &payload[..n], &mut out, true);
    assert_eq!(
        String::from_utf8(out).unwrap(),
        "\x1b[90m1970-01-01T00:00:00.000000000Z\x1b[0m \x1b[33m[WARN]\x1b[0m \x1b[90mnet:7\x1b[0m down\n"
    );
}

#[test]
fn prefix_appends_to_output() {
    let mut out = b">".to_vec();
    write_log_prefix(0, 9, "t", 0, &mut out, false);
    assert_eq!(
        String::from_utf8(out).unwrap(),
        ">1970-01-01T00:00:00.000000000Z [?????] t "
    );
}

#[test]
fn levels_have_names_and_colors() {
    let names = ["?????", "ERROR", "WARN", "INFO", "DEBUG", "TRACE", "?????"];
    let colors: [&[u8]; 7] = [
        b"\x1b[90m",
        b"\x1b[31m",
        b"\x1b[33m",
        b"\x1b[32m",
        b"\x1b[36m",
        b"\x1b[90m",
        b"\x1b[90m",
    ];
    for level in 0..7u8 {
        assert_eq!(level_str(level), names[level as usize]);
        assert_eq!(level_color(level), colors[level as usize]);
    }
}

#[test]
fn clock_readings_become_timestamps() {
    assert_eq!(timestamp_from_nanos(1_705_329_045_123_456_789), 1_705_329_045_123_456_789);
    assert_eq!(timestamp_from_nanos(u64::MAX as u128 + 3), 2);
    assert_eq!(timestamp_at(UNIX_EPOCH), Some(0));
    assert_eq!(timestamp_at(UNIX_EPOCH - Duration::from_secs(1)), None);
    assert_eq!(
        timestamp_at(UNIX_EPOCH + Duration::new(3, 7)),
        Some(3_000_000_007)
    );
}

#[test]
fn numbers_as_text() {
    let mut out = Vec::new();
    push_digits(&mut out, 7, 3);
    push_digits(&mut out, 12345, 2);
    push_decimal(&mut out, 0);
    push_decimal(&mut out, 1_000_000);
    assert_eq!(out, b"0074501000000");
}
