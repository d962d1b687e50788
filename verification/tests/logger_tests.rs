use duallink::logger::{format_datetime, format_timestamp, log_file_name, log_line, startup_banner};
use duallink::instance::parse_lock_pid;
use duallink::clock::unix_now_secs;

#[test]
fn clock_stamps() {
    assert_eq!(format_datetime(0), "00:00:00");
    assert_eq!(format_datetime(3661), "01:01:01");
    assert_eq!(format_datetime(86399), "23:59:59");
    assert_eq!(format_datetime(90061), "01:01:01");
    for secs in [0u64, 5, 12345, 99999, u64::MAX] {
        let s = format_datetime(secs);
        assert_eq!(s.len(), 8);
        assert_eq!(&s[2..3], ":");
        assert_eq!(&s[5..6], ":");
    }
}

#[test]
fn date_stamps() {
    assert_eq!(format_timestamp(0), "1970-01-01");
    assert_eq!(format_timestamp(400 * 86400), "1971-02-05");
    assert_eq!(format_timestamp(364 * 86400), "1970-12-31");
    assert_eq!(format_timestamp(29 * 86400), "1970-01-30");
    assert_eq!(format_timestamp(1704067200), "2024-01-01");
    assert_eq!(format_timestamp(1704067200 + 86399), "2024-01-01");
    assert_eq!(format_timestamp(1709164800), "2024-02-29");
    assert_eq!(format_timestamp(951782400), "2000-02-29");
    assert_eq!(format_timestamp(4107456000), "2100-02-28");
    assert_eq!(format_timestamp(4107542400), "2100-03-01");
    assert_eq!(format_timestamp(253402300799), "9999-12-31");
    assert_eq!(format_timestamp(253402300800), "10000-01-01");
}

#[test]
fn consecutive_days_have_their_own_files() {
    assert_eq!(log_file_name(27 * 86400), "1970-01-28.log");
    assert_eq!(log_file_name(28 * 86400), "1970-01-29.log");
    let mut previous = format_timestamp(0);
    for day in 1..3000u64 {
        let name = format_timestamp(day * 86400);
        assert!(name > previous, "day {}", day);
        previous = name;
    }
    let last = format_timestamp(u64::MAX);
    assert!(last.len() >= 10);
}

#[test]
fn log_texts() {
    assert_eq!(log_line(3661, "hello"), "[01:01:01] hello\n");
    assert_eq!(log_file_name(0), "1970-01-01.log");
    assert_eq!(startup_banner(0), "\n=== DualLink started at 00:00:00 ===\n");
}

#[test]
fn lock_pid_parsing() {
    assert_eq!(parse_lock_pid("1234\n"), Some(1234));
    assert_eq!(parse_lock_pid("  +42 \r\n"), Some(42));
    assert_eq!(parse_lock_pid("4294967295"), Some(4294967295));
    assert_eq!(parse_lock_pid("4294967296"), None);
    assert_eq!(parse_lock_pid("-1"), None);
    assert_eq!(parse_lock_pid("+"), None);
    assert_eq!(parse_lock_pid(""), None);
    assert_eq!(parse_lock_pid("12a"), None);
    assert_eq!(parse_lock_pid("\u{3000}7\u{a0}"), Some(7));
}

#[test]
fn clock_reads_a_plausible_time() {
    assert!(unix_now_secs() > 1_600_000_000);
}
