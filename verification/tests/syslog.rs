use chrono::{Datelike, TimeZone, Utc};
use uip::syslog::{parse_header, severity_of};

fn now() -> i64 {
    Utc.with_ymd_and_hms(2026, 9, 13, 12, 0, 0).unwrap().timestamp()
}

fn utc(ts: i64) -> chrono::DateTime<Utc> {
    chrono::DateTime::from_timestamp(ts, 0).unwrap()
}

#[test]
fn parses_plain_header() {
    let h = parse_header("Feb  8 16:43:49 UDR-UK kernel: hello", now()).unwrap();
    assert_eq!(h.host, "UDR-UK");
    assert_eq!(h.body, "kernel: hello");
    assert_eq!(utc(h.timestamp).month(), 2);
    assert_eq!(utc(h.timestamp).year(), 2026);
}

#[test]
fn strips_priority_prefix_but_keeps_the_value() {
    let h = parse_header("<13>Feb  8 16:43:49 UDR kernel: x", now()).unwrap();
    assert_eq!(h.host, "UDR");
    assert_eq!(h.priority, Some(13));
    assert_eq!(severity_of(13), 5);
    let h = parse_header("Feb  8 16:43:49 UDR kernel: x", now()).unwrap();
    assert_eq!(h.priority, None);
}

#[test]
fn year_rollover_december_log_in_january() {
    let jan = Utc.with_ymd_and_hms(2027, 1, 2, 0, 0, 0).unwrap().timestamp();
    let h = parse_header("Dec 31 23:59:58 UDR kernel: x", jan).unwrap();
    assert_eq!(utc(h.timestamp).year(), 2026);
}

#[test]
fn same_month_keeps_year() {
    let h = parse_header("Sep 13 11:59:00 UDR kernel: x", now()).unwrap();
    assert_eq!(utc(h.timestamp).year(), 2026);
}

#[test]
fn garbage_returns_none() {
    assert!(parse_header("not a syslog line", now()).is_none());
    assert!(parse_header("", now()).is_none());
}

#[test]
fn every_severity_is_the_low_three_bits() {
    assert_eq!(severity_of(0), 0);
    assert_eq!(severity_of(30), 6);
    assert_eq!(severity_of(11), 3);
    assert_eq!(severity_of(191), 7);
}
