use uip::text::decimal_text;
use uip::enrich::{
    claimed_addresses, day_of, is_stale, next_utc_midnight, per_day_setting, threat_from, threat_from_body, wants_threat,
    AbuseData, AbuseIpDb, AbuseQuota, Gate, IpFacts, RateHeaders, RefreshBudget, ThreatOutcome,
};

#[test]
fn merge_fills_only_empty_fields() {
    let mut facts = IpFacts { geo_country: Some("DE".into()), ..Default::default() };
    facts.merge(IpFacts {
        geo_country: Some("US".into()),
        rdns: Some("host.example.com".into()),
        ..Default::default()
    });
    assert_eq!(facts.geo_country.as_deref(), Some("DE"));
    assert_eq!(facts.rdns.as_deref(), Some("host.example.com"));
}

#[test]
fn empty_facts_carry_nothing() {
    assert!(IpFacts::default().is_empty());
    assert!(!IpFacts { rdns: Some("x".into()), ..Default::default() }.is_empty());
}

#[test]
fn merging_with_nothing_changes_nothing() {
    let mut facts = IpFacts { asn_number: Some(64500), ..Default::default() };
    facts.merge(IpFacts::default());
    assert_eq!(facts.asn_number, Some(64500));
    let mut empty = IpFacts::default();
    empty.merge(IpFacts { asn_number: Some(64500), ..Default::default() });
    assert_eq!(empty.asn_number, Some(64500));
}

#[test]
fn a_refreshed_score_replaces_the_old_one() {
    let mut facts = IpFacts { threat_score: Some(10), geo_country: Some("DE".into()), ..Default::default() };
    facts.replace_threat(IpFacts { threat_score: Some(90), ..Default::default() });
    assert_eq!(facts.threat_score, Some(90));
    assert_eq!(facts.geo_country.as_deref(), Some("DE"));
}

#[test]
fn the_daily_budget_runs_out_and_returns_the_next_day() {
    let mut budget = RefreshBudget::default();
    budget.set_per_day(2);
    assert!(budget.take());
    assert!(budget.take());
    assert!(!budget.take(), "no more today");

    budget.day = 0;
    assert!(budget.take());

    budget.set_per_day(0);
    assert!(!budget.take());
}

#[test]
fn the_budget_counts_by_calendar_day() {
    let mut b = RefreshBudget { day: 0, used: 0, per_day: 1 };
    assert!(b.take_on(20_000));
    assert!(!b.take_on(20_000));
    assert!(b.take_on(20_001));
    assert_eq!(b.used, 1);
    assert_eq!(b.day, 20_001);
}

#[test]
fn days_and_midnights_fall_on_utc_boundaries() {
    assert_eq!(day_of(0), 0);
    assert_eq!(day_of(86_399), 0);
    assert_eq!(day_of(86_400), 1);
    assert_eq!(day_of(-1), -1);
    assert_eq!(next_utc_midnight(1_700_000_000), 1_700_006_400);
    assert_eq!(next_utc_midnight(86_400), 172_800);
}

#[test]
fn the_refresh_setting_falls_back_and_clamps() {
    assert_eq!(per_day_setting(None), 200);
    assert_eq!(per_day_setting(Some(5)), 5);
    assert_eq!(per_day_setting(Some(-3)), 200);
}

#[test]
fn only_blocked_firewall_rows_want_a_score() {
    // Firewall rows have type 1, a block action is 2.
    assert!(wants_threat(1, Some(2)));
    assert!(!wants_threat(1, Some(1)));
    assert!(!wants_threat(2, Some(2)));
    assert!(!wants_threat(1, None));
}

#[test]
fn a_score_grows_stale_only_when_it_exists() {
    assert!(is_stale(Some(10), Some(100), 200));
    assert!(!is_stale(Some(10), Some(300), 200));
    assert!(!is_stale(None, Some(100), 200));
    assert!(is_stale(Some(10), None, 200));
}

#[test]
fn without_a_key_the_source_is_simply_off() {
    let mut src = AbuseIpDb::new(String::new());
    assert!(!src.enabled());
    assert_eq!(src.quota.gate(src.enabled(), 0), Gate::Disabled);
    assert_eq!(src.quota.quota(false), None);
    let on = AbuseIpDb::with_url("k".to_string(), "http://127.0.0.1:1/check".to_string());
    assert!(on.enabled());
    assert_eq!(on.url, "http://127.0.0.1:1/check");
}

fn headers(remaining: Option<i64>, reset: Option<i64>, retry_after: Option<i64>) -> RateHeaders {
    RateHeaders { remaining, limit: Some(1000), reset, retry_after }
}

#[test]
fn a_429_pauses_all_further_lookups() {
    let now = 1_700_000_000;
    let mut q = AbuseQuota::new();
    let r = q.after_response(429, headers(None, None, Some(120)), now);
    assert!(matches!(r, Some(ThreatOutcome::QuotaExhausted)));
    assert_eq!(q.paused_until, now + 120);
    assert_eq!(q.gate(true, now + 60), Gate::Exhausted);
    // Once the pause has passed the source is asked again.
    assert_eq!(q.gate(true, now + 121), Gate::Ask);
}

#[test]
fn an_exhausted_quota_without_a_reset_header_waits_for_midnight() {
    let now = 1_700_000_000;
    let mut q = AbuseQuota::new();
    assert!(q.after_response(200, headers(Some(0), None, None), now).is_none());
    assert_eq!(q.reset_at, 1_700_006_400);
    assert_eq!(q.gate(true, now + 10), Gate::Exhausted);
    assert_eq!(q.gate(true, 1_700_006_400), Gate::Ask);
    assert_eq!(q.remaining, -1, "after the reset the quota is unknown, not zero");
}

#[test]
fn a_passed_reset_lets_it_try_again() {
    let now = 1_700_000_000;
    let mut q = AbuseQuota::new();
    q.after_response(200, headers(Some(0), Some(now - 5), None), now);
    assert_eq!(q.gate(true, now), Gate::Ask);
}

#[test]
fn an_error_status_finds_nothing_but_keeps_the_headers() {
    let now = 1_700_000_000;
    let mut q = AbuseQuota::new();
    let r = q.after_response(500, headers(Some(7), Some(now + 100), None), now);
    assert!(matches!(r, Some(ThreatOutcome::NotFound)));
    assert_eq!(q.remaining, 7);
    let reported = q.quota(true).unwrap();
    assert_eq!(reported.remaining, 7);
    assert_eq!(reported.limit, 1000);
}

#[test]
fn reads_a_score_and_its_details() {
    let d = AbuseData {
        score: Some(87),
        categories: vec![18, 22, 14, 22, 18],
        total_reports: Some(12),
        is_tor: Some(false),
        usage_type: Some("Data Center".to_string()),
        last_reported: Some("2023-11-14T23:13:20+01:00".to_string()),
    };
    match threat_from(&d) {
        ThreatOutcome::Found(f) => {
            assert_eq!(f.threat_score, Some(87));
            assert_eq!(
                f.threat_categories,
                Some(vec!["14".to_string(), "18".to_string(), "22".to_string()])
            );
            assert_eq!(f.abuse_total_reports, Some(12));
            assert_eq!(f.abuse_is_tor, Some(false));
            assert_eq!(f.abuse_usage_type.as_deref(), Some("Data Center"));
            assert_eq!(f.abuse_last_reported, Some(1_700_000_000_000_000));
            assert_eq!(f.geo_country, None);
        }
        other => panic!("expected facts, got {other:?}"),
    }
}

#[test]
fn no_categories_is_no_list() {
    let d = AbuseData {
        score: Some(0),
        categories: Vec::new(),
        total_reports: None,
        is_tor: None,
        usage_type: None,
        last_reported: None,
    };
    match threat_from(&d) {
        ThreatOutcome::Found(f) => assert_eq!(f.threat_categories, None),
        other => panic!("expected facts, got {other:?}"),
    }
}

#[test]
fn numbers_are_written_in_decimal() {
    assert_eq!(decimal_text(0), "0");
    assert_eq!(decimal_text(1234), "1234");
    assert_eq!(decimal_text(-56), "-56");
    assert_eq!(decimal_text(i64::MIN), "-9223372036854775808");
}

#[test]
fn one_lookup_per_distinct_address() {
    let a = uip::net::parse_ip("1.2.3.4");
    let b = uip::net::parse_ip("5.6.7.8");
    let c = uip::net::parse_ip("9.9.9.9");
    let rows = vec![(a, false), (None, true), (b, true), (a, true), (b, false), (c, false)];
    let (all, wanted) = claimed_addresses(&rows);
    assert_eq!(all, vec![a.unwrap(), b.unwrap(), c.unwrap()]);
    assert_eq!(wanted, vec![b.unwrap(), a.unwrap()]);
}

#[test]
fn an_answer_body_is_read_as_abuseipdb_writes_it() {
    let body = r#"{"data":{"ipAddress":"1.2.3.4","abuseConfidenceScore":87,"totalReports":3,
        "isTor":true,"usageType":"Data Center","lastReportedAt":"2023-11-14T22:13:20+00:00",
        "reports":[{"categories":[22,18]},{"categories":[14,"x",22]},{"comment":"none"}]}}"#;
    match threat_from_body(body) {
        ThreatOutcome::Found(f) => {
            assert_eq!(f.threat_score, Some(87));
            assert_eq!(f.threat_categories, Some(vec!["14".to_string(), "18".to_string(), "22".to_string()]));
            assert_eq!(f.abuse_total_reports, Some(3));
            assert_eq!(f.abuse_is_tor, Some(true));
            assert_eq!(f.abuse_usage_type.as_deref(), Some("Data Center"));
            assert_eq!(f.abuse_last_reported, Some(1_700_000_000_000_000));
        }
        other => panic!("expected facts, got {other:?}"),
    }
}

#[test]
fn a_body_without_data_finds_nothing() {
    assert!(matches!(threat_from_body(r#"{"errors":[]}"#), ThreatOutcome::NotFound));
    assert!(matches!(threat_from_body("not json"), ThreatOutcome::NotFound));
    match threat_from_body(r#"{"data":{"lastReportedAt":"yesterday"}}"#) {
        ThreatOutcome::Found(f) => {
            assert_eq!(f.abuse_last_reported, None, "an unreadable instant is no instant");
            assert_eq!(f.threat_categories, None);
        }
        other => panic!("expected facts, got {other:?}"),
    }
}
