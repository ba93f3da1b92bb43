use uip::net::ip_to_string;
use uip::pihole::{blocked, new_rows, pihole_base, pihole_config, test_outcome, to_log, PiholeQuery, TestOutcome};
use uip::types::{Detail, Details, FieldMap, LogType, RuleAction};

const NOW: i64 = 1_750_000_000;

fn query() -> PiholeQuery {
    PiholeQuery {
        id: None,
        time: None,
        qtype: None,
        domain: None,
        status: None,
        client_ip: None,
        client_name: None,
        upstream: None,
        reply_type: None,
        reply_type_json: None,
        reply_time_json: None,
        upstream_json: None,
        dnssec_json: None,
        cname_json: None,
        ttl_json: None,
    }
}

fn s(v: &str) -> Option<String> {
    Some(v.to_string())
}

fn fields(d: Option<Details>) -> FieldMap {
    match d {
        Some(Details::Fields(m)) => m,
        other => panic!("expected named details, got {other:?}"),
    }
}

#[test]
fn a_query_becomes_a_dns_row() {
    let q = PiholeQuery {
        id: Some(42),
        time: Some(1_700_000_000),
        qtype: s("a"),
        domain: s("example.com"),
        status: s("GRAVITY"),
        reply_type: s("NXDOMAIN"),
        reply_type_json: s("\"NXDOMAIN\""),
        reply_time_json: s("0.0012"),
        client_ip: s("10.0.0.5"),
        client_name: s("laptop"),
        ..query()
    };
    let row = to_log(&q, NOW).unwrap();
    assert_eq!(row.log_type, Some(LogType::Dns));
    assert_eq!(row.dns_query.as_deref(), Some("example.com"));
    assert_eq!(row.dns_type.as_deref(), Some("A"));
    assert_eq!(row.dns_answer.as_deref(), Some("NXDOMAIN"));
    assert_eq!(row.rule_action, Some(RuleAction::Block));
    assert_eq!(row.src_ip.map(ip_to_string).as_deref(), Some("10.0.0.5"));
    assert_eq!(row.hostname.as_deref(), Some("laptop"));
    assert!(row.timestamp.is_some());
    assert_eq!(row.timestamp, Some(1_700_000_000));
    let d = fields(row.details);
    assert_eq!(d.get("status"), Some(&Detail::Text("GRAVITY".to_string())));
    assert_eq!(d.get("reply_type"), Some(&Detail::Json("\"NXDOMAIN\"".to_string())));
    assert_eq!(d.get("reply_time"), Some(&Detail::Json("0.0012".to_string())));
    assert_eq!(d.get("ttl"), None);
}

#[test]
fn a_forwarded_query_keeps_its_upstream() {
    let q = PiholeQuery {
        id: Some(43),
        time: Some(1_700_000_001),
        qtype: s("aaaa"),
        domain: s("example.org"),
        status: s("FORWARDED"),
        upstream: s("10.10.10.1#53"),
        upstream_json: s("\"10.10.10.1#53\""),
        reply_type: s("IP"),
        reply_type_json: s("\"IP\""),
        client_ip: s("10.0.0.6"),
        ..query()
    };
    let row = to_log(&q, NOW).unwrap();
    assert_eq!(row.rule_action, Some(RuleAction::Allow));
    assert_eq!(row.dst_ip.map(ip_to_string).as_deref(), Some("10.10.10.1"));
    assert_eq!(row.dst_port, Some(53));
    assert_eq!(row.dns_answer.as_deref(), Some("IP"));
    assert_eq!(row.dns_type.as_deref(), Some("AAAA"));
}

#[test]
fn every_blocking_status_counts_as_a_block() {
    for st in ["GRAVITY", "DENYLIST", "REGEX", "GRAVITY_CNAME", "REGEX_CNAME", "EXTERNAL_BLOCKED_IP", "SPECIAL_DOMAIN"] {
        assert_eq!(blocked(st), Some(RuleAction::Block), "{st}");
    }
    for st in ["FORWARDED", "CACHE", "CACHE_STALE", "RETRIED"] {
        assert_eq!(blocked(st), Some(RuleAction::Allow), "{st}");
    }
    assert_eq!(blocked("UNKNOWN"), None);
}

#[test]
fn a_bare_client_address_also_works() {
    let q = PiholeQuery { id: Some(1), domain: s("x.test"), client_ip: s("10.0.0.9"), ..query() };
    let row = to_log(&q, NOW).unwrap();
    assert_eq!(row.src_ip.map(ip_to_string).as_deref(), Some("10.0.0.9"));
    assert_eq!(row.hostname, None);
}

#[test]
fn a_query_without_a_domain_is_no_row() {
    assert!(to_log(&PiholeQuery { id: Some(1), ..query() }, NOW).is_none());
    assert!(to_log(&PiholeQuery { id: Some(1), domain: s(""), ..query() }, NOW).is_none());
}

#[test]
fn a_query_without_a_time_is_stamped_now() {
    let q = PiholeQuery { id: Some(5), domain: s("x.test"), status: s("cache"), ..query() };
    let row = to_log(&q, NOW).unwrap();
    assert_eq!(row.timestamp, Some(NOW));
    // Without a reply the status stands in for the answer, upper-cased.
    assert_eq!(row.dns_answer.as_deref(), Some("CACHE"));
    assert_eq!(row.rule_action, Some(RuleAction::Allow));
}

#[test]
fn only_queries_past_the_cursor_become_rows() {
    let qs = vec![
        PiholeQuery { id: Some(1), domain: s("one.test"), status: s("FORWARDED"), ..query() },
        PiholeQuery { id: Some(2), domain: s("two.test"), status: s("GRAVITY"), ..query() },
        PiholeQuery { id: Some(3), domain: s(""), ..query() },
    ];
    let (rows, last) = new_rows(&qs, 1, NOW);
    assert_eq!(rows.len(), 1);
    assert_eq!(rows[0].dns_query.as_deref(), Some("two.test"));
    assert_eq!(last, 3);
    let (rows, last) = new_rows(&qs, 3, NOW);
    assert!(rows.is_empty());
    assert_eq!(last, 3);
}

#[test]
fn the_base_address_loses_its_trailing_slashes() {
    assert_eq!(pihole_base("http://pi.hole//"), "http://pi.hole");
    assert_eq!(pihole_base("http://pi.hole"), "http://pi.hole");
}

#[test]
fn an_incomplete_configuration_is_no_configuration() {
    assert!(pihole_config(Some(true), s("http://pi.hole"), s("pw")).is_some());
    assert!(pihole_config(Some(false), s("http://pi.hole"), s("pw")).is_none());
    assert!(pihole_config(Some(true), s(""), s("pw")).is_none());
}

#[test]
fn a_refused_password_is_not_an_outage() {
    assert_eq!(test_outcome(Err("unauthorized".to_string()), None), TestOutcome::BadCredentials);
    assert_eq!(
        test_outcome(Err("connection refused".to_string()), None),
        TestOutcome::Unreachable("connection refused".to_string())
    );
    assert_eq!(
        test_outcome(Ok(()), s("v6.0")),
        TestOutcome::Connected { version: s("v6.0") }
    );
}
