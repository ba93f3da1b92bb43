use uip::enrich::IpFacts;
use uip::filters::LogFilter;
use uip::live::LiveRow;
use uip::net::parse_ip;
use uip::stream::{combine, glob_match, matches_live, text_hit, Verdict};
use uip::types::{Direction, LogType, RuleAction};

fn row() -> LiveRow {
    LiveRow {
        timestamp: 0,
        log_type: LogType::Firewall,
        direction: Some(Direction::Inbound),
        rule_action: Some(RuleAction::Block),
        rule_name: Some("WAN_IN-D".into()),
        protocol: Some("tcp".into()),
        iface_in: Some("ppp0".into()),
        iface_out: Some("br20".into()),
        src_ip: parse_ip("1.2.3.4"),
        dst_ip: parse_ip("10.0.0.5"),
        src_port: Some(5000),
        dst_port: Some(443),
        mac_address: None,
        hostname: None,
        dns_query: None,
        dns_type: None,
        dns_answer: None,
        dhcp_event: None,
        wifi_event: None,
        raw_log: None,
        facts: IpFacts::empty(),
    }
}

fn list(s: &str) -> Vec<String> {
    vec![s.to_string()]
}

fn q(s: &str) -> LogFilter {
    LogFilter { q: Some(s.to_string()), ..Default::default() }
}

#[test]
fn an_empty_filter_lets_everything_through() {
    assert_eq!(matches_live(&row(), &LogFilter::default()), Verdict::Pass);
}

#[test]
fn type_action_direction_and_interface_are_checked() {
    let f = |lf: LogFilter| matches_live(&row(), &lf);
    assert_eq!(f(LogFilter { log_type: list("firewall"), ..Default::default() }), Verdict::Pass);
    assert_eq!(f(LogFilter { log_type: list("dns"), ..Default::default() }), Verdict::Reject);
    assert_eq!(f(LogFilter { action: list("block"), ..Default::default() }), Verdict::Pass);
    assert_eq!(f(LogFilter { action: list("allow"), ..Default::default() }), Verdict::Reject);
    assert_eq!(f(LogFilter { direction: list("inbound"), ..Default::default() }), Verdict::Pass);
    assert_eq!(f(LogFilter { iface: list("ppp0"), ..Default::default() }), Verdict::Pass);
    assert_eq!(f(LogFilter { iface: list("br99"), ..Default::default() }), Verdict::Reject);
    assert_eq!(f(LogFilter { proto: list("tcp"), ..Default::default() }), Verdict::Pass);
    assert_eq!(f(LogFilter { port: Some(443), ..Default::default() }), Verdict::Pass);
    assert_eq!(f(LogFilter { port: Some(22), ..Default::default() }), Verdict::Reject);
}

#[test]
fn the_directed_interfaces_are_checked_separately() {
    let f = |i: Option<&str>, o: Option<&str>| {
        matches_live(
            &row(),
            &LogFilter {
                iface_in: i.map(str::to_string),
                iface_out: o.map(str::to_string),
                ..Default::default()
            },
        )
    };
    assert_eq!(f(Some("ppp0"), None), Verdict::Pass);
    assert_eq!(f(Some("br20"), None), Verdict::Reject, "that is the other direction");
    assert_eq!(f(None, Some("br20")), Verdict::Pass);
    assert_eq!(f(Some("ppp0"), Some("br20")), Verdict::Pass);
    assert_eq!(f(Some("ppp0"), Some("br99")), Verdict::Reject);
}

#[test]
fn search_terms_apply_to_the_stream_too() {
    assert_eq!(matches_live(&row(), &q("1.2.3.4")), Verdict::Pass);
    assert_eq!(matches_live(&row(), &q("10.10.10.0/24")), Verdict::Reject);
    assert_eq!(matches_live(&row(), &q("WAN_IN")), Verdict::Pass);
    assert_eq!(matches_live(&row(), &q("!WAN_IN")), Verdict::Reject);
}

#[test]
fn filtering_on_enriched_fields_suspends_the_stream() {
    assert_eq!(
        matches_live(&row(), &LogFilter { country: list("DE"), ..Default::default() }),
        Verdict::Unknowable
    );
    assert_eq!(
        matches_live(&row(), &LogFilter { threat_min: Some(50), ..Default::default() }),
        Verdict::Unknowable
    );
    assert_eq!(matches_live(&row(), &q("country:DE")), Verdict::Unknowable);
}

#[test]
fn a_certain_reject_beats_an_unknowable() {
    assert_eq!(combine(&[Verdict::Unknowable, Verdict::Reject]), Verdict::Reject);
    assert_eq!(combine(&[Verdict::Pass, Verdict::Unknowable]), Verdict::Unknowable);
    assert_eq!(combine(&[Verdict::Pass, Verdict::Pass]), Verdict::Pass);
    assert_eq!(combine(&[]), Verdict::Pass);
    // A rejected row stays rejected however unknowable the rest is.
    let f = LogFilter { country: list("DE"), log_type: list("dns"), ..Default::default() };
    assert_eq!(matches_live(&row(), &f), Verdict::Reject);
}

#[test]
fn the_time_filters_are_ignored() {
    let f = LogFilter { from: Some(i64::MAX), to: Some(0), range: Some("1m".into()), ..Default::default() };
    assert_eq!(matches_live(&row(), &f), Verdict::Pass);
}

#[test]
fn patterns_and_text_ignore_case() {
    assert!(glob_match("WAN_IN-D", "wan*"));
    assert!(glob_match("WAN_IN-D", "*in*d"));
    assert!(!glob_match("WAN_IN-D", "lan*"));
    assert!(glob_match("abc", "a*c"));
    assert!(text_hit("WAN_IN-D", "in-d", false));
    assert!(!text_hit("WAN_IN-D", "out", false));
    assert!(text_hit("WAN_IN-D", "WAN*", true));
}

#[test]
fn negating_an_unknowable_term_stays_unknowable() {
    assert_eq!(matches_live(&row(), &q("!country:DE")), Verdict::Unknowable);
    assert_eq!(matches_live(&row(), &q("asn:3320")), Verdict::Unknowable);
    assert_eq!(matches_live(&row(), &q("!10.10.10.0/24")), Verdict::Pass);
    assert_eq!(matches_live(&row(), &q("dport:443")), Verdict::Pass);
    assert_eq!(matches_live(&row(), &q("sport:443")), Verdict::Reject);
    assert_eq!(matches_live(&row(), &q("action:BLOCK")), Verdict::Pass);
    assert_eq!(matches_live(&row(), &q("type:dns")), Verdict::Reject);
}

#[test]
fn a_pattern_covers_the_whole_text_as_ilike_does() {
    assert!(!glob_match("nasty", "n*s"));
    assert!(glob_match("nas01", "nas*"));
    assert!(glob_match("nasty", "n*y"));
    assert!(glob_match("nasty", "*"));
    assert!(glob_match("nasty", "n*a*y"));
    assert!(!glob_match("ab", "ab*b"), "the first and the last part may not overlap");
    assert!(glob_match("abb", "ab*b"));
    assert!(glob_match("a-b-c", "*-*-*"));
    assert!(!glob_match("nasty", "*s"));
    assert!(glob_match("NAS", "nas"), "without a star the text is the pattern");
    assert!(!glob_match("nasty", "nas"));
}
