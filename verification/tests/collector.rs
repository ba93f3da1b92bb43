use uip::collector::{direction_fix_query, ingest_line, Collector};
use uip::sql::{Bind, Piece};
use uip::firewall::FirewallCtx;
use uip::net::parse_ip;
use uip::types::{LogType, ParsedLog};

fn row(src: &str, sport: i32, dst: &str, dport: i32, kind: LogType) -> ParsedLog {
    let mut p = ParsedLog::blank(Some(kind));
    p.src_ip = parse_ip(src);
    p.dst_ip = parse_ip(dst);
    p.src_port = Some(sport);
    p.dst_port = Some(dport);
    p
}

fn collector_at(addr: &str) -> Collector {
    let mut c = Collector::new(514);
    assert!(c.remember_local_address(parse_ip(addr).unwrap()));
    c
}

#[test]
fn traffic_to_our_own_syslog_port_is_dropped() {
    let mut c = collector_at("10.10.15.56");
    let own = row("10.10.15.1", 56369, "10.10.15.56", 514, LogType::Firewall);
    assert!(c.should_drop(&own));
    assert_eq!(c.dropped(), 1);
}

#[test]
fn syslog_between_other_hosts_stays() {
    let mut c = collector_at("10.10.15.56");
    let elsewhere = row("10.10.20.5", 45000, "10.10.20.9", 514, LogType::Firewall);
    assert!(!c.should_drop(&elsewhere));
}

#[test]
fn only_firewall_rows_describe_the_transport() {
    let mut c = collector_at("10.10.15.56");
    let dns = row("10.10.15.1", 56369, "10.10.15.56", 514, LogType::Dns);
    assert!(!c.should_drop(&dns));
}

#[test]
fn a_switched_off_filter_keeps_everything() {
    let mut c = collector_at("10.10.15.56");
    c.set_drop_own(false);
    let own = row("10.10.15.1", 56369, "10.10.15.56", 514, LogType::Firewall);
    assert!(!c.should_drop(&own));
    assert_eq!(c.dropped(), 0, "what stays is not counted");
}

#[test]
fn nothing_is_dropped_before_we_know_our_address() {
    let mut c = Collector::new(514);
    let own = row("10.10.15.1", 56369, "10.10.15.56", 514, LogType::Firewall);
    assert!(!c.should_drop(&own));
}

#[test]
fn the_other_direction_counts_too() {
    let mut c = collector_at("10.10.15.56");
    let from_us = row("10.10.15.56", 514, "10.10.15.1", 33333, LogType::Firewall);
    assert!(c.should_drop(&from_us));
}

#[test]
fn the_local_address_is_learned_from_the_sender() {
    // Over the loopback the receiver is 127.0.0.1; app/ learns that address
    // from the sender and hands it to the collector.
    let mut c = Collector::new(514);
    assert!(c.remember_local_address(parse_ip("127.0.0.1").unwrap()));
    assert!(!c.remember_local_address(parse_ip("127.0.0.1").unwrap()), "each address once");
    assert_eq!(c.local_addresses().len(), 1);
    let loopback = row("127.0.0.1", 40000, "127.0.0.1", 514, LogType::Firewall);
    assert!(c.should_drop(&loopback));
}

#[test]
fn received_reports_are_counted() {
    let mut c = Collector::new(5514);
    assert_eq!(c.port(), 5514);
    c.count_received();
    c.count_received();
    assert_eq!(c.received(), 2);
    assert!(c.drops_own());
}

#[test]
fn a_line_is_parsed_without_its_line_end() {
    let ctx = FirewallCtx { wan_interfaces: Vec::new(), wan_ips: Vec::new() };
    let now = 1_757_764_800;
    let p = ingest_line("<30>Sep 13 12:00:00 gw dnsmasq[1234]: query[A] example.com from 192.168.1.5\n", now, &ctx)
        .unwrap();
    assert_eq!(p.log_type, Some(LogType::Dns));
    assert_eq!(p.dns_query.as_deref(), Some("example.com"));
    assert!(!p.raw_log.ends_with('\n'));
}

#[test]
fn stored_directions_are_corrected_against_the_lower_cased_wan_names() {
    assert!(direction_fix_query(&Vec::new()).is_none(), "no WAN, nothing to correct");
    let q = direction_fix_query(&vec!["PPP0".to_string(), "eth8".to_string()]).unwrap();
    let binds: Vec<&Bind> = q
        .iter()
        .filter_map(|p| match p {
            Piece::Arg(b) => Some(b),
            Piece::Sql(_) => None,
        })
        .collect();
    assert_eq!(binds.len(), 3);
    for b in binds {
        assert_eq!(*b, Bind::Names(vec!["ppp0".to_string(), "eth8".to_string()]));
    }
    let text: String = q
        .iter()
        .filter_map(|p| match p {
            Piece::Sql(s) => Some(*s),
            Piece::Arg(_) => None,
        })
        .collect();
    assert!(text.starts_with("UPDATE logs l SET direction_id = d.dir"));
    assert!(text.contains("src.direction_id IN (3, 4)"));
}
