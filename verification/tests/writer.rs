use uip::enrich::IpFacts;
use uip::firewall::{parse_firewall, FirewallCtx};
use uip::live::{announcements, LiveEvent};
use uip::net::{parse_ip, IpAddress};
use uip::types::{LogType, ParsedLog};
use uip::writer::{batch_full, counterpart, fill_from_cache, lookups_for, resolve, wanted_addresses, LookupIds, RowRecord};

const LINE: &str = "[WAN_IN-D]IN=ppp0 OUT=br20 SRC=1.2.3.4 DST=10.0.0.5 PROTO=TCP SPT=1 DPT=443";

fn ip(s: &str) -> IpAddress {
    parse_ip(s).unwrap()
}

fn no_ids() -> LookupIds {
    LookupIds { rule_id: None, iface_in_id: None, iface_out_id: None, protocol_id: None, hostname_id: None, program_id: None }
}

fn ids_for(p: &ParsedLog) -> LookupIds {
    let l = lookups_for(p);
    let id = |present: bool, n: i16| if present { Some(n) } else { None };
    LookupIds {
        rule_id: id(l.rule.is_some(), 1),
        iface_in_id: id(l.iface_in.is_some(), 2),
        iface_out_id: id(l.iface_out.is_some(), 3),
        protocol_id: id(l.protocol.is_some(), 4),
        hostname_id: id(l.hostname.is_some(), 5),
        program_id: id(l.program.is_some(), 6),
    }
}

fn inbound_row() -> RowRecord {
    let mut ctx = FirewallCtx::new();
    ctx.wan_interfaces = vec!["ppp0".to_string()];
    let p = parse_firewall(LINE, &ctx);
    let ids = ids_for(&p);
    assert!(ids.fit(&lookups_for(&p)));
    resolve(p, ids, 1_700_000_000)
}

fn facts(country: &str) -> IpFacts {
    IpFacts { geo_country: Some(country.to_string()), asn_name: Some("Deutsche Telekom AG".into()), ..IpFacts::empty() }
}

#[test]
fn a_written_row_goes_out_without_facts_of_an_unknown_address() {
    let r = inbound_row();
    assert_eq!(r.log_type_id, 1);
    assert_eq!(r.live.src_ip, Some(ip("1.2.3.4")));
    assert!(r.live.facts.is_empty());
}

#[test]
fn a_known_address_arrives_already_enriched() {
    let mut r = inbound_row();
    assert_eq!(counterpart(&r), Some(ip("1.2.3.4")));
    fill_from_cache(&mut r, &[(ip("1.2.3.4"), facts("DE"))]);
    assert_eq!(r.live.facts.geo_country.as_deref(), Some("DE"));
    assert_eq!(r.live.facts.asn_name.as_deref(), Some("Deutsche Telekom AG"));
}

#[test]
fn the_local_side_is_never_labelled() {
    let mut r = inbound_row();
    fill_from_cache(&mut r, &[(ip("10.0.0.5"), facts("XX"))]);
    assert_eq!(r.live.facts.geo_country, None, "the own address does not count");
}

#[test]
fn the_last_entry_for_an_address_counts() {
    let mut r = inbound_row();
    fill_from_cache(&mut r, &[(ip("1.2.3.4"), facts("FR")), (ip("9.9.9.9"), facts("US")), (ip("1.2.3.4"), facts("DE"))]);
    assert_eq!(r.live.facts.geo_country.as_deref(), Some("DE"));
}

#[test]
fn both_sides_of_every_row_are_asked_for_once() {
    let rows = vec![inbound_row(), inbound_row()];
    assert_eq!(wanted_addresses(&rows), vec![ip("1.2.3.4"), ip("10.0.0.5")]);
}

#[test]
fn a_batch_is_full_at_two_hundred_rows() {
    assert!(!batch_full(199));
    assert!(batch_full(200));
}

#[test]
fn a_rule_is_looked_up_by_name_and_description() {
    let mut p = ParsedLog::blank(Some(LogType::Firewall));
    p.rule_name = Some("WAN_IN-D".into());
    p.protocol = Some("tcp".into());
    let l = lookups_for(&p);
    assert_eq!(l.rule, Some((Some("WAN_IN-D".to_string()), None)));
    assert_eq!(l.protocol.as_deref(), Some("tcp"));
    let none = lookups_for(&ParsedLog::blank(Some(LogType::Dns)));
    assert_eq!(none.rule, None);
}

#[test]
fn enrichment_is_announced_for_the_address() {
    let found = vec![(ip("1.2.3.4"), facts("DE"))];
    let events = announcements(&found);
    assert_eq!(events.len(), 1);
    match &events[0] {
        LiveEvent::Enriched(a, f) => {
            assert_eq!(*a, ip("1.2.3.4"));
            assert_eq!(f.geo_country.as_deref(), Some("DE"));
        }
        other => panic!("expected an announcement, got {other:?}"),
    }
}

#[test]
fn nothing_learned_means_nothing_announced() {
    let found = vec![(ip("1.2.3.4"), IpFacts::empty()), (ip("5.6.7.8"), facts("NL")), (ip("9.9.9.9"), IpFacts::empty())];
    let events = announcements(&found);
    assert_eq!(events.len(), 1);
    assert!(matches!(&events[0], LiveEvent::Enriched(a, _) if *a == ip("5.6.7.8")));
}

#[test]
fn an_id_is_there_exactly_where_its_name_is() {
    let r = inbound_row();
    assert_eq!(r.rule_id, Some(1));
    assert_eq!(r.iface_in_id, Some(2));
    assert_eq!(r.iface_out_id, Some(3));
    assert_eq!(r.protocol_id, Some(4));
    assert_eq!(r.hostname_id, None);
    let p = ParsedLog::blank(Some(LogType::Dns));
    assert!(no_ids().fit(&lookups_for(&p)));
    assert!(!LookupIds { iface_in_id: Some(2), ..no_ids() }.fit(&lookups_for(&p)), "an id without its name");
}
