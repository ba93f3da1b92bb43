use uip::firewall::{parse_firewall, FirewallCtx};
use uip::net::ip_to_string;
use uip::types::{Direction, RuleAction};

fn ctx() -> FirewallCtx {
    FirewallCtx { wan_interfaces: vec!["ppp0".to_string()], wan_ips: Vec::new() }
}

#[test]
fn parses_zone_rule_inbound() {
    let p = parse_firewall("kernel: [WAN_IN-B-4000000003-D]IN=ppp0 OUT=br20 SRC=1.2.3.4 DST=10.0.0.5 PROTO=TCP SPT=54321 DPT=443", &ctx());
    assert_eq!(p.rule_name.as_deref(), Some("WAN_IN-B-4000000003-D"));
    assert_eq!(ip_to_string(p.src_ip.unwrap()), "1.2.3.4");
    assert_eq!(ip_to_string(p.dst_ip.unwrap()), "10.0.0.5");
    assert_eq!(p.protocol.as_deref(), Some("tcp"));
    assert_eq!((p.src_port, p.dst_port), (Some(54321), Some(443)));
    assert_eq!(p.direction, Some(Direction::Inbound));
    assert_eq!(p.rule_action, Some(RuleAction::Block));
}

#[test]
fn parses_ipv6_and_router_destined() {
    let p = parse_firewall("kernel: [RULE1]IN=ppp0 OUT= SRC=2001:db8::1 DST=fd00::2 PROTO=TCP SPT=80 DPT=8080", &ctx());
    assert_eq!(ip_to_string(p.src_ip.unwrap()), "2001:db8::1");
    assert_eq!(p.interface_out, None);
    assert_eq!(p.direction, Some(Direction::Inbound));
}

#[test]
fn descr_and_mac_extraction() {
    let p = parse_firewall(r#"kernel: [LAN_OUT-A]IN=br20 OUT=ppp0 MAC=aa:bb:cc:dd:ee:ff:11:22:33:44:55:66:08:00 SRC=10.0.20.5 DST=8.8.8.8 PROTO=UDP SPT=5353 DPT=53 DESCR="Allow DNS""#, &ctx());
    assert_eq!(p.mac_address.as_deref(), Some("11:22:33:44:55:66"));
    assert_eq!(p.rule_desc.as_deref(), Some("Allow DNS"));
    assert_eq!(p.direction, Some(Direction::Outbound));
    assert_eq!(p.rule_action, Some(RuleAction::Allow));
}

#[test]
fn inter_vlan_vs_vpn() {
    let p = parse_firewall("kernel: [X-A]IN=br20 OUT=br30 SRC=10.0.20.5 DST=10.0.30.5 PROTO=TCP SPT=1 DPT=2", &ctx());
    assert_eq!(p.direction, Some(Direction::InterVlan));
    let p = parse_firewall("kernel: [X-A]IN=wgsrv0 OUT=br20 SRC=10.6.0.2 DST=10.0.20.5 PROTO=TCP SPT=1 DPT=2", &ctx());
    assert_eq!(p.direction, Some(Direction::Vpn));
}

#[test]
fn broadcast_is_local_and_invalid_ip_dropped() {
    let p = parse_firewall("kernel: [X-A]IN=ppp0 OUT=br0 SRC=1.2.3.4 DST=255.255.255.255 PROTO=UDP", &ctx());
    assert_eq!(p.direction, Some(Direction::Local));
    let p = parse_firewall("kernel: SRC=not_ip DST=10.0.0.1 PROTO=TCP", &ctx());
    assert_eq!(p.src_ip, None);
    assert_eq!(ip_to_string(p.dst_ip.unwrap()), "10.0.0.1");
}

#[test]
fn action_letter_sits_in_the_middle_of_a_zone_rule_name() {
    let block = parse_firewall(
        r#"kernel: [DMZ_LOCAL-D-10002]IN=br30 OUT=br0 SRC=10.0.30.5 DST=10.0.0.1 PROTO=TCP SPT=1 DPT=22 DESCR="DMZ To GW - Drop all Traffic""#,
        &ctx(),
    );
    assert_eq!(block.rule_action, Some(RuleAction::Block));
    let allow = parse_firewall(
        r#"kernel: [CUSTOM1_WAN-A-10004]IN=br10 OUT=ppp0 SRC=10.0.10.5 DST=1.1.1.1 PROTO=UDP SPT=1 DPT=53 DESCR="VL10 -> WAN - Pihole Allow DNS""#,
        &ctx(),
    );
    assert_eq!(allow.rule_action, Some(RuleAction::Allow));
    let redirect = parse_firewall(
        "kernel: [LAN_LOCAL-R-10001]IN=br0 OUT=br0 SRC=10.0.0.5 DST=1.1.1.1 PROTO=UDP SPT=1 DPT=53",
        &ctx(),
    );
    assert_eq!(redirect.rule_action, Some(RuleAction::Redirect));
}

#[test]
fn action_letter_at_the_end_still_wins() {
    let p = parse_firewall("kernel: [WAN_IN-B-4000000003-D]IN=ppp0 SRC=1.2.3.4 DST=10.0.0.5 PROTO=TCP", &ctx());
    assert_eq!(p.rule_action, Some(RuleAction::Block));
}

#[test]
fn descr_hint_is_read_behind_a_zone_tag() {
    let p = parse_firewall(
        r#"kernel: [UBIOS_WAN_IN_USER]IN=ppp0 SRC=1.2.3.4 DST=10.0.0.5 PROTO=TCP DESCR="[WAN_LOCAL]Block All Traffic""#,
        &ctx(),
    );
    assert_eq!(p.rule_action, Some(RuleAction::Block));
}

#[test]
fn descr_block_hint_when_no_suffix() {
    let p = parse_firewall(r#"kernel: [MYRULE]IN=br20 OUT=ppp0 SRC=10.0.20.5 DST=1.2.3.4 PROTO=TCP DESCR="Block Unauthorized""#, &ctx());
    assert_eq!(p.rule_action, Some(RuleAction::Block));
}

#[test]
fn without_a_wan_interface_no_direction_is_guessed_from_the_wan() {
    let empty = FirewallCtx { wan_interfaces: Vec::new(), wan_ips: Vec::new() };
    let p = parse_firewall("kernel: [X-A]IN=ppp0 OUT=br20 SRC=1.2.3.4 DST=10.0.0.5 PROTO=TCP", &empty);
    assert_ne!(p.direction, Some(Direction::Inbound));
}

#[test]
fn a_changed_wan_set_is_reported_once() {
    let mut c = ctx();
    assert!(!c.set_wan_interfaces(vec!["ppp0".to_string()]));
    assert!(c.set_wan_interfaces(vec!["eth1".to_string()]));
    assert!(!c.set_wan_interfaces(vec!["eth1".to_string(), "eth1".to_string()]));
}
