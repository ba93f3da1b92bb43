use uip::types::{Direction, LogType, RuleAction};

#[test]
fn ids_are_stable() {
    assert_eq!(LogType::Firewall.id(), 1);
    assert_eq!(LogType::Dns.id(), 2);
    assert_eq!(LogType::Dhcp.id(), 3);
    assert_eq!(LogType::Wifi.id(), 4);
    assert_eq!(LogType::System.id(), 5);
    assert_eq!(RuleAction::Allow.id(), 1);
    assert_eq!(RuleAction::Block.id(), 2);
    assert_eq!(RuleAction::Redirect.id(), 3);
    assert_eq!(Direction::Inbound.id(), 1);
    assert_eq!(Direction::Outbound.id(), 2);
    assert_eq!(Direction::Local.id(), 3);
    assert_eq!(Direction::InterVlan.id(), 4);
    assert_eq!(Direction::Vpn.id(), 5);
    assert_eq!(Direction::Nat.id(), 6);
}

#[test]
fn str_roundtrip() {
    assert_eq!(LogType::Firewall.as_str(), "firewall");
    assert_eq!(Direction::InterVlan.as_str(), "inter_vlan");
    assert_eq!(RuleAction::Block.as_str(), "block");
}

#[test]
fn a_log_type_comes_back_from_its_id() {
    for t in [LogType::Firewall, LogType::Dns, LogType::Dhcp, LogType::Wifi, LogType::System] {
        assert_eq!(LogType::from_id(t.id()), Some(t));
    }
    assert_eq!(LogType::from_id(0), None);
    assert_eq!(LogType::from_id(6), None);
}
