use uip::net::{is_enrichable, parse_ip, remote_ip, IpAddress};

fn ip(s: &str) -> IpAddress {
    parse_ip(s).unwrap()
}

fn excl() -> Vec<IpAddress> {
    vec![ip("203.0.113.7")]
}

#[test]
fn inbound_takes_the_source() {
    let r = remote_ip(1, Some(1), Some(ip("8.8.8.8")), Some(ip("10.0.0.5")), &excl());
    assert_eq!(r, Some(ip("8.8.8.8")));
}

#[test]
fn outbound_takes_the_destination() {
    let r = remote_ip(1, Some(2), Some(ip("10.0.0.5")), Some(ip("1.1.1.1")), &excl());
    assert_eq!(r, Some(ip("1.1.1.1")));
}

#[test]
fn private_addresses_are_not_enrichable() {
    assert_eq!(remote_ip(1, Some(4), Some(ip("10.0.0.1")), Some(ip("192.168.1.1")), &excl()), None);
    assert_eq!(remote_ip(1, Some(3), Some(ip("127.0.0.1")), None, &excl()), None);
    assert_eq!(remote_ip(1, Some(1), Some(ip("224.0.0.1")), None, &excl()), None);
}

#[test]
fn our_own_wan_address_is_excluded() {
    assert_eq!(remote_ip(1, Some(1), Some(ip("203.0.113.7")), Some(ip("10.0.0.5")), &excl()), None);
}

#[test]
fn falls_back_to_whichever_side_is_public() {
    let r = remote_ip(1, Some(3), Some(ip("10.0.0.5")), Some(ip("9.9.9.9")), &excl());
    assert_eq!(r, Some(ip("9.9.9.9")));
}

#[test]
fn only_firewall_and_dns_carry_remote_addresses() {
    assert_eq!(remote_ip(3, None, Some(ip("8.8.8.8")), None, &excl()), None);
    assert_eq!(remote_ip(5, None, Some(ip("8.8.8.8")), None, &excl()), None);
    assert_eq!(remote_ip(2, None, Some(ip("8.8.8.8")), None, &excl()), Some(ip("8.8.8.8")));
}

#[test]
fn documentation_and_shared_ranges_are_internal() {
    assert!(!is_enrichable(&ip("192.0.2.1")));
    assert!(!is_enrichable(&ip("100.64.0.1")));
    assert!(!is_enrichable(&ip("fe80::1")));
    assert!(is_enrichable(&ip("2001:4860::8888")));
    assert!(is_enrichable(&ip("8.8.4.4")));
}
