use uip::settings::{choose_rdns, choose_text, effective_wan_interfaces, effective_wan_ips, parse_ips, Config};
use uip::net::parse_ip;

#[test]
fn defaults_when_env_missing() {
    let c = Config::from_vars(|_| None);
    assert_eq!(c.http_addr, "0.0.0.0:8080");
    assert_eq!(c.syslog_addr, "0.0.0.0:514");
    assert_eq!(c.wan_interfaces, vec!["ppp0".to_string()]);
    assert!(c.database_url.contains("uip"));
}

#[test]
fn reads_env_overrides() {
    let c = Config::from_vars(|k| match k {
        "UIP_DB_URL" => Some("postgres://x/y".into()),
        "UIP_HTTP_ADDR" => Some("127.0.0.1:9999".into()),
        "UIP_SYSLOG_ADDR" => Some("0.0.0.0:5514".into()),
        "UIP_WAN_IFACES" => Some("eth8, ppp0".into()),
        _ => None,
    });
    assert_eq!(c.database_url, "postgres://x/y");
    assert_eq!(c.http_addr, "127.0.0.1:9999");
    assert_eq!(c.syslog_addr, "0.0.0.0:5514");
    assert!(c.wan_interfaces.contains(&"eth8".to_string()) && c.wan_interfaces.contains(&"ppp0".to_string()));
}

#[test]
fn database_url_falls_back_on_the_common_variable() {
    let c = Config::from_vars(|k| (k == "DATABASE_URL").then(|| "postgres://other/db".to_string()));
    assert_eq!(c.database_url, "postgres://other/db");
}

#[test]
fn repeated_and_blank_interfaces_count_once() {
    let c = Config::from_vars(|k| (k == "UIP_WAN_IFACES").then(|| "eth1, ,eth1,ppp0".to_string()));
    assert_eq!(c.wan_interfaces, vec!["eth1".to_string(), "ppp0".to_string()]);
}

#[test]
fn the_environment_wins_and_is_written_back() {
    assert_eq!(choose_text(Some("a".into()), Some("b".into()), "c"), ("a".to_string(), true));
    assert_eq!(choose_text(Some("".into()), Some("b".into()), "c"), ("b".to_string(), false));
    assert_eq!(choose_text(None, Some("".into()), "c"), ("c".to_string(), false));
    assert_eq!(choose_rdns(Some(" FALSE "), Some(true)), (false, true));
    assert_eq!(choose_rdns(Some("yes"), Some(false)), (true, true));
    assert_eq!(choose_rdns(None, None), (true, false));
    assert_eq!(choose_rdns(None, Some(false)), (false, false));
}

#[test]
fn addresses_are_a_set_and_junk_is_skipped() {
    let ips = parse_ips("203.0.113.7, 198.51.100.4, nonsense, 203.0.113.7");
    assert_eq!(ips, vec![parse_ip("203.0.113.7").unwrap(), parse_ip("198.51.100.4").unwrap()]);
}

#[test]
fn typed_wan_addresses_win_over_detected_ones() {
    assert_eq!(effective_wan_ips("1.2.3.4", "5.6.7.8"), vec![parse_ip("1.2.3.4").unwrap()]);
    assert_eq!(effective_wan_ips("", "5.6.7.8"), vec![parse_ip("5.6.7.8").unwrap()]);
    let fallback = vec!["ppp0".to_string()];
    assert_eq!(effective_wan_interfaces("", "eth1", &fallback), vec!["eth1".to_string()]);
    assert_eq!(effective_wan_interfaces("eth4", "eth1", &fallback), vec!["eth4".to_string()]);
    assert_eq!(effective_wan_interfaces(" , ", "", &fallback), fallback);
}

#[test]
fn the_receiver_port_comes_from_the_listen_address() {
    let port = |addr: &str| Config::from_values(None, None, None, None, Some(addr.to_string())).syslog_port();
    assert_eq!(port("0.0.0.0:5514"), 5514);
    assert_eq!(port("[::]:1514"), 1514);
    assert_eq!(port("0.0.0.0:"), 514);
    assert_eq!(port("localhost:syslog"), 514);
    assert_eq!(port("6514"), 6514);
    assert_eq!(Config::from_values(None, None, None, None, None).syslog_port(), 514);
}
