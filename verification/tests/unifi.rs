use uip::unifi::{
    action_letter, address_names, api_urls, bridge_for, by_last_seen, client_row, device_row, gateway_ip,
    lookup_zone, network_entries, policy_key, policy_row, unifi_config, unifi_site, unifi_test_outcome, wan_addresses,
    wan_ifnames, wan_interfaces, zone_tokens, ClientConf, DeviceConf, NetworkConf, NumberField, PolicyConf,
    UnifiTest, ZoneConf, ZoneToken,
};

fn s(v: &str) -> Option<String> {
    Some(v.to_string())
}

fn net(purpose: Option<&str>, name: Option<&str>) -> NetworkConf {
    NetworkConf {
        name: name.map(str::to_string),
        purpose: purpose.map(str::to_string),
        enabled: None,
        vlan: None,
        vlan_enabled: None,
        wan_networkgroup: None,
        ip_subnet: None,
    }
}

fn device() -> DeviceConf {
    DeviceConf {
        mac: None,
        ip: None,
        name: None,
        hostname: None,
        oui: None,
        kind: None,
        model: None,
        version: None,
        wan1_ifname: None,
        wan1_ip: None,
        wan2_ifname: None,
        wan2_ip: None,
    }
}

fn zone(id: &str, key: Option<&str>, name: &str) -> ZoneConf {
    ZoneConf { id: s(id), name: s(name), zone_key: key.map(str::to_string) }
}

fn zones() -> Vec<ZoneConf> {
    vec![
        zone("6977a4f61a33a3dda51d6e92", Some("internal"), "Internal"),
        zone("6977a4f61a33a3dda51d6e93", Some("external"), "External"),
        zone("6977a4f61a33a3dda51d6e94", Some("gateway"), "Gateway"),
        zone("6977a4f61a33a3dda51d6e97", Some("dmz"), "Dmz"),
        // Made by hand, deliberately out of order: the number follows the id.
        zone("697cd15e123a22a82ec58c85", None, "#1 - Internes Netzwerk"),
        zone("697bc376123a22a82ec5572b", None, "#0 - Servernetzwerk"),
    ]
}

fn token(tokens: &Vec<ZoneToken>, id: &str) -> String {
    lookup_zone(tokens, &id.to_string()).unwrap().0
}

#[test]
fn zones_carry_the_token_the_log_uses() {
    let tokens = zone_tokens(&zones());
    assert_eq!(token(&tokens, "6977a4f61a33a3dda51d6e92"), "LAN");
    assert_eq!(token(&tokens, "6977a4f61a33a3dda51d6e93"), "WAN");
    assert_eq!(token(&tokens, "6977a4f61a33a3dda51d6e94"), "LOCAL");
    assert_eq!(token(&tokens, "6977a4f61a33a3dda51d6e97"), "DMZ");
    assert_eq!(token(&tokens, "697bc376123a22a82ec5572b"), "CUSTOM1");
    assert_eq!(token(&tokens, "697cd15e123a22a82ec58c85"), "CUSTOM2");
}

fn policy(src: &str, dst: &str, action: &str, index: NumberField) -> PolicyConf {
    PolicyConf {
        name: s("a rule"),
        source_zone: s(src),
        destination_zone: s(dst),
        index: Some(index),
        action: s(action),
        predefined: None,
    }
}

#[test]
fn a_policy_knows_the_rule_name_it_will_log_under() {
    let tokens = zone_tokens(&zones());
    let key = |src: &str, dst: &str, action: &str, index: i64| {
        policy_key(&policy(src, dst, action, NumberField::Number(index)), &tokens)
    };
    assert_eq!(
        key("697cd15e123a22a82ec58c85", "697bc376123a22a82ec5572b", "ALLOW", 10008).as_deref(),
        Some("CUSTOM2_CUSTOM1-A-10008")
    );
    assert_eq!(
        key("6977a4f61a33a3dda51d6e97", "6977a4f61a33a3dda51d6e94", "BLOCK", 10002).as_deref(),
        Some("DMZ_LOCAL-D-10002")
    );
    assert_eq!(
        key("6977a4f61a33a3dda51d6e94", "6977a4f61a33a3dda51d6e93", "ALLOW", 2147483647).as_deref(),
        Some("LOCAL_WAN-A-2147483647")
    );
    assert_eq!(key("weg", "6977a4f61a33a3dda51d6e93", "ALLOW", 10000), None);
}

#[test]
fn the_index_may_arrive_as_text() {
    let tokens = zone_tokens(&zones());
    let p = policy(
        "6977a4f61a33a3dda51d6e92",
        "6977a4f61a33a3dda51d6e94",
        "allow",
        NumberField::Text("10000".to_string()),
    );
    assert_eq!(policy_key(&p, &tokens).as_deref(), Some("LAN_LOCAL-A-10000"));
}

#[test]
fn a_policy_row_names_its_zones() {
    let tokens = zone_tokens(&zones());
    let mut p = policy("6977a4f61a33a3dda51d6e92", "6977a4f61a33a3dda51d6e93", "drop", NumberField::Number(7));
    p.predefined = Some(true);
    let row = policy_row(&p, &tokens).unwrap();
    assert_eq!(row.key, "LAN_WAN-D-7");
    assert_eq!(row.name, "a rule");
    assert_eq!(row.src_zone.as_deref(), Some("Internal"));
    assert_eq!(row.dst_zone.as_deref(), Some("External"));
    assert!(row.predefined);
    p.name = s("");
    assert!(policy_row(&p, &tokens).is_none(), "a policy without a name is not stored");
}

#[test]
fn actions_map_to_their_letter() {
    assert_eq!(action_letter("accept"), "A");
    assert_eq!(action_letter("Reject"), "D");
    assert_eq!(action_letter("DROP"), "D");
    assert_eq!(action_letter("redirect"), "R");
    assert_eq!(action_letter(""), "R");
}

#[test]
fn a_network_maps_to_the_bridge_it_appears_on() {
    let mut vlan15 = net(Some("corporate"), Some("IoT"));
    vlan15.vlan = Some(NumberField::Number(15));
    vlan15.vlan_enabled = Some(true);
    assert_eq!(bridge_for(&vlan15).as_deref(), Some("br15"));

    let mut default = net(Some("corporate"), Some("LAN"));
    default.vlan_enabled = Some(false);
    assert_eq!(bridge_for(&default).as_deref(), Some("br0"));

    let mut as_text = net(Some("corporate"), Some("IoT"));
    as_text.vlan = Some(NumberField::Text("15".to_string()));
    as_text.vlan_enabled = Some(true);
    assert_eq!(bridge_for(&as_text).as_deref(), Some("br15"));

    let mut implied = net(Some("guest"), Some("Gast"));
    implied.vlan = Some(NumberField::Number(20));
    assert_eq!(bridge_for(&implied).as_deref(), Some("br20"));
}

#[test]
fn only_real_lan_segments_get_a_bridge() {
    assert_eq!(bridge_for(&net(Some("wan"), Some("WAN"))), None);
    let mut off = net(Some("corporate"), Some("Alt"));
    off.enabled = Some(false);
    assert_eq!(bridge_for(&off), None);
    assert_eq!(bridge_for(&net(Some("remote-user-vpn"), Some("VPN"))), None);
}

#[test]
fn clients_are_written_oldest_first() {
    let client = |mac: &str, seen: Option<i64>| ClientConf {
        mac: s(mac),
        ip: None,
        last_ip: None,
        name: None,
        hostname: None,
        oui: None,
        network: None,
        is_wired: None,
        last_seen: seen,
    };
    let all = vec![client("a", Some(300)), client("b", Some(100)), client("c", None)];
    let order: Vec<&str> =
        by_last_seen(&all).iter().map(|&i| all[i].mac.as_deref().unwrap()).collect();
    assert_eq!(order, ["c", "b", "a"]);
}

#[test]
fn a_historical_client_is_stored_under_its_last_address() {
    let sleeping = ClientConf {
        mac: s("AA:BB:CC:DD:EE:03"),
        ip: None,
        last_ip: s("10.0.0.9"),
        name: None,
        hostname: s("nas"),
        oui: None,
        network: None,
        is_wired: None,
        last_seen: Some(1_700_000_000),
    };
    let row = client_row(&sleeping).unwrap();
    assert_eq!(row.mac, "aa:bb:cc:dd:ee:03");
    assert_eq!(row.ip.as_deref(), Some("10.0.0.9"));
    assert_eq!(row.hostname.as_deref(), Some("nas"));
    assert_eq!(row.last_seen, 1_700_000_000);
    let nameless = ClientConf { mac: None, ..sleeping };
    assert!(client_row(&nameless).is_none());
}

#[test]
fn a_whole_controller_config_maps_without_collisions() {
    let mut wan = net(Some("wan"), Some("WAN"));
    wan.enabled = Some(true);
    wan.wan_networkgroup = s("WAN");
    let mut mgmt = net(Some("corporate"), Some("Management"));
    mgmt.vlan_enabled = Some(false);
    mgmt.enabled = Some(true);
    let vlan = |name: &str, v: i64| {
        let mut n = net(Some("corporate"), Some(name));
        n.vlan = Some(NumberField::Number(v));
        n.vlan_enabled = Some(true);
        n.enabled = Some(true);
        n
    };
    let networks = vec![
        wan,
        mgmt,
        vlan("#0 - Server", 10),
        vlan("#2 - Guests", 20),
        vlan("#1 - Internal", 15),
        net(Some("remote-user-vpn"), Some("Wireguard Server")),
        net(Some("vpn-client"), Some("VPN Provider")),
    ];
    let bridges: Vec<(String, String)> = networks
        .iter()
        .filter_map(|n| bridge_for(n).map(|b| (b, n.name.clone().unwrap_or_default())))
        .collect();
    assert_eq!(
        bridges,
        [
            ("br0".to_string(), "Management".to_string()),
            ("br10".to_string(), "#0 - Server".to_string()),
            ("br20".to_string(), "#2 - Guests".to_string()),
            ("br15".to_string(), "#1 - Internal".to_string()),
        ]
    );
    let devices = vec![DeviceConf { wan1_ifname: s("eth1"), ..device() }];
    assert_eq!(wan_interfaces(&devices, &networks), [("eth1".to_string(), "WAN".to_string())]);

    let entries = network_entries(&networks, &devices);
    assert_eq!(entries.len(), 5);
    assert_eq!(entries[1].iface, "br10");
    assert_eq!(entries[1].vlan, Some(10));
    assert_eq!(entries[4].iface, "eth1");
    assert_eq!(entries[4].purpose.as_deref(), Some("wan"));
}

#[test]
fn the_wan_interface_comes_from_the_device() {
    let devices = vec![device(), DeviceConf { wan1_ifname: s("eth1"), ..device() }];
    let mut internet = net(Some("wan"), Some("Internet"));
    internet.wan_networkgroup = s("WAN");
    let networks = vec![internet];
    assert_eq!(wan_interfaces(&devices, &networks), [("eth1".to_string(), "Internet".to_string())]);
    assert_eq!(wan_interfaces(&devices, &[]), [("eth1".to_string(), "WAN".to_string())]);
    assert!(wan_interfaces(&[DeviceConf { name: s("switch"), ..device() }], &networks).is_empty());
}

#[test]
fn device_addresses_gather_every_name_there_is() {
    let clients = vec![
        ("10.10.15.56".to_string(), "MacBook Pro".to_string()),
        ("10.10.15.93".to_string(), "HP1234".to_string()),
    ];
    let devices = vec![
        DeviceConf { kind: s("udm"), name: s("Express 7"), ip: s("31.16.242.153"), ..device() },
        DeviceConf { kind: s("uap"), name: s("U7 Pro"), ip: s("10.10.0.2"), ..device() },
    ];
    let mut lan = net(Some("corporate"), Some("#1 - VLAN15 - Intern"));
    lan.ip_subnet = s("10.10.15.1/24");
    let networks = vec![lan, net(Some("wan"), Some("WAN"))];
    let rows = address_names(&clients, &devices, &networks);
    let name_of = |ip: &str| rows.iter().rev().find(|(a, _, _)| a == ip).map(|(_, n, _)| n.clone());
    assert_eq!(name_of("10.10.15.56").as_deref(), Some("MacBook Pro"));
    assert_eq!(name_of("10.10.15.93").as_deref(), Some("HP1234"));
    assert_eq!(name_of("10.10.0.2").as_deref(), Some("U7 Pro"));
    assert_eq!(name_of("10.10.15.1").as_deref(), Some("Express 7"));
    assert_eq!(name_of("31.16.242.153").as_deref(), Some("Express 7"));
    assert_eq!(rows.len(), 5, "{rows:?}");
    assert_eq!(rows[2].2, "gateway");
}

#[test]
fn the_gateway_address_is_read_from_the_subnet() {
    let mut n = net(Some("corporate"), Some("LAN"));
    n.ip_subnet = s(" 10.10.15.1 /24");
    assert_eq!(gateway_ip(&n).as_deref(), Some("10.10.15.1"));
    n.ip_subnet = s("not an address/24");
    assert_eq!(gateway_ip(&n), None);
    let mut w = net(Some("wan"), Some("WAN"));
    w.ip_subnet = s("1.2.3.4/24");
    assert_eq!(gateway_ip(&w), None);
}

#[test]
fn the_wan_addresses_are_those_the_device_reports() {
    let devices = vec![
        DeviceConf { wan1_ip: s("31.16.242.153"), wan2_ip: s("bogus"), wan1_ifname: s("eth4"), ..device() },
        DeviceConf { wan1_ip: s("31.16.242.153"), wan2_ifname: s("ppp0"), ..device() },
    ];
    assert_eq!(wan_addresses(&devices), vec!["31.16.242.153".to_string()]);
    assert_eq!(wan_ifnames(&devices), vec!["eth4".to_string(), "ppp0".to_string()]);
}

#[test]
fn a_device_row_carries_its_display_name() {
    let d = DeviceConf { mac: s("AA:BB:CC:00:11:22"), hostname: s("ap"), model: s("U7PRO"), ..device() };
    let row = device_row(&d).unwrap();
    assert_eq!(row.mac, "aa:bb:cc:00:11:22");
    assert_eq!(row.name.as_deref(), Some("ap"));
    assert!(device_row(&device()).is_none());
}

#[test]
fn the_controller_is_asked_behind_the_proxy_first() {
    let (a, b) = api_urls("https://gw", "default", "stat/sta", false);
    assert_eq!(a, "https://gw/proxy/network/api/s/default/stat/sta");
    assert_eq!(b, "https://gw/api/s/default/stat/sta");
    let (a, b) = api_urls("https://gw", "x", "firewall/zone", true);
    assert_eq!(a, "https://gw/proxy/network/v2/api/site/x/firewall/zone");
    assert_eq!(b, "https://gw/v2/api/site/x/firewall/zone");
    assert_eq!(unifi_site(String::new()), "default");
    assert_eq!(unifi_site("home".to_string()), "home");
}

#[test]
fn a_refused_key_is_a_credentials_problem() {
    assert_eq!(unifi_test_outcome(Ok(3), Ok(2)), UnifiTest::Connected { clients: 3, devices: 2 });
    assert_eq!(
        unifi_test_outcome(Ok(3), Err("unauthorized".to_string())),
        UnifiTest::BadCredentials
    );
    assert_eq!(
        unifi_test_outcome(Err("timeout".to_string()), Err("status 500".to_string())),
        UnifiTest::Unreachable("timeout".to_string())
    );
}

#[test]
fn the_controller_settings_count_only_when_switched_on_with_an_address() {
    assert_eq!(unifi_config(Some(false), s("https://c"), s("k"), s("x")), None);
    assert_eq!(unifi_config(None, s("https://c"), s("k"), s("x")), None);
    assert_eq!(unifi_config(Some(true), s(""), s("k"), s("x")), None);
    assert_eq!(unifi_config(Some(true), None, s("k"), s("x")), None);
    assert_eq!(
        unifi_config(Some(true), s("https://c"), None, s("")),
        Some(("https://c".to_string(), String::new(), String::new()))
    );
    assert_eq!(
        unifi_config(Some(true), s("https://c"), s("k3y"), s("site2")),
        Some(("https://c".to_string(), "k3y".to_string(), "site2".to_string()))
    );
}
