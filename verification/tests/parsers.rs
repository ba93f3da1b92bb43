use chrono::{TimeZone, Utc};
use uip::firewall::FirewallCtx;
use uip::net::ip_to_string;
use uip::parsers::{detect_log_type, parse_dhcp, parse_dns, parse_log, parse_wifi};
use uip::types::{Details, FieldMap, LogType};

fn now() -> i64 {
    Utc.with_ymd_and_hms(2026, 9, 13, 12, 0, 0).unwrap().timestamp()
}

fn ctx() -> FirewallCtx {
    FirewallCtx { wan_interfaces: Vec::new(), wan_ips: Vec::new() }
}

fn document(d: Option<Details>) -> serde_json::Value {
    match d {
        Some(Details::Document(s)) => serde_json::from_str(&s).unwrap(),
        other => panic!("expected a document, got {other:?}"),
    }
}

fn fields(d: Option<Details>) -> FieldMap {
    match d {
        Some(Details::Fields(m)) => m,
        other => panic!("expected named details, got {other:?}"),
    }
}

#[test]
fn detect_types() {
    assert_eq!(detect_log_type("kernel: [X]IN=a OUT=b SRC=1.1.1.1 DST=2.2.2.2 PROTO=TCP"), LogType::Firewall);
    assert_eq!(detect_log_type("dnsmasq-dhcp[1234]: DHCPACK(br0) 192.168.1.100 aa:bb:cc:dd:ee:ff host1"), LogType::Dhcp);
    assert_eq!(detect_log_type("dnsmasq[1234]: query[A] example.com from 192.168.1.5"), LogType::Dns);
    assert_eq!(detect_log_type("hostapd: ath0: STA aa:bb:cc:dd:ee:ff IEEE 802.11: associated"), LogType::Wifi);
    assert_eq!(detect_log_type("systemd[1]: Started thing."), LogType::System);
}

#[test]
fn dns_query_reply_forward_cached() {
    let p = parse_dns("dnsmasq[1234]: query[A] example.com from 192.168.1.5");
    assert_eq!(p.dns_type.as_deref(), Some("A"));
    assert_eq!(p.dns_query.as_deref(), Some("example.com"));
    assert_eq!(ip_to_string(p.src_ip.unwrap()), "192.168.1.5");
    let p = parse_dns("dnsmasq[1234]: reply example.com is 1.2.3.4");
    assert_eq!(p.dns_answer.as_deref(), Some("1.2.3.4"));
    let p = parse_dns("dnsmasq[1234]: forwarded example.com to 8.8.8.8");
    assert_eq!(ip_to_string(p.dst_ip.unwrap()), "8.8.8.8");
    let p = parse_dns("dnsmasq[1234]: cached example.com is 1.2.3.4");
    assert_eq!(p.dns_answer.as_deref(), Some("1.2.3.4"));
    let p = parse_dns("dnsmasq[1234]: some unknown line");
    assert_eq!(p.dns_query, None);
}

#[test]
fn dhcp_events() {
    let p = parse_dhcp("dnsmasq-dhcp[1234]: DHCPACK(br0) 192.168.1.100 aa:bb:cc:dd:ee:ff myhost");
    assert_eq!(p.dhcp_event.as_deref(), Some("DHCPACK"));
    assert_eq!(p.interface_in.as_deref(), Some("br0"));
    assert_eq!(ip_to_string(p.src_ip.unwrap()), "192.168.1.100");
    assert_eq!(p.mac_address.as_deref(), Some("aa:bb:cc:dd:ee:ff"));
    assert_eq!(p.hostname.as_deref(), Some("myhost"));
    let p = parse_dhcp("dnsmasq-dhcp[1234]: DHCPDISCOVER(br0) aa:bb:cc:dd:ee:ff");
    assert_eq!(p.dhcp_event.as_deref(), Some("DHCPDISCOVER"));
    assert_eq!(p.src_ip, None);
    let p = parse_dhcp("dnsmasq-dhcp[1234]: DHCPACK(br0) 192.168.1.100 aa:bb:cc:dd:ee:ff");
    assert_eq!(p.hostname, None);
}

#[test]
fn wifi_assoc() {
    let p = parse_wifi("hostapd: ath0: STA aa:bb:cc:dd:ee:ff IEEE 802.11: associated");
    assert_eq!(p.wifi_event.as_deref(), Some("associated"));
    assert_eq!(p.mac_address.as_deref(), Some("aa:bb:cc:dd:ee:ff"));
    let p = parse_wifi(r#"stahtd[999]: stahtd: {"mac":"aa:bb:cc:dd:ee:ff","event_type":"probe"}"#);
    assert_eq!(p.wifi_event.as_deref(), Some("probe"));
}

#[test]
fn wifi_lines_say_what_happened() {
    let p = parse_wifi("hostapd: ath0: STA aa:bb:cc:dd:ee:ff IEEE 802.11: associated");
    assert_eq!(p.wifi_event.as_deref(), Some("associated"));
    assert_eq!(p.interface_in.as_deref(), Some("ath0"));
    let p = parse_wifi("hostapd: ath0: STA aa:bb:cc:dd:ee:ff IEEE 802.11: disassociated");
    assert_eq!(p.wifi_event.as_deref(), Some("disassociated"));
    let p = parse_wifi("hostapd: ath0: STA aa:bb:cc:dd:ee:ff WPA: group key handshake completed");
    assert_eq!(p.wifi_event.as_deref(), Some("key handshake completed"));
    let p = parse_wifi(r#"stahtd[999]: stahtd: {"mac":"aa:bb:cc:dd:ee:ff","event_type":"probe","rssi":-61}"#);
    assert_eq!(p.wifi_event.as_deref(), Some("probe"));
    assert_eq!(document(p.details)["rssi"], -61);
}

#[test]
fn dhcp_events_beyond_the_common_four() {
    assert_eq!(
        detect_log_type("dnsmasq-dhcp[123]: DHCPRELEASE(br15) 10.10.15.93 ac:df:a1:08:fc:26"),
        LogType::Dhcp
    );
    let p = parse_dhcp("dnsmasq-dhcp[123]: DHCPRELEASE(br15) 10.10.15.93 ac:df:a1:08:fc:26");
    assert_eq!(p.dhcp_event.as_deref(), Some("DHCPRELEASE"));
    assert_eq!(ip_to_string(p.src_ip.unwrap()), "10.10.15.93");
    let p = parse_dhcp("dnsmasq-dhcp[123]: DHCPNAK(br15) 10.10.15.93 ac:df:a1:08:fc:26 wrong network");
    assert_eq!(p.dhcp_event.as_deref(), Some("DHCPNAK"));
}

#[test]
fn dhcp_takes_the_name_wherever_it_stands() {
    let p = parse_dhcp("dnsmasq-dhcp[123]: DHCPREQUEST(br15) 10.10.15.93 ac:df:a1:08:fc:26 Annas-iPhone");
    assert_eq!(p.hostname.as_deref(), Some("Annas-iPhone"));
}

#[test]
fn a_system_line_knows_its_program_and_severity() {
    let p = parse_log(
        "<30>Sep 19 08:14:32 Express-7 Express-7 systemd[1]: systemd-timedated.service: Succeeded.",
        now(),
        &ctx(),
    )
    .unwrap();
    assert_eq!(p.log_type, Some(LogType::System));
    assert_eq!(p.program.as_deref(), Some("systemd"), "the doubled host name does not count");
    assert_eq!(p.severity, Some(6));

    let p = parse_log("<11>Sep 19 07:49:50 Express-7 Express-7 mca-ctrl[2020070]: fail", now(), &ctx()).unwrap();
    assert_eq!(p.program.as_deref(), Some("mca-ctrl"));
    assert_eq!(p.severity, Some(3), "11 = facility 1, severity 3 (error)");

    let p = parse_log("Sep 19 07:49:50 UDR kernel: x", now(), &ctx()).unwrap();
    assert_eq!(p.severity, None);
    assert_eq!(p.program.as_deref(), Some("kernel"));
}

#[test]
fn a_cef_event_from_the_gateway_is_parsed() {
    let p = parse_log(
        "Sep 19 08:04:24 Express-7 CEF:0|Ubiquiti|UniFi Network|10.6.106|400|WiFi Client Connected|1|UNIFIclientAlias=iPhone Air UNIFIclientMac=70:13:84:65:dc:3a UNIFIclientIp=10.10.15.98 UNIFIwifiName=#1 msg=iPhone Air connected to #1 on U7 Pro.",
        now(),
        &ctx(),
    )
    .unwrap();
    assert_eq!(p.log_type, Some(LogType::Wifi));
    assert_eq!(p.wifi_event.as_deref(), Some("connected"));
    assert_eq!(p.program.as_deref(), Some("unifi"));
    assert_eq!(fields(p.details).text("wifiName").as_deref(), Some("#1"));
}

#[test]
fn full_line_dispatch_and_invalid_mac_dropped() {
    let p = parse_log("Feb  8 16:43:49 UDR dnsmasq[1234]: query[A] example.com from 192.168.1.5", now(), &ctx()).unwrap();
    assert_eq!(p.log_type, Some(LogType::Dns));
    assert!(p.timestamp.is_some());
    assert_eq!(p.raw_log, "Feb  8 16:43:49 UDR dnsmasq[1234]: query[A] example.com from 192.168.1.5");
    let p = parse_log("Feb  8 16:43:49 UDR hostapd: ath0: STA aa:bb:cc IEEE 802.11: associated", now(), &ctx()).unwrap();
    assert_eq!(p.mac_address, None);
    assert!(parse_log("garbage", now(), &ctx()).is_none());
}
