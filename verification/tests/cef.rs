use uip::cef::{extension, is_cef, parse_cef};
use uip::net::ip_to_string;
use uip::types::{Details, FieldMap, LogType, RuleAction};

const WIFI: &str = "CEF:0|Ubiquiti|UniFi Network|10.6.106|400|WiFi Client Connected|1|UNIFIcategory=Client Devices UNIFIhost=Express 7 UNIFIconnectedToDeviceName=U7 Pro UNIFIclientAlias=iPhone Air UNIFIclientHostname=iPhone-Air UNIFIclientIp=10.10.15.98 UNIFIclientMac=70:13:84:65:dc:3a UNIFIwifiChannel=37 UNIFIwifiName=#1 UNIFIwifiBand=6e UNIFIWiFiRssi=-60 UNIFInetworkName=#1 - VLAN15 - Intern UNIFInetworkVlan=15 msg=iPhone Air connected to #1 on U7 Pro. Connection Info: Ch. 37 (6 GHz, 160 MHz), -60 dBm. IP: 10.10.15.98";

const BLOCK: &str = "CEF:0|Ubiquiti|UniFi Network|10.6.106|203|Blocked by Firewall|4|UNIFIcategory=Security UNIFIhost=Express 7 proto=TCP spt=48742 dpt=25 act=blocked app=SMTP UNIFIrisk=low UNIFIpolicyName=VL10 -> WAN - Drop All UNIFIdirection=outgoing dst=80.241.60.215 UNIFIsrcClientAlias=Proxmox Backup Server UNIFIsrcClientIp=10.10.10.9 UNIFIsrcClientMac=bc:24:11:63:4c:59 UNIFIdstDomain=mxext2.mailbox.org UNIFIflowId=null msg=Proxmox Backup Server was blocked from accessing 80.241.60.215 by the VL10 -> WAN - Drop All Firewall Policy.";

fn fields(d: Option<Details>) -> FieldMap {
    match d {
        Some(Details::Fields(m)) => m,
        other => panic!("expected named details, got {other:?}"),
    }
}

#[test]
fn a_wifi_event_becomes_a_wifi_row() {
    let p = parse_cef(WIFI).unwrap();
    assert_eq!(p.log_type, Some(LogType::Wifi));
    assert_eq!(p.wifi_event.as_deref(), Some("connected"));
    assert_eq!(p.mac_address.as_deref(), Some("70:13:84:65:dc:3a"));
    assert_eq!(p.src_ip.map(ip_to_string).as_deref(), Some("10.10.15.98"));
    assert_eq!(p.hostname.as_deref(), Some("iPhone Air"));
    assert_eq!(p.interface_in.as_deref(), Some("#1 - VLAN15 - Intern"));
    assert_eq!(p.severity, Some(6));

    let d = fields(p.details);
    assert_eq!(d.text("event").as_deref(), Some("WiFi Client Connected"));
    assert_eq!(d.text("connectedToDeviceName").as_deref(), Some("U7 Pro"), "the access point");
    assert_eq!(d.text("wifiName").as_deref(), Some("#1"), "the SSID");
    assert_eq!(d.text("wiFiRssi").as_deref(), Some("-60"));
    assert_eq!(d.text("wifiChannel").as_deref(), Some("37"));
    assert!(d.text("msg").unwrap().starts_with("iPhone Air connected to #1"));
}

#[test]
fn a_blocked_flow_keeps_what_the_kernel_line_does_not_know() {
    let p = parse_cef(BLOCK).unwrap();
    assert_eq!(p.log_type, Some(LogType::System));
    assert_eq!(p.rule_action, Some(RuleAction::Block));
    assert_eq!(p.rule_name.as_deref(), Some("VL10 -> WAN - Drop All"));
    assert_eq!(p.src_ip.map(ip_to_string).as_deref(), Some("10.10.10.9"));
    assert_eq!(p.dst_ip.map(ip_to_string).as_deref(), Some("80.241.60.215"));
    assert_eq!(p.dst_port, Some(25));
    assert_eq!(p.protocol.as_deref(), Some("TCP"));
    assert_eq!(p.severity, Some(4));

    let d = fields(p.details);
    assert_eq!(d.text("dstDomain").as_deref(), Some("mxext2.mailbox.org"));
    assert_eq!(d.text("app").as_deref(), Some("SMTP"));
    assert_eq!(d.text("risk").as_deref(), Some("low"));
    assert!(d.get("flowId").is_none());
}

#[test]
fn values_may_contain_spaces_and_dashes() {
    let f = extension("UNIFIpolicyName=VL10 -> WAN - Drop All UNIFIdirection=outgoing dst=1.2.3.4");
    assert_eq!(f.text("policyName").as_deref(), Some("VL10 -> WAN - Drop All"));
    assert_eq!(f.text("direction").as_deref(), Some("outgoing"));
    assert_eq!(f.text("dst").as_deref(), Some("1.2.3.4"));
}

#[test]
fn the_message_runs_to_the_end_of_the_line() {
    let f = extension("a=1 msg=Ein Satz mit Ch. 37 (6 GHz), -60 dBm. IP: 10.10.15.98");
    assert_eq!(f.text("msg").as_deref(), Some("Ein Satz mit Ch. 37 (6 GHz), -60 dBm. IP: 10.10.15.98"));
}

#[test]
fn a_line_that_is_not_cef_is_not_parsed() {
    assert!(!is_cef("systemd[1]: Started thing."));
    assert!(is_cef(BLOCK));
    assert!(parse_cef("CEF:0|zu wenig Felder").is_none());
}
