use uip::services::{display_name, is_known_protocol, parse_service_rows};

#[test]
fn skips_ranges_and_empty_names() {
    let csv = "Service Name,Port Number,Transport Protocol,Description\n\
                http,80,tcp,World Wide Web HTTP\n\
                ,90,tcp,Reserved without a name\n\
                dixie,1000-1004,udp,DIXIE Protocol Specification\n\
                https,443,tcp,HTTP over TLS/SSL\n\
                weird,123,carrier-pigeon,not a real transport\n";
    let rows = parse_service_rows(csv);
    assert_eq!(rows.len(), 2, "only http and https should survive: {rows:?}");
    assert!(rows.contains(&(80, "tcp".to_string(), "http".to_string())));
    assert!(rows.contains(&(443, "tcp".to_string(), "https".to_string())));
}

#[test]
fn display_name_applies_the_dns_override_and_uppercases() {
    assert_eq!(display_name("domain"), "DNS");
    assert_eq!(display_name("DOMAIN"), "DNS");
    assert_eq!(display_name("https"), "HTTPS");
    assert_eq!(display_name("secure-mqtt"), "SECURE-MQTT");
}

#[test]
fn the_protocol_is_read_case_blind_and_trimmed() {
    let csv = "Service Name,Port Number,Transport Protocol,Description\n\
               ssh , 22 , TCP ,Secure Shell\n\
               bad,port,udp,not a number\n";
    let rows = parse_service_rows(csv);
    assert_eq!(rows, vec![(22, "tcp".to_string(), "ssh".to_string())]);
}

#[test]
fn only_the_four_transports_are_known() {
    for p in ["tcp", "udp", "sctp", "dccp"] {
        assert!(is_known_protocol(p), "{p}");
    }
    assert!(!is_known_protocol("TCP"));
    assert!(!is_known_protocol("icmp"));
    assert!(!is_known_protocol(""));
}
