use uip::api::{
    accepts_setting, action_name, bucket_width, cursor_text, direction_name, key, kind_of, log_type_name,
    name_change, page_limit, parse_cursor, range_duration, shown_setting, window_duration, JsonShape, Kind,
    NameChange, NameValue, Shown,
};

#[test]
fn ids_read_as_their_names() {
    assert_eq!(log_type_name(1), Some("firewall"));
    assert_eq!(log_type_name(5), Some("system"));
    assert_eq!(log_type_name(0), None);
    assert_eq!(direction_name(4), Some("inter_vlan"));
    assert_eq!(action_name(Some(2)), Some("block"));
    assert_eq!(action_name(None), None);
}

#[test]
fn logs_pagination_walks_without_gaps() {
    // The cursor handed out with a page reads back as the position of its
    // last row, so the next page starts right after it.
    for (t, id) in [(1_757_764_800_123_456i64, 42i64), (0, 0), (-5, 9), (1, -1)] {
        let c = cursor_text(t, id);
        assert_eq!(parse_cursor(&c), Some((t, id)), "{c}");
    }
    assert_eq!(cursor_text(1_757_764_800_123_456, 42), "1757764800123456:42");
    assert_eq!(parse_cursor("nonsense"), None);
    assert_eq!(parse_cursor("12:x"), None);
    assert_eq!(parse_cursor("99999999999999999999:1"), None);
}

#[test]
fn a_page_holds_at_most_a_thousand_rows() {
    assert_eq!(page_limit(None), 100);
    assert_eq!(page_limit(Some(0)), 1);
    assert_eq!(page_limit(Some(5000)), 1000);
    assert_eq!(page_limit(Some(50)), 50);
}

#[test]
fn the_cache_key_is_path_and_query() {
    assert_eq!(key("/api/stats", Some("range=24h")), "/api/stats?range=24h");
    assert_eq!(key("/api/stats", None), "/api/stats?");
    assert_ne!(key("/api/stats", Some("range=24h")), key("/api/stats", Some("range=1h")));
}

#[test]
fn unknown_keys_and_wrong_types_are_refused() {
    assert!(!accepts_setting("pihole_urlx", JsonShape::Text), "unknown key");
    assert!(!accepts_setting("rdns_enabled", JsonShape::Text), "wrong type");
    assert!(accepts_setting("pihole_url", JsonShape::Text));
    assert!(accepts_setting("rdns_enabled", JsonShape::Bool));
    assert!(accepts_setting("retention_days", JsonShape::Number));
    assert!(accepts_setting("abuseipdb_api_key", JsonShape::Text), "an emptied secret is written too");
    assert_eq!(kind_of("unifi_api_key"), Some(Kind::Secret));
    assert_eq!(kind_of("bogus"), None);
}

#[test]
fn secrets_are_never_returned() {
    assert_eq!(
        shown_setting("abuseipdb_api_key", Some("supersecret")),
        Shown::SetFlag { key: "abuseipdb_api_key_set".to_string(), set: true }
    );
    assert_eq!(
        shown_setting("pihole_password", Some("")),
        Shown::SetFlag { key: "pihole_password_set".to_string(), set: false }
    );
    assert_eq!(shown_setting("pihole_url", Some("http://pi")), Shown::AsStored);
    assert_eq!(shown_setting("abuseipdb_quota", None), Shown::Hidden);
}

#[test]
fn a_custom_name_is_stored_and_can_be_cleared() {
    assert_eq!(name_change("br15", NameValue::Text("  Intern  ".into())), NameChange::Named("Intern".into()));
    assert_eq!(name_change("br15", NameValue::Null), NameChange::Clear);
}

#[test]
fn an_empty_name_clears_instead_of_storing_nothing() {
    assert_eq!(name_change("br15", NameValue::Text("   ".into())), NameChange::Clear);
}

#[test]
fn a_name_that_is_not_a_name_is_refused() {
    assert_eq!(name_change("br15", NameValue::Other), NameChange::Refused);
    assert_eq!(name_change("br20", NameValue::Text("x".into())), NameChange::Named("x".into()));
    assert_eq!(name_change("br15", NameValue::Text("n".repeat(65))), NameChange::Refused);
    assert_eq!(name_change("br15", NameValue::Text("n".repeat(64))), NameChange::Named("n".repeat(64)));
    assert_eq!(name_change("  ", NameValue::Text("x".into())), NameChange::Refused);
}

#[test]
fn the_series_buckets_follow_the_window() {
    assert_eq!(range_duration("24h"), Some(86_400));
    assert_eq!(range_duration("7x"), None);
    assert_eq!(window_duration(None, None, Some("1h"), 10_000), 3600);
    assert_eq!(window_duration(Some(100), Some(50), None, 0), 0);
    assert_eq!(bucket_width(3600), "1 minute");
    assert_eq!(bucket_width(86_400), "15 minutes");
    assert_eq!(bucket_width(30 * 86_400), "6 hours");
}

#[test]
fn maxmind_credentials_can_be_entered_in_the_settings() {
    assert!(accepts_setting("maxmind_account_id", JsonShape::Text));
    assert!(accepts_setting("maxmind_license_key", JsonShape::Text));
    assert!(!accepts_setting("maxmind_license_key", JsonShape::Number));
    assert_eq!(
        shown_setting("maxmind_license_key", Some("k3y")),
        Shown::SetFlag { key: "maxmind_license_key_set".to_string(), set: true }
    );
}
