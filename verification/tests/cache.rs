use uip::api::key;
use uip::cache::{cacheable, RdnsCache, ResponseCache, MAX_ENTRIES, TTL_MS};
use uip::net::parse_ip;

#[test]
fn an_answer_is_kept_and_found_again() {
    let mut cache = ResponseCache::new();
    cache.put(key("/api/stats", Some("range=24h")), b"{\"total\":7}".to_vec(), 0);
    assert_eq!(cache.get(&key("/api/stats", Some("range=24h")), 1).as_deref(), Some(&b"{\"total\":7}"[..]));
    assert!(cache.get(&key("/api/stats", Some("range=1h")), 1).is_none());
    assert!(cache.get(&key("/api/stats/series", Some("range=24h")), 1).is_none());
}

#[test]
fn the_oldest_answer_goes_when_it_gets_crowded() {
    let mut cache = ResponseCache::new();
    for i in 0..MAX_ENTRIES + 10 {
        cache.put(key("/api/stats", Some(&format!("q={i}"))), i.to_string().into_bytes(), i as i64);
    }
    assert!(cache.len() <= MAX_ENTRIES, "{} entries", cache.len());
    // The first ones went; the last one is there.
    assert!(cache.get(&key("/api/stats", Some("q=0")), 200).is_none());
    let last = MAX_ENTRIES + 9;
    assert_eq!(
        cache.get(&key("/api/stats", Some(&format!("q={last}"))), 200),
        Some(last.to_string().into_bytes())
    );
}

#[test]
fn an_answer_expires_after_its_time() {
    let mut cache = ResponseCache::new();
    cache.put("k".to_string(), b"v".to_vec(), 1_000);
    assert_eq!(cache.get("k", 1_000 + TTL_MS), Some(b"v".to_vec()));
    assert_eq!(cache.get("k", 1_001 + TTL_MS), None);
    assert_eq!(cache.len(), 0, "an expired answer is dropped");
}

#[test]
fn a_new_answer_replaces_the_old_one() {
    let mut cache = ResponseCache::new();
    cache.put("k".to_string(), b"old".to_vec(), 0);
    cache.put("k".to_string(), b"new".to_vec(), 5);
    assert_eq!(cache.len(), 1);
    assert_eq!(cache.get("k", 6), Some(b"new".to_vec()));
}

#[test]
fn only_the_aggregates_are_cached() {
    assert!(cacheable(true, "/api/stats"));
    assert!(cacheable(true, "/api/flows/sankey"));
    assert!(!cacheable(true, "/api/logs"));
    assert!(!cacheable(false, "/api/stats"));
}

#[test]
fn caches_hits_and_misses_alike() {
    let mut cache = RdnsCache::new(60_000);
    let ip = parse_ip("8.8.8.8").unwrap();
    assert!(cache.get(ip, 0).is_none());
    cache.put(ip, Some("dns.google.".into()), 0);
    assert_eq!(cache.get(ip, 1), Some(Some("dns.google.".into())));
    let other = parse_ip("1.1.1.1").unwrap();
    cache.put(other, None, 1);
    assert_eq!(cache.get(other, 2), Some(None));
}

#[test]
fn entries_expire() {
    let mut cache = RdnsCache::new(30);
    let ip = parse_ip("8.8.8.8").unwrap();
    cache.put(ip, Some("dns.google.".into()), 0);
    assert!(cache.get(ip, 60).is_none());
}
