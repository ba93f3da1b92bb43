use uip::net::{parse_ip, parse_network};
use uip::search::{parse_search, Field, Term, Value};

fn one(q: &str) -> Term {
    let terms = parse_search(q);
    assert_eq!(terms.len(), 1, "expected exactly one term from {q:?}");
    terms.into_iter().next().unwrap()
}

#[test]
fn a_full_address_is_an_address() {
    let t = one("10.0.0.5");
    assert_eq!(t.value, Value::Ip(parse_ip("10.0.0.5").unwrap()));
    assert!(!t.negated);
    assert_eq!(t.field, None);
}

#[test]
fn an_address_does_not_match_a_longer_one() {
    assert_eq!(one("10.10.10.10").value, Value::Ip(parse_ip("10.10.10.10").unwrap()));
}

#[test]
fn a_partial_address_becomes_a_network() {
    for q in ["10.10.30.", "10.10.30.*", "10.10.30"] {
        assert_eq!(one(q).value, Value::Cidr(parse_network("10.10.30.0/24").unwrap()), "for {q:?}");
    }
}

#[test]
fn an_explicit_network_stays_one() {
    assert_eq!(one("10.10.30.0/24").value, Value::Cidr(parse_network("10.10.30.0/24").unwrap()));
}

#[test]
fn a_bare_number_is_a_port() {
    assert_eq!(one("443").value, Value::Port(443));
    assert_eq!(one("10").value, Value::Port(10));
    assert_eq!(one("70000").value, Value::Text("70000".into()));
}

#[test]
fn a_mac_is_a_mac() {
    assert_eq!(one("AA:BB:CC:DD:EE:FF").value, Value::Mac("aa:bb:cc:dd:ee:ff".into()));
}

#[test]
fn a_prefix_scopes_a_term() {
    let t = one("src:10.0.0.5");
    assert_eq!(t.field, Some(Field::SrcIp));
    assert_eq!(t.value, Value::Ip(parse_ip("10.0.0.5").unwrap()));
}

#[test]
fn an_unknown_prefix_is_not_a_scope() {
    let t = one("foo:bar");
    assert_eq!(t.field, None);
    assert_eq!(t.value, Value::Text("foo:bar".into()));
}

#[test]
fn terms_can_be_negated_both_ways() {
    assert!(one("!tcp").negated);
    assert!(one("-tcp").negated);
    assert_eq!(one("!tcp").value, Value::Text("tcp".into()));
    assert!(!one("a-b").negated);
    assert!(parse_search("!").is_empty());
    assert!(parse_search("-").is_empty());
}

#[test]
fn quoted_values_stay_together() {
    let t = one(r#"rule:"LAN to WAN""#);
    assert_eq!(t.field, Some(Field::Rule));
    assert_eq!(t.value, Value::Text("LAN to WAN".into()));
}

#[test]
fn an_unbalanced_quote_still_parses() {
    let terms = parse_search(r#"nas "denied"#);
    assert_eq!(terms.len(), 2);
    assert_eq!(terms[0].value, Value::Text("nas".into()));
}

#[test]
fn several_terms_all_apply() {
    let terms = parse_search("10.10.30.0/24 443 !tcp");
    assert_eq!(terms.len(), 3);
    assert!(matches!(terms[0].value, Value::Cidr(_)));
    assert_eq!(terms[1].value, Value::Port(443));
    assert!(terms[2].negated);
}

#[test]
fn a_star_makes_text_a_pattern() {
    let t = one("nas*");
    assert_eq!(t.value, Value::Text("nas*".into()));
    assert!(t.glob);
}

#[test]
fn nothing_in_nothing_out() {
    assert!(parse_search("").is_empty());
    assert!(parse_search("   ").is_empty());
}

#[test]
fn an_asn_prefix_takes_the_number() {
    let t = one("asn:3320");
    assert_eq!(t.field, Some(Field::Asn));
    assert_eq!(t.value, Value::Asn(3320));
    // A name under asn: stays text.
    assert_eq!(one("asn:Telekom").value, Value::Text("Telekom".into()));
}

#[test]
fn program_and_severity_prefixes_scope() {
    assert_eq!(one("prog:mca").field, Some(Field::Program));
    assert_eq!(one("sev:warn").field, Some(Field::Severity));
    assert_eq!(one("SEVERITY:warn").field, Some(Field::Severity));
}

#[test]
fn an_empty_scope_is_no_scope() {
    let t = one("src:");
    assert_eq!(t.field, None);
    assert_eq!(t.value, Value::Text("src:".into()));
}

#[test]
fn one_term_per_token_in_order_with_its_sign() {
    let terms = parse_search("10.10.30.0/24 443 !tcp");
    assert_eq!(terms.len(), 3);
    assert_eq!(terms[0].value, Value::Cidr(parse_network("10.10.30.0/24").unwrap()));
    assert_eq!(terms[1].value, Value::Port(443));
    assert_eq!(terms[2].value, Value::Text("tcp".into()));
    assert_eq!(terms.iter().map(|t| t.negated).collect::<Vec<_>>(), vec![false, false, true]);
    let signs = parse_search("a ! - -b");
    assert_eq!(signs.len(), 2, "lone signs make no term");
    assert!(!signs[0].negated && signs[1].negated);
    assert!(parse_search("   ").is_empty());
}
