use uip::filters::{
    action_id, comma_list, direction_id, ids, log_type_id, number_field_value, parse_number_field,
    range_start, severity_level, IdTable, Joins, LogFilter,
};
use uip::sql::{Bind, Piece};
use uip::types::LogType;

#[test]
fn is_unfiltered_is_true_only_for_a_bare_default() {
    assert!(LogFilter::default().is_unfiltered());
    assert!(!LogFilter { q: Some("x".into()), ..Default::default() }.is_unfiltered());
    assert!(!LogFilter { action: vec!["block".into()], ..Default::default() }.is_unfiltered());
    assert!(!LogFilter { port: Some(443), ..Default::default() }.is_unfiltered());
}

#[test]
fn numeric_fields_survive_a_flattened_query() {
    // A flattened query string hands every value over as text.
    assert_eq!(parse_number_field("443"), Ok(Some(443)));
    assert_eq!(parse_number_field("80"), Ok(Some(80)));
    // An empty field is no filter, not an error.
    assert_eq!(parse_number_field(""), Ok(None));
    assert_eq!(parse_number_field("  "), Ok(None));
    // What is no whole number is refused.
    assert_eq!(parse_number_field("abc"), Err(()));
    assert_eq!(parse_number_field("99999999999"), Err(()));
    // A number that arrives as a number goes the same way.
    assert_eq!(number_field_value(443), Ok(Some(443)));
    assert_eq!(number_field_value(1 << 40), Err(()));
}

#[test]
fn lists_arrive_comma_separated() {
    assert_eq!(comma_list(Some("block, allow,,")), vec!["block".to_string(), "allow".to_string()]);
    assert!(comma_list(Some("")).is_empty());
    assert!(comma_list(None).is_empty());
}

#[test]
fn names_map_to_their_ids() {
    assert_eq!(log_type_id("firewall"), Some(1));
    assert_eq!(log_type_id("system"), Some(5));
    assert_eq!(action_id("block"), Some(2));
    assert_eq!(direction_id("inter_vlan"), Some(4));
    assert_eq!(action_id("bogus"), None);
    let names = vec!["dns".to_string(), "bogus".to_string(), "wifi".to_string()];
    assert_eq!(ids(&names, IdTable::LogType), vec![2, 4]);
}

#[test]
fn severities_are_read_by_number_or_name() {
    assert_eq!(severity_level("3"), Some(3));
    assert_eq!(severity_level("8"), None);
    assert_eq!(severity_level(" Err "), Some(3));
    assert_eq!(severity_level("warning"), Some(4));
    assert_eq!(severity_level("nonsense"), None);
}

#[test]
fn a_range_counts_back_from_now() {
    let now = 1_700_000_000_000_000;
    assert_eq!(range_start("24h", now), Some(now - 24 * 3_600_000_000));
    assert_eq!(range_start("7d", now), Some(now - 7 * 86_400_000_000));
    assert_eq!(range_start("30m", now), Some(now - 30 * 60_000_000));
    assert_eq!(range_start("7w", now), None);
    assert_eq!(range_start("", now), None);
    assert_eq!(range_start("h", now), None);
    assert_eq!(range_start("9999999999999999d", now), None);
}

#[test]
fn a_port_filter_binds_the_port_on_both_sides() {
    let f = LogFilter { port: Some(443), ..Default::default() };
    let mut q: Vec<Piece> = Vec::new();
    f.push_where_at(&mut q, 0);
    assert_eq!(
        q,
        vec![
            Piece::Sql(" WHERE TRUE"),
            Piece::Sql(" AND (l.src_port = "),
            Piece::Arg(Bind::Int(443)),
            Piece::Sql(" OR l.dst_port = "),
            Piece::Arg(Bind::Int(443)),
            Piece::Sql(")"),
        ]
    );
}

#[test]
fn no_filter_is_where_true() {
    let mut q: Vec<Piece> = Vec::new();
    LogFilter::default().push_where_at(&mut q, 0);
    assert_eq!(q, vec![Piece::Sql(" WHERE TRUE")]);
}

#[test]
fn a_protocol_filter_needs_the_protocol_table() {
    let f = LogFilter { proto: vec!["tcp".into()], ..Default::default() };
    let j = f.needed_joins();
    assert!(j.protocols);
    assert!(!j.rules);
    assert!(!LogFilter::default().needed_joins().protocols);
    let both = Joins::none().rules().or(Joins::none().hostnames());
    assert!(both.rules && both.hostnames && !both.interfaces);
}

fn sql_text(q: &[Piece]) -> String {
    q.iter()
        .filter_map(|p| match p {
            Piece::Sql(s) => Some(*s),
            Piece::Arg(_) => None,
        })
        .collect()
}

#[test]
fn text_under_an_address_prefix_joins_every_table_it_reads() {
    let f = LogFilter { q: Some("src:foo".into()), ..Default::default() };
    let mut q: Vec<Piece> = Vec::new();
    f.push_joins(&mut q, Joins::none());
    f.push_where_at(&mut q, 1_700_000_000_000_000);
    let text = sql_text(&q);
    for (alias, join) in [
        ("r.name", " LEFT JOIN rules r "),
        ("ii.name", " LEFT JOIN interfaces ii "),
        ("io.name", " LEFT JOIN interfaces io "),
        ("pr.name", " LEFT JOIN protocols pr "),
        ("dn.name", " LEFT JOIN device_names dn "),
        ("pg.name", " LEFT JOIN programs pg "),
    ] {
        assert!(text.contains(alias), "{alias} is read");
        assert!(text.contains(join), "{join} is there for it");
    }
    let country = LogFilter { q: Some("country:de".into()), ..Default::default() };
    assert!(!country.needed_joins().rules, "a country is a column of the row");
}

#[test]
fn every_log_type_finds_its_own_id_by_name_and_nothing_else_does() {
    for t in [LogType::Firewall, LogType::Dns, LogType::Dhcp, LogType::Wifi, LogType::System] {
        assert_eq!(log_type_id(t.as_str()), Some(t.id()));
    }
    assert_eq!(log_type_id("bogus"), None);
    assert_eq!(log_type_id("Firewall"), None);
    assert_eq!(action_id("block"), Some(2));
    assert_eq!(direction_id("inter_vlan"), Some(4));
}

#[test]
fn a_filter_is_the_and_of_its_fields_taken_alone() {
    let f = LogFilter {
        log_type: vec!["firewall".into()],
        action: vec!["allow".into()],
        port: Some(53),
        q: Some("53 -dns".into()),
        ..Default::default()
    };
    let mut whole: Vec<Piece> = Vec::new();
    f.push_where_at(&mut whole, 0);
    let alone = [
        LogFilter { log_type: f.log_type.clone(), ..Default::default() },
        LogFilter { action: f.action.clone(), ..Default::default() },
        LogFilter { port: f.port, ..Default::default() },
        LogFilter { q: f.q.clone(), ..Default::default() },
    ];
    let mut joined: Vec<Piece> = vec![Piece::Sql(" WHERE TRUE")];
    for g in &alone {
        let mut q: Vec<Piece> = Vec::new();
        g.push_where_at(&mut q, 0);
        assert_eq!(q[0], Piece::Sql(" WHERE TRUE"));
        assert!(q.len() > 1, "a set field adds a condition");
        match &q[1] {
            Piece::Sql(s) => assert!(s.starts_with(" AND "), "{s} begins with AND"),
            Piece::Arg(_) => panic!("a condition begins with text"),
        }
        joined.extend(q.into_iter().skip(1));
    }
    assert_eq!(whole, joined);
    let terms = sql_text(&whole).matches(" AND (").count() + sql_text(&whole).matches(" AND NOT COALESCE((").count();
    assert!(terms >= 3, "the action and each of the two search terms add their own condition");
}
