use uip::filters::LogFilter;
use uip::net::parse_ip;
use uip::reports::{
    count_answer, count_query, export_query, host_query, logs_query, pairs_query, sankey_limit, sankey_query,
    series_query, sources_query, stats_query, top_limit, top_query, top_row, top_what, totals, zones_query,
    HostPart, TopWhat, TotalsRow, COUNT_CAP,
};
use uip::sql::{Bind, Piece};

fn text(q: &[Piece]) -> String {
    q.iter()
        .map(|p| match p {
            Piece::Sql(s) => s.to_string(),
            Piece::Arg(_) => "$".to_string(),
        })
        .collect()
}

fn binds(q: &[Piece]) -> Vec<Bind> {
    q.iter()
        .filter_map(|p| match p {
            Piece::Arg(b) => Some(b.clone()),
            _ => None,
        })
        .collect()
}

#[test]
fn top_lists_know_their_dimensions() {
    assert_eq!(top_what("countries"), Some(TopWhat::Countries));
    assert_eq!(top_what("threats"), Some(TopWhat::Threats));
    assert_eq!(top_what("bogus"), None);
    assert_eq!(top_limit(None), 10);
    assert_eq!(top_limit(Some(0)), 1);
    assert_eq!(top_limit(Some(500)), 100);
}

#[test]
fn the_rules_list_joins_the_rules() {
    let q = top_query(TopWhat::Rules, &LogFilter::default(), 10, 0);
    let t = text(&q);
    assert!(t.contains("LEFT JOIN rules r"), "{t}");
    assert!(t.ends_with("ORDER BY n DESC LIMIT $"), "{t}");
    assert_eq!(binds(&q), vec![Bind::Long(10)]);
    let q = top_query(TopWhat::Countries, &LogFilter::default(), 10, 0);
    assert!(!text(&q).contains("LEFT JOIN rules"));
}

#[test]
fn the_interface_list_names_its_rows_afterwards() {
    let q = top_query(TopWhat::Interfaces, &LogFilter::default(), 5, 0);
    assert_eq!(q.last(), Some(&Piece::Sql(" ) t LEFT JOIN interfaces n ON n.id = t.id ORDER BY t.n DESC")));
}

#[test]
fn every_aggregate_survives_a_filter_that_needs_a_join() {
    let f = LogFilter { proto: vec!["tcp".into()], ..Default::default() };
    for w in [TopWhat::Countries, TopWhat::Ports, TopWhat::Asns, TopWhat::Threats] {
        let t = text(&top_query(w, &f, 10, 0));
        assert!(t.contains("LEFT JOIN protocols pr"), "{t}");
    }
}

#[test]
fn a_row_without_a_key_is_no_row() {
    assert_eq!(top_row(None, Some("x".into()), 3), None);
    let r = top_row(Some("DE".into()), None, 7).unwrap();
    assert_eq!((r.key.as_str(), r.label.as_str(), r.count), ("DE", "DE", 7));
    let r = top_row(Some("64500".into()), Some("Example AS".into()), 2).unwrap();
    assert_eq!(r.label, "Example AS");
}

#[test]
fn the_log_page_continues_before_the_cursor() {
    let q = logs_query(&LogFilter::default(), Some((1_000, 7)), 100, 0);
    let t = text(&q);
    assert!(t.contains(" AND (l.timestamp, l.id) < ($, $)"), "{t}");
    assert_eq!(binds(&q), vec![Bind::Time(1_000), Bind::Long(7), Bind::Long(100)]);
    let q = logs_query(&LogFilter::default(), None, 100, 0);
    assert_eq!(binds(&q), vec![Bind::Long(100)]);
    assert!(text(&q).contains("LEFT JOIN services sv"));
}

#[test]
fn the_flow_counts_firewall_rows_with_both_addresses() {
    let t = text(&sankey_query(&LogFilter::default(), 0));
    assert!(t.contains("l.log_type_id = 1 AND l.src_ip IS NOT NULL AND l.dst_ip IS NOT NULL"));
    assert!(t.contains("LEFT JOIN protocols pr"));
    assert_eq!(sankey_limit(None), 12);
    assert_eq!(sankey_limit(Some(99)), 50);
    assert_eq!(sankey_limit(Some(-1)), 1);
    let t = text(&zones_query(&LogFilter::default(), 0));
    assert!(t.contains("l.iface_in_id IS NOT NULL AND l.iface_out_id IS NOT NULL"));
}

#[test]
fn the_host_is_matched_on_either_side() {
    let ip = parse_ip("10.0.0.5").unwrap();
    for part in [HostPart::Summary, HostPart::Peers, HostPart::Services, HostPart::Rules] {
        let q = host_query(part, &LogFilter::default(), ip, 0);
        let t = text(&q);
        assert!(t.contains(" AND (l.src_ip = $ OR l.dst_ip = $)"), "{t}");
        assert!(binds(&q).iter().all(|b| *b == Bind::Ip(ip)));
    }
    let t = text(&host_query(HostPart::Rules, &LogFilter::default(), ip, 0));
    assert!(t.ends_with("LIMIT 8"));
}

fn totals_row(g_type: i32, g_dir: i32, t: Option<i16>, d: Option<i16>, n: i64) -> TotalsRow {
    TotalsRow { g_type, g_dir, log_type_id: t, direction_id: d, n, allowed: n / 2, blocked: n / 4, threats: 1 }
}

#[test]
fn stats_split_the_same_rows_three_ways() {
    let rows = vec![
        totals_row(1, 1, None, None, 8),
        totals_row(0, 1, Some(1), None, 6),
        totals_row(0, 1, Some(2), None, 2),
        totals_row(1, 0, None, Some(1), 5),
        totals_row(1, 0, None, None, 3),
    ];
    let t = totals(&rows);
    assert_eq!((t.total, t.allowed, t.blocked, t.threats), (8, 4, 2, 1));
    assert_eq!(t.by_type, vec![(Some(1), 6), (Some(2), 2)]);
    assert_eq!(t.by_direction, vec![(Some(1), 5), (None, 3)]);
}

#[test]
fn empty_database_returns_zeros_and_empty_lists() {
    let t = totals(&[]);
    assert_eq!((t.total, t.allowed, t.blocked, t.threats), (0, 0, 0, 0));
    assert!(t.by_type.is_empty() && t.by_direction.is_empty());
}

#[test]
fn filtered_count_under_cap_is_exact() {
    assert_eq!(count_answer(3), (3, true));
    assert_eq!(count_answer(COUNT_CAP), (COUNT_CAP, false));
    let f = LogFilter { port: Some(443), ..Default::default() };
    let q = count_query(&f, 0);
    assert!(text(&q).ends_with(" LIMIT $) t"));
    assert_eq!(binds(&q), vec![Bind::Int(443), Bind::Int(443), Bind::Long(COUNT_CAP)]);
}

#[test]
fn the_filter_applies_to_aggregates_too() {
    let f = LogFilter { action: vec!["block".into()], ..Default::default() };
    for q in [stats_query(&f, 0), sources_query(&f, 0), series_query(&f, "1 hour", 0), pairs_query(&f, 0), export_query(&f, 0)] {
        assert!(text(&q).contains("l.rule_action_id = ANY($)"), "{}", text(&q));
    }
    let q = series_query(&f, "1 hour", 0);
    assert_eq!(binds(&q)[0], Bind::Text("1 hour".to_string()));
    assert!(text(&pairs_query(&f, 0)).contains("LEFT JOIN services sv"));
    assert!(text(&export_query(&f, 0)).ends_with("LIMIT 100000"));
}
