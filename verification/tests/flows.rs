use uip::flows::{sankey, service_label, top_keys, volumes, zone_matrix, Column, FlowRow};

fn flow(src: &str, dst: &str, service: &str, cnt: i64, blocked: i64) -> FlowRow {
    FlowRow { src: src.into(), dst: dst.into(), service: service.into(), cnt, blocked }
}

#[test]
fn link_indices_are_valid_and_blocked_counts_only_blocked_rows() {
    let rows = vec![flow("10.0.20.5", "8.8.8.8", "443/tcp", 2, 1)];
    let d = sankey(&rows, 12);
    assert_eq!(d.nodes.len(), 3, "one source, one service, one destination");
    assert_eq!(d.links.len(), 2, "one hop source to service, one service to destination");
    for l in &d.links {
        assert!(l.source < d.nodes.len());
        assert!(l.target < d.nodes.len());
    }
    let hop1 = d.links.iter().find(|l| d.nodes[l.source].kind == "source").unwrap();
    assert_eq!(hop1.value, 2);
    assert_eq!(hop1.blocked, 1);
    assert_eq!(d.nodes[0].id, "source:10.0.20.5");
    assert_eq!(d.nodes[1].id, "service:443/tcp");
    assert_eq!(d.nodes[2].label, "8.8.8.8");
}

#[test]
fn the_node_cap_collapses_the_remainder_into_a_single_node() {
    let rows: Vec<FlowRow> =
        (0..15).map(|i| flow(&format!("10.0.0.{i}"), "1.1.1.1", "53/udp", 1, 0)).collect();
    let d = sankey(&rows, 12);
    let others: Vec<_> = d.nodes.iter().filter(|n| n.id == "source:__other__").collect();
    assert_eq!(others.len(), 1);
    assert_eq!(others[0].kind, "source");
    assert_eq!(others[0].label, "Weitere");
    assert_eq!(d.nodes.iter().filter(|n| n.kind == "source").count(), 13);
    let total: i64 = d.links.iter().filter(|l| d.nodes[l.source].kind == "source").map(|l| l.value).sum();
    assert_eq!(total, 15);
    for l in &d.links {
        assert!(l.source < d.nodes.len() && l.target < d.nodes.len());
    }
}

#[test]
fn empty_rows_give_an_empty_flow() {
    let d = sankey(&[], 12);
    assert!(d.nodes.is_empty());
    assert!(d.links.is_empty());
}

#[test]
fn the_busiest_keys_come_first_then_by_name() {
    let rows = vec![
        flow("b", "x", "1/tcp", 5, 0),
        flow("a", "x", "1/tcp", 5, 0),
        flow("c", "x", "1/tcp", 9, 0),
        flow("b", "y", "1/tcp", 1, 0),
    ];
    let v = volumes(&rows, Column::Source);
    assert_eq!(v, vec![("b".to_string(), 6), ("a".to_string(), 5), ("c".to_string(), 9)]);
    assert_eq!(top_keys(&v, 2), vec!["c".to_string(), "b".to_string()]);
    assert_eq!(top_keys(&v, 10), vec!["c".to_string(), "b".to_string(), "a".to_string()]);
}

#[test]
fn a_service_is_port_and_protocol() {
    assert_eq!(service_label(Some(443), Some("tcp".into())), "443/tcp");
    assert_eq!(service_label(None, Some("icmp".into())), "?/icmp");
    assert_eq!(service_label(Some(53), None), "53/?");
}

#[test]
fn zone_matrix_ignores_rows_missing_either_interface() {
    let rows = vec![
        (Some("ppp0".to_string()), Some("br20".to_string()), 1, 0),
        (Some("ppp0".to_string()), None, 0, 1),
        (None, Some("br20".to_string()), 0, 1),
    ];
    let (zones, cells) = zone_matrix(&rows);
    assert_eq!(zones, vec!["br20".to_string(), "ppp0".to_string()]);
    assert_eq!(cells.len(), 1);
    assert_eq!(cells[0].from, "ppp0");
    assert_eq!(cells[0].to, "br20");
    assert_eq!(cells[0].allowed, 1);
}

#[test]
fn zone_matrix_counts_allowed_and_blocked_separately() {
    let rows = vec![
        (Some("br10".to_string()), Some("br20".to_string()), 3, 2),
        (Some("br20".to_string()), Some("br10".to_string()), 0, 4),
    ];
    let (zones, cells) = zone_matrix(&rows);
    assert_eq!(zones, vec!["br10".to_string(), "br20".to_string()]);
    assert_eq!((cells[0].allowed, cells[0].blocked), (3, 2));
    assert_eq!((cells[1].allowed, cells[1].blocked), (0, 4));
}

#[test]
fn every_column_is_capped_and_each_stage_carries_every_row() {
    let rows = vec![
        flow("a", "x", "1/tcp", 4, 1),
        flow("b", "y", "2/tcp", 3, 0),
        flow("c", "z", "3/udp", 2, 2),
        flow("a", "z", "1/tcp", 1, 0),
    ];
    let d = sankey(&rows, 2);
    for kind in ["source", "service", "destination"] {
        let col: Vec<_> = d.nodes.iter().filter(|n| n.kind == kind).collect();
        assert_eq!(col.len(), 3, "two nodes of their own and the collapsed one in {kind}");
        assert_eq!(col[2].id, format!("{kind}:__other__"));
    }
    let first: i64 = d.links.iter().filter(|l| d.nodes[l.source].kind == "source").map(|l| l.value).sum();
    let second: i64 = d.links.iter().filter(|l| d.nodes[l.source].kind == "service").map(|l| l.value).sum();
    assert_eq!(first, 10);
    assert_eq!(second, 10);
    let d = sankey(&rows, 3);
    assert!(d.nodes.iter().all(|n| !n.id.ends_with("__other__")), "no more keys than the cap");
    assert_eq!(d.nodes.len(), 9);
}
