//! The queries behind the views of the interface: top lists, the log page,
//! the flow, the zone matrix and the detail of a single host. Each is the
//! filter's joins and conditions between fixed SQL text, with every value
//! the user gave bound as a parameter.
use vstd::prelude::*;
use crate::filters::{join_pieces, joins_or, needed_joins_of, where_pieces, FilterView, Joins, LogFilter};
use crate::net::IpAddress;
use crate::sql::{bv, pieces, push_bind, push_sql, sq, Bind, BindView, Piece, PieceView};
use crate::text::{chars_of, same_str, string_from};

verus! {

// ---------------------------------------------------------------------------
// Top lists
// ---------------------------------------------------------------------------

/// What a top list ranks.
#[derive(Debug, Clone, Copy, PartialEq, Eq, Structural)]
pub enum TopWhat {
    Countries,
    Sources,
    Destinations,
    Ports,
    Rules,
    Interfaces,
    Asns,
    Threats,
}

pub open spec fn top_what_of(s: Seq<char>) -> Option<TopWhat> {
    if s == "countries"@ {
        Some(TopWhat::Countries)
    } else if s == "sources"@ {
        Some(TopWhat::Sources)
    } else if s == "destinations"@ {
        Some(TopWhat::Destinations)
    } else if s == "ports"@ {
        Some(TopWhat::Ports)
    } else if s == "rules"@ {
        Some(TopWhat::Rules)
    } else if s == "interfaces"@ {
        Some(TopWhat::Interfaces)
    } else if s == "asns"@ {
        Some(TopWhat::Asns)
    } else if s == "threats"@ {
        Some(TopWhat::Threats)
    } else {
        None
    }
}

/// The dimension a request names; an unknown one is an empty list, not an
/// error.
pub fn top_what(s: &str) -> (r: Option<TopWhat>)
    ensures
        r == top_what_of(s@),
{
    let c = chars_of(s);
    let c = c.as_slice();
    if same_str(c, "countries") {
        Some(TopWhat::Countries)
    } else if same_str(c, "sources") {
        Some(TopWhat::Sources)
    } else if same_str(c, "destinations") {
        Some(TopWhat::Destinations)
    } else if same_str(c, "ports") {
        Some(TopWhat::Ports)
    } else if same_str(c, "rules") {
        Some(TopWhat::Rules)
    } else if same_str(c, "interfaces") {
        Some(TopWhat::Interfaces)
    } else if same_str(c, "asns") {
        Some(TopWhat::Asns)
    } else if same_str(c, "threats") {
        Some(TopWhat::Threats)
    } else {
        None
    }
}

/// `n` held to `lo..=hi`, `default` where none is given.
pub open spec fn clamped(n: Option<i64>, default: i64, lo: i64, hi: i64) -> i64 {
    match n {
        Some(v) => if v < lo {
            lo
        } else if v > hi {
            hi
        } else {
            v
        },
        None => default,
    }
}

/// The rows of a top list: 10 unless asked, and 1..=100.
pub fn top_limit(limit: Option<i64>) -> (r: i64)
    ensures
        r == clamped(limit, 10, 1, 100),
{
    match limit {
        Some(n) => if n < 1 {
            1
        } else if n > 100 {
            100
        } else {
            n
        },
        None => 10,
    }
}

pub open spec fn top_head(w: TopWhat) -> Seq<char> {
    match w {
        TopWhat::Countries => "SELECT l.geo_country AS key, COUNT(*) AS n, COUNT(*) FILTER (WHERE l.rule_action_id = 2) AS blocked FROM logs l "@,
        TopWhat::Sources => "SELECT host(l.src_ip) AS key, COUNT(*) AS n FROM logs l "@,
        TopWhat::Destinations => "SELECT host(l.dst_ip) AS key, COUNT(*) AS n FROM logs l "@,
        TopWhat::Ports => "SELECT l.dst_port AS port, COUNT(*) AS n, COUNT(*) FILTER (WHERE l.rule_action_id = 2) AS blocked FROM logs l "@,
        TopWhat::Rules => "SELECT l.rule_id AS id, r.name AS name, r.descr AS descr, COUNT(*) AS n FROM logs l "@,
        TopWhat::Interfaces => "SELECT n.name AS name, t.n, t.blocked FROM (SELECT id, SUM(n)::bigint AS n, SUM(blocked)::bigint AS blocked FROM (SELECT CASE WHEN GROUPING(l.iface_in_id) = 0 THEN l.iface_in_id ELSE l.iface_out_id END AS id, COUNT(*) AS n, COUNT(*) FILTER (WHERE l.rule_action_id = 2) AS blocked FROM logs l "@,
        TopWhat::Asns => "SELECT l.asn_number AS num, MAX(l.asn_name) AS name, COUNT(*) AS n, COUNT(*) FILTER (WHERE l.rule_action_id = 2) AS blocked FROM logs l "@,
        TopWhat::Threats => "SELECT host(l.src_ip) AS key, COUNT(*) AS n, MAX(l.threat_score) AS max_threat, MAX(l.geo_country) AS country FROM logs l "@,
    }
}

pub open spec fn top_tail(w: TopWhat) -> Seq<char> {
    match w {
        TopWhat::Countries => " AND l.geo_country IS NOT NULL GROUP BY l.geo_country ORDER BY n DESC LIMIT "@,
        TopWhat::Sources => " AND l.src_ip IS NOT NULL GROUP BY l.src_ip ORDER BY n DESC LIMIT "@,
        TopWhat::Destinations => " AND l.dst_ip IS NOT NULL GROUP BY l.dst_ip ORDER BY n DESC LIMIT "@,
        TopWhat::Ports => " AND l.dst_port IS NOT NULL GROUP BY l.dst_port ORDER BY n DESC LIMIT "@,
        TopWhat::Rules => " AND l.rule_id IS NOT NULL GROUP BY l.rule_id, r.name, r.descr ORDER BY n DESC LIMIT "@,
        TopWhat::Interfaces => " GROUP BY GROUPING SETS ((l.iface_in_id), (l.iface_out_id))) s WHERE id IS NOT NULL GROUP BY id ORDER BY n DESC LIMIT "@,
        TopWhat::Asns => " AND l.asn_number IS NOT NULL GROUP BY l.asn_number ORDER BY n DESC LIMIT "@,
        TopWhat::Threats => " AND l.threat_score >= 50 AND l.src_ip IS NOT NULL GROUP BY l.src_ip ORDER BY n DESC LIMIT "@,
    }
}

fn top_head_text(w: TopWhat) -> (r: &'static str)
    ensures
        r@ == top_head(w),
{
    match w {
        TopWhat::Countries => "SELECT l.geo_country AS key, COUNT(*) AS n, COUNT(*) FILTER (WHERE l.rule_action_id = 2) AS blocked FROM logs l ",
        TopWhat::Sources => "SELECT host(l.src_ip) AS key, COUNT(*) AS n FROM logs l ",
        TopWhat::Destinations => "SELECT host(l.dst_ip) AS key, COUNT(*) AS n FROM logs l ",
        TopWhat::Ports => "SELECT l.dst_port AS port, COUNT(*) AS n, COUNT(*) FILTER (WHERE l.rule_action_id = 2) AS blocked FROM logs l ",
        TopWhat::Rules => "SELECT l.rule_id AS id, r.name AS name, r.descr AS descr, COUNT(*) AS n FROM logs l ",
        TopWhat::Interfaces => "SELECT n.name AS name, t.n, t.blocked FROM (SELECT id, SUM(n)::bigint AS n, SUM(blocked)::bigint AS blocked FROM (SELECT CASE WHEN GROUPING(l.iface_in_id) = 0 THEN l.iface_in_id ELSE l.iface_out_id END AS id, COUNT(*) AS n, COUNT(*) FILTER (WHERE l.rule_action_id = 2) AS blocked FROM logs l ",
        TopWhat::Asns => "SELECT l.asn_number AS num, MAX(l.asn_name) AS name, COUNT(*) AS n, COUNT(*) FILTER (WHERE l.rule_action_id = 2) AS blocked FROM logs l ",
        TopWhat::Threats => "SELECT host(l.src_ip) AS key, COUNT(*) AS n, MAX(l.threat_score) AS max_threat, MAX(l.geo_country) AS country FROM logs l ",
    }
}

fn top_tail_text(w: TopWhat) -> (r: &'static str)
    ensures
        r@ == top_tail(w),
{
    match w {
        TopWhat::Countries => " AND l.geo_country IS NOT NULL GROUP BY l.geo_country ORDER BY n DESC LIMIT ",
        TopWhat::Sources => " AND l.src_ip IS NOT NULL GROUP BY l.src_ip ORDER BY n DESC LIMIT ",
        TopWhat::Destinations => " AND l.dst_ip IS NOT NULL GROUP BY l.dst_ip ORDER BY n DESC LIMIT ",
        TopWhat::Ports => " AND l.dst_port IS NOT NULL GROUP BY l.dst_port ORDER BY n DESC LIMIT ",
        TopWhat::Rules => " AND l.rule_id IS NOT NULL GROUP BY l.rule_id, r.name, r.descr ORDER BY n DESC LIMIT ",
        TopWhat::Interfaces => " GROUP BY GROUPING SETS ((l.iface_in_id), (l.iface_out_id))) s WHERE id IS NOT NULL GROUP BY id ORDER BY n DESC LIMIT ",
        TopWhat::Asns => " AND l.asn_number IS NOT NULL GROUP BY l.asn_number ORDER BY n DESC LIMIT ",
        TopWhat::Threats => " AND l.threat_score >= 50 AND l.src_ip IS NOT NULL GROUP BY l.src_ip ORDER BY n DESC LIMIT ",
    }
}

/// The query of a top list: the rules are joined for the list of rules,
/// which names them; the interfaces are counted by id and named only for
/// the rows that are left.
pub open spec fn top_pieces(w: TopWhat, f: FilterView, limit: i64, now: i64) -> Seq<PieceView> {
    let extra = if w == TopWhat::Rules {
        Joins { rules: true, ..crate::filters::no_joins() }
    } else {
        crate::filters::no_joins()
    };
    seq![sq(top_head(w))] + join_pieces(joins_or(needed_joins_of(f), extra)) + where_pieces(f, now)
        + seq![sq(top_tail(w)), bv(BindView::Long(limit))] + if w == TopWhat::Interfaces {
        seq![sq(" ) t LEFT JOIN interfaces n ON n.id = t.id ORDER BY t.n DESC"@)]
    } else {
        Seq::empty()
    }
}

/// The query of a top list, at `now` (microseconds since the epoch).
pub fn top_query(w: TopWhat, f: &LogFilter, limit: i64, now: i64) -> (r: Vec<Piece>)
    ensures
        pieces(r@) == top_pieces(w, f@, limit, now),
{
    let mut q: Vec<Piece> = Vec::new();
    push_sql(&mut q, top_head_text(w));
    let extra = if w == TopWhat::Rules {
        Joins::none().rules()
    } else {
        Joins::none()
    };
    f.push_joins(&mut q, extra);
    f.push_where_at(&mut q, now);
    push_sql(&mut q, top_tail_text(w));
    push_bind(&mut q, Bind::Long(limit));
    if w == TopWhat::Interfaces {
        push_sql(&mut q, " ) t LEFT JOIN interfaces n ON n.id = t.id ORDER BY t.n DESC");
    }
    assert(pieces(q@) =~= top_pieces(w, f@, limit, now));
    q
}

/// A row of a top list: every list has the same shape, a key, a label
/// (the key where there is no other) and a count.
#[derive(Debug, Clone, PartialEq)]
pub struct TopRow {
    pub key: String,
    pub label: String,
    pub count: i64,
}

/// A row of a top list; a row without a key is no row.
pub fn top_row(key: Option<String>, label: Option<String>, count: i64) -> (r: Option<TopRow>)
    ensures
        match key {
            None => r is None,
            Some(k) => r matches Some(t) && t.key@ == k@ && t.count == count && t.label@ == match label {
                Some(l) => l@,
                None => k@,
            },
        },
{
    match key {
        None => None,
        Some(k) => {
            let label = match label {
                Some(l) => l,
                None => k.clone(),
            };
            Some(TopRow { key: k, label, count })
        },
    }
}

// ---------------------------------------------------------------------------
// The log page
// ---------------------------------------------------------------------------

pub open spec fn logs_head() -> Seq<char> {
    "SELECT l.id, l.timestamp, l.log_type_id, l.direction_id, l.rule_action_id, host(l.src_ip) AS src_ip, host(l.dst_ip) AS dst_ip, l.src_port, l.dst_port, l.mac_address::text AS mac_address, l.dns_query, l.dns_type, l.dns_answer, l.dhcp_event, l.wifi_event, l.raw_log, l.geo_country, l.geo_city, l.geo_lat::float8 AS geo_lat, l.geo_lon::float8 AS geo_lon, l.asn_number, l.asn_name, l.rdns, l.threat_score, l.threat_categories, l.abuse_is_tor, das.name AS src_device, dad.name AS dst_device, r.name AS rule_name, r.descr AS rule_desc, ii.name AS iface_in, io.name AS iface_out, pr.name AS protocol, dn.name AS hostname, sv.name AS service_name, l.severity, pg.name AS program, l.details FROM logs l "@
}

pub open spec fn all_joins() -> Joins {
    Joins { rules: true, programs: true, interfaces: true, protocols: true, hostnames: true, devices: true }
}

/// The query of a page of the log: every lookup table, the device names of
/// both addresses and the service name of the destination port, the
/// filter's conditions, then rows strictly before the cursor (instant and
/// id), newest first.
pub open spec fn logs_pieces(f: FilterView, cursor: Option<(i64, i64)>, limit: i64, now: i64) -> Seq<
    PieceView,
> {
    seq![sq(logs_head())] + join_pieces(joins_or(needed_joins_of(f), all_joins())) + seq![
        sq(" LEFT JOIN device_addresses das ON das.ip = l.src_ip LEFT JOIN device_addresses dad ON dad.ip = l.dst_ip "@),
        sq(" LEFT JOIN services sv ON sv.port = l.dst_port AND sv.proto = lower(pr.name) "@),
    ] + where_pieces(f, now) + (match cursor {
        Some((t, id)) => seq![
            sq(" AND (l.timestamp, l.id) < ("@),
            bv(BindView::Time(t)),
            sq(", "@),
            bv(BindView::Long(id)),
            sq(")"@),
        ],
        None => Seq::empty(),
    }) + seq![sq(" ORDER BY l.timestamp DESC, l.id DESC LIMIT "@), bv(BindView::Long(limit))]
}

/// The query of a page of the log, at `now`.
pub fn logs_query(f: &LogFilter, cursor: Option<(i64, i64)>, limit: i64, now: i64) -> (r: Vec<Piece>)
    ensures
        pieces(r@) == logs_pieces(f@, cursor, limit, now),
{
    let mut q: Vec<Piece> = Vec::new();
    push_sql(
        &mut q,
        "SELECT l.id, l.timestamp, l.log_type_id, l.direction_id, l.rule_action_id, host(l.src_ip) AS src_ip, host(l.dst_ip) AS dst_ip, l.src_port, l.dst_port, l.mac_address::text AS mac_address, l.dns_query, l.dns_type, l.dns_answer, l.dhcp_event, l.wifi_event, l.raw_log, l.geo_country, l.geo_city, l.geo_lat::float8 AS geo_lat, l.geo_lon::float8 AS geo_lon, l.asn_number, l.asn_name, l.rdns, l.threat_score, l.threat_categories, l.abuse_is_tor, das.name AS src_device, dad.name AS dst_device, r.name AS rule_name, r.descr AS rule_desc, ii.name AS iface_in, io.name AS iface_out, pr.name AS protocol, dn.name AS hostname, sv.name AS service_name, l.severity, pg.name AS program, l.details FROM logs l ",
    );
    f.push_joins(&mut q, Joins::all());
    push_sql(
        &mut q,
        " LEFT JOIN device_addresses das ON das.ip = l.src_ip LEFT JOIN device_addresses dad ON dad.ip = l.dst_ip ",
    );
    push_sql(&mut q, " LEFT JOIN services sv ON sv.port = l.dst_port AND sv.proto = lower(pr.name) ");
    f.push_where_at(&mut q, now);
    match cursor {
        Some((t, id)) => {
            push_sql(&mut q, " AND (l.timestamp, l.id) < (");
            push_bind(&mut q, Bind::Time(t));
            push_sql(&mut q, ", ");
            push_bind(&mut q, Bind::Long(id));
            push_sql(&mut q, ")");
        },
        None => {},
    }
    push_sql(&mut q, " ORDER BY l.timestamp DESC, l.id DESC LIMIT ");
    push_bind(&mut q, Bind::Long(limit));
    assert(pieces(q@) =~= logs_pieces(f@, cursor, limit, now));
    q
}

// ---------------------------------------------------------------------------
// The flow and the zone matrix
// ---------------------------------------------------------------------------

/// The nodes a column of the flow keeps: 12 unless asked, and 1..=50.
pub fn sankey_limit(limit: Option<i64>) -> (r: usize)
    ensures
        r as int == clamped(limit, 12, 1, 50),
{
    match limit {
        Some(n) => if n < 1 {
            1
        } else if n > 50 {
            50
        } else {
            n as usize
        },
        None => 12,
    }
}

/// The query of the flow: firewall rows with both addresses, grouped by
/// source, destination, port and protocol.
pub open spec fn sankey_pieces(f: FilterView, now: i64) -> Seq<PieceView> {
    seq![sq("SELECT host(l.src_ip) AS src_ip, host(l.dst_ip) AS dst_ip, l.dst_port, pr.name AS protocol, COUNT(*) AS cnt, COUNT(*) FILTER (WHERE l.rule_action_id = 2) AS blocked_cnt FROM logs l "@)]
        + join_pieces(joins_or(needed_joins_of(f), Joins { protocols: true, ..crate::filters::no_joins() }))
        + where_pieces(f, now) + seq![
        sq(" AND l.log_type_id = 1 AND l.src_ip IS NOT NULL AND l.dst_ip IS NOT NULL"@),
        sq(" GROUP BY l.src_ip, l.dst_ip, l.dst_port, pr.name"@),
    ]
}

/// The query of the flow, at `now`.
pub fn sankey_query(f: &LogFilter, now: i64) -> (r: Vec<Piece>)
    ensures
        pieces(r@) == sankey_pieces(f@, now),
{
    let mut q: Vec<Piece> = Vec::new();
    push_sql(
        &mut q,
        "SELECT host(l.src_ip) AS src_ip, host(l.dst_ip) AS dst_ip, l.dst_port, pr.name AS protocol, COUNT(*) AS cnt, COUNT(*) FILTER (WHERE l.rule_action_id = 2) AS blocked_cnt FROM logs l ",
    );
    f.push_joins(&mut q, Joins::none().protocols());
    f.push_where_at(&mut q, now);
    push_sql(&mut q, " AND l.log_type_id = 1 AND l.src_ip IS NOT NULL AND l.dst_ip IS NOT NULL");
    push_sql(&mut q, " GROUP BY l.src_ip, l.dst_ip, l.dst_port, pr.name");
    assert(pieces(q@) =~= sankey_pieces(f@, now));
    q
}

/// The query of the zone matrix: rows that know both interfaces, allowed
/// and blocked counted apart, per pair of interface names.
pub open spec fn zones_pieces(f: FilterView, now: i64) -> Seq<PieceView> {
    seq![sq("SELECT ii.name AS iface_in, io.name AS iface_out, COUNT(*) FILTER (WHERE l.rule_action_id = 1) AS allowed, COUNT(*) FILTER (WHERE l.rule_action_id = 2) AS blocked FROM logs l "@)]
        + join_pieces(joins_or(needed_joins_of(f), Joins { interfaces: true, ..crate::filters::no_joins() }))
        + where_pieces(f, now) + seq![
        sq(" AND l.iface_in_id IS NOT NULL AND l.iface_out_id IS NOT NULL"@),
        sq(" GROUP BY ii.name, io.name"@),
    ]
}

/// The query of the zone matrix, at `now`.
pub fn zones_query(f: &LogFilter, now: i64) -> (r: Vec<Piece>)
    ensures
        pieces(r@) == zones_pieces(f@, now),
{
    let mut q: Vec<Piece> = Vec::new();
    push_sql(
        &mut q,
        "SELECT ii.name AS iface_in, io.name AS iface_out, COUNT(*) FILTER (WHERE l.rule_action_id = 1) AS allowed, COUNT(*) FILTER (WHERE l.rule_action_id = 2) AS blocked FROM logs l ",
    );
    f.push_joins(&mut q, Joins::none().interfaces());
    f.push_where_at(&mut q, now);
    push_sql(&mut q, " AND l.iface_in_id IS NOT NULL AND l.iface_out_id IS NOT NULL");
    push_sql(&mut q, " GROUP BY ii.name, io.name");
    assert(pieces(q@) =~= zones_pieces(f@, now));
    q
}

// ---------------------------------------------------------------------------
// A single host
// ---------------------------------------------------------------------------

/// The parts of the detail of a host.
#[derive(Debug, Clone, Copy, PartialEq, Eq, Structural)]
pub enum HostPart {
    /// Counts, first and last sight, and what is known of the address.
    Summary,
    /// The ten busiest counterparts.
    Peers,
    /// The ten busiest destination ports, with their service names.
    Services,
    /// The eight rules that hit the host most.
    Rules,
}

/// Rows in which the address takes part, on either side.
pub open spec fn host_clause(ip: IpAddress) -> Seq<PieceView> {
    seq![
        sq(" AND (l.src_ip = "@),
        bv(BindView::Ip(ip)),
        sq(" OR l.dst_ip = "@),
        bv(BindView::Ip(ip)),
        sq(")"@),
    ]
}

pub open spec fn host_head(part: HostPart, ip: IpAddress) -> Seq<PieceView> {
    match part {
        HostPart::Summary => seq![
            sq("SELECT count(*)::bigint AS total, count(*) FILTER (WHERE l.rule_action_id = 1)::bigint AS allowed, count(*) FILTER (WHERE l.rule_action_id = 2)::bigint AS blocked, count(DISTINCT CASE WHEN l.src_ip = "@),
            bv(BindView::Ip(ip)),
            sq(" THEN host(l.dst_ip) ELSE host(l.src_ip) END)::bigint AS peers, min(l.timestamp) AS first_seen, max(l.timestamp) AS last_seen, max(l.asn_name) AS asn_name, max(l.rdns) AS rdns, max(l.geo_country) AS geo_country, max(l.geo_city) AS geo_city, max(l.threat_score) AS max_threat FROM logs l "@),
        ],
        HostPart::Peers => seq![
            sq("SELECT CASE WHEN l.src_ip = "@),
            bv(BindView::Ip(ip)),
            sq(" THEN host(l.dst_ip) ELSE host(l.src_ip) END AS peer, count(*)::bigint AS total, count(*) FILTER (WHERE l.rule_action_id = 2)::bigint AS blocked FROM logs l "@),
        ],
        HostPart::Services => seq![
            sq("SELECT l.dst_port, lower(pr.name) AS protocol, max(sv.name) AS service, count(*)::bigint AS total, count(*) FILTER (WHERE l.rule_action_id = 2)::bigint AS blocked FROM logs l "@),
        ],
        HostPart::Rules => seq![sq("SELECT r.name AS rule, count(*)::bigint AS total FROM logs l "@)],
    }
}

pub open spec fn host_tail(part: HostPart) -> Seq<PieceView> {
    match part {
        HostPart::Summary => Seq::empty(),
        HostPart::Peers => seq![sq(" AND l.src_ip IS NOT NULL AND l.dst_ip IS NOT NULL GROUP BY 1 ORDER BY 2 DESC LIMIT 10"@)],
        HostPart::Services => seq![sq(" AND l.dst_port IS NOT NULL GROUP BY l.dst_port, lower(pr.name) ORDER BY 4 DESC LIMIT 10"@)],
        HostPart::Rules => seq![sq(" AND r.name IS NOT NULL GROUP BY r.name ORDER BY 2 DESC LIMIT 8"@)],
    }
}

/// The query of one part of the detail of a host: every lookup table (the
/// services too, for their part), the filter's conditions and the host.
pub open spec fn host_pieces(part: HostPart, f: FilterView, ip: IpAddress, now: i64) -> Seq<PieceView> {
    framed(
        host_head(part, ip),
        all_joins(),
        if part == HostPart::Services {
            seq![sq(" LEFT JOIN services sv ON sv.port = l.dst_port AND sv.proto = lower(pr.name) "@)]
        } else {
            Seq::empty()
        },
        f,
        now,
        host_clause(ip) + host_tail(part),
    )
}

fn host_head_pieces(part: HostPart, ip: IpAddress) -> (r: Vec<Piece>)
    ensures
        pieces(r@) == host_head(part, ip),
{
    let mut q: Vec<Piece> = Vec::new();
    match part {
        HostPart::Summary => {
            push_sql(
                &mut q,
                "SELECT count(*)::bigint AS total, count(*) FILTER (WHERE l.rule_action_id = 1)::bigint AS allowed, count(*) FILTER (WHERE l.rule_action_id = 2)::bigint AS blocked, count(DISTINCT CASE WHEN l.src_ip = ",
            );
            push_bind(&mut q, Bind::Ip(ip));
            push_sql(
                &mut q,
                " THEN host(l.dst_ip) ELSE host(l.src_ip) END)::bigint AS peers, min(l.timestamp) AS first_seen, max(l.timestamp) AS last_seen, max(l.asn_name) AS asn_name, max(l.rdns) AS rdns, max(l.geo_country) AS geo_country, max(l.geo_city) AS geo_city, max(l.threat_score) AS max_threat FROM logs l ",
            );
        },
        HostPart::Peers => {
            push_sql(&mut q, "SELECT CASE WHEN l.src_ip = ");
            push_bind(&mut q, Bind::Ip(ip));
            push_sql(
                &mut q,
                " THEN host(l.dst_ip) ELSE host(l.src_ip) END AS peer, count(*)::bigint AS total, count(*) FILTER (WHERE l.rule_action_id = 2)::bigint AS blocked FROM logs l ",
            );
        },
        HostPart::Services => {
            push_sql(
                &mut q,
                "SELECT l.dst_port, lower(pr.name) AS protocol, max(sv.name) AS service, count(*)::bigint AS total, count(*) FILTER (WHERE l.rule_action_id = 2)::bigint AS blocked FROM logs l ",
            );
        },
        HostPart::Rules => {
            push_sql(&mut q, "SELECT r.name AS rule, count(*)::bigint AS total FROM logs l ");
        },
    }
    assert(pieces(q@) =~= host_head(part, ip));
    q
}

fn host_tail_pieces(part: HostPart, ip: IpAddress) -> (r: Vec<Piece>)
    ensures
        pieces(r@) == host_clause(ip) + host_tail(part),
{
    let mut q: Vec<Piece> = Vec::new();
    push_sql(&mut q, " AND (l.src_ip = ");
    push_bind(&mut q, Bind::Ip(ip));
    push_sql(&mut q, " OR l.dst_ip = ");
    push_bind(&mut q, Bind::Ip(ip));
    push_sql(&mut q, ")");
    match part {
        HostPart::Summary => {},
        HostPart::Peers => {
            push_sql(
                &mut q,
                " AND l.src_ip IS NOT NULL AND l.dst_ip IS NOT NULL GROUP BY 1 ORDER BY 2 DESC LIMIT 10",
            );
        },
        HostPart::Services => {
            push_sql(
                &mut q,
                " AND l.dst_port IS NOT NULL GROUP BY l.dst_port, lower(pr.name) ORDER BY 4 DESC LIMIT 10",
            );
        },
        HostPart::Rules => {
            push_sql(&mut q, " AND r.name IS NOT NULL GROUP BY r.name ORDER BY 2 DESC LIMIT 8");
        },
    }
    assert(pieces(q@) =~= host_clause(ip) + host_tail(part));
    q
}

/// The query of one part of the detail of a host, at `now`.
pub fn host_query(part: HostPart, f: &LogFilter, ip: IpAddress, now: i64) -> (r: Vec<Piece>)
    ensures
        pieces(r@) == host_pieces(part, f@, ip, now),
{
    let mid = if part == HostPart::Services {
        sql_only(" LEFT JOIN services sv ON sv.port = l.dst_port AND sv.proto = lower(pr.name) ")
    } else {
        nothing()
    };
    frame(host_head_pieces(part, ip), f, Joins::all(), mid, now, host_tail_pieces(part, ip))
}

// ---------------------------------------------------------------------------
// The dashboard, the count and the export
// ---------------------------------------------------------------------------

/// A query of the log framed around a filter: its head, the lookup tables
/// the filter and `extra` need, what comes between, the filter's
/// conditions, and its tail.
pub open spec fn framed(
    head: Seq<PieceView>,
    extra: Joins,
    mid: Seq<PieceView>,
    f: FilterView,
    now: i64,
    tail: Seq<PieceView>,
) -> Seq<PieceView> {
    head + join_pieces(joins_or(needed_joins_of(f), extra)) + mid + where_pieces(f, now) + tail
}

fn frame(head: Vec<Piece>, f: &LogFilter, extra: Joins, mid: Vec<Piece>, now: i64, tail: Vec<Piece>) -> (r: Vec<
    Piece,
>)
    ensures
        pieces(r@) == framed(pieces(head@), extra, pieces(mid@), f@, now, pieces(tail@)),
{
    let mut q = head;
    f.push_joins(&mut q, extra);
    crate::sql::push_all(&mut q, mid);
    f.push_where_at(&mut q, now);
    crate::sql::push_all(&mut q, tail);
    q
}

fn sql_only(s: &'static str) -> (r: Vec<Piece>)
    ensures
        pieces(r@) == seq![sq(s@)],
{
    let mut q: Vec<Piece> = Vec::new();
    push_sql(&mut q, s);
    assert(pieces(q@) =~= seq![sq(s@)]);
    q
}

fn nothing() -> (r: Vec<Piece>)
    ensures
        pieces(r@) == Seq::<PieceView>::empty(),
{
    let q: Vec<Piece> = Vec::new();
    assert(pieces(q@) =~= Seq::<PieceView>::empty());
    q
}

/// Everything countable in one pass: the total, and the counts by type
/// and by direction, told apart by `GROUPING()`.
pub open spec fn stats_pieces(f: FilterView, now: i64) -> Seq<PieceView> {
    framed(
        seq![sq("SELECT GROUPING(l.log_type_id) AS g_type, GROUPING(l.direction_id) AS g_dir, l.log_type_id, l.direction_id, COUNT(*) AS n, COUNT(*) FILTER (WHERE l.rule_action_id = 1) AS allowed, COUNT(*) FILTER (WHERE l.rule_action_id = 2) AS blocked, COUNT(*) FILTER (WHERE l.threat_score >= 50) AS threats FROM logs l "@)],
        crate::filters::no_joins(),
        Seq::empty(),
        f,
        now,
        seq![sq(" GROUP BY GROUPING SETS ((), (l.log_type_id), (l.direction_id))"@)],
    )
}

/// The query of the dashboard's totals, at `now`.
pub fn stats_query(f: &LogFilter, now: i64) -> (r: Vec<Piece>)
    ensures
        pieces(r@) == stats_pieces(f@, now),
{
    frame(
        sql_only(
            "SELECT GROUPING(l.log_type_id) AS g_type, GROUPING(l.direction_id) AS g_dir, l.log_type_id, l.direction_id, COUNT(*) AS n, COUNT(*) FILTER (WHERE l.rule_action_id = 1) AS allowed, COUNT(*) FILTER (WHERE l.rule_action_id = 2) AS blocked, COUNT(*) FILTER (WHERE l.threat_score >= 50) AS threats FROM logs l ",
        ),
        f,
        Joins::none(),
        nothing(),
        now,
        sql_only(" GROUP BY GROUPING SETS ((), (l.log_type_id), (l.direction_id))"),
    )
}

/// The number of distinct sources, in a pass of its own.
pub open spec fn sources_pieces(f: FilterView, now: i64) -> Seq<PieceView> {
    framed(
        seq![sq("SELECT COUNT(DISTINCT l.src_ip) AS n FROM logs l "@)],
        crate::filters::no_joins(),
        Seq::empty(),
        f,
        now,
        Seq::empty(),
    )
}

/// The query of the number of distinct sources, at `now`.
pub fn sources_query(f: &LogFilter, now: i64) -> (r: Vec<Piece>)
    ensures
        pieces(r@) == sources_pieces(f@, now),
{
    frame(sql_only("SELECT COUNT(DISTINCT l.src_ip) AS n FROM logs l "), f, Joins::none(), nothing(), now, nothing())
}

/// A row of the totals query: which grouping it is (`g_type`, `g_dir`),
/// its keys and its counts.
#[derive(Debug, Clone, Copy, PartialEq, Eq, Structural)]
pub struct TotalsRow {
    pub g_type: i32,
    pub g_dir: i32,
    pub log_type_id: Option<i16>,
    pub direction_id: Option<i16>,
    pub n: i64,
    pub allowed: i64,
    pub blocked: i64,
    pub threats: i64,
}

/// The totals of the dashboard. Rows without a direction stand under their
/// own key and are dropped by the reader: untagged, not a seventh
/// direction.
#[derive(Debug, Clone, PartialEq)]
pub struct Totals {
    pub total: i64,
    pub allowed: i64,
    pub blocked: i64,
    pub threats: i64,
    pub by_type: Vec<(Option<i16>, i64)>,
    pub by_direction: Vec<(Option<i16>, i64)>,
}

pub struct TotalsView {
    pub total: i64,
    pub allowed: i64,
    pub blocked: i64,
    pub threats: i64,
    pub by_type: Seq<(Option<i16>, i64)>,
    pub by_direction: Seq<(Option<i16>, i64)>,
}

impl View for Totals {
    type V = TotalsView;

    open spec fn view(&self) -> TotalsView {
        TotalsView {
            total: self.total,
            allowed: self.allowed,
            blocked: self.blocked,
            threats: self.threats,
            by_type: self.by_type@,
            by_direction: self.by_direction@,
        }
    }
}

/// The totals read from the rows: the row over everything (grouped on
/// neither key) sets the sums, a row grouped by type adds to the list by
/// type, one grouped by direction to that by direction.
pub open spec fn totals_of(rows: Seq<TotalsRow>) -> TotalsView
    decreases rows.len(),
{
    if rows.len() == 0 {
        TotalsView {
            total: 0,
            allowed: 0,
            blocked: 0,
            threats: 0,
            by_type: Seq::empty(),
            by_direction: Seq::empty(),
        }
    } else {
        let t = totals_of(rows.drop_last());
        let r = rows.last();
        if r.g_type == 1 && r.g_dir == 1 {
            TotalsView { total: r.n, allowed: r.allowed, blocked: r.blocked, threats: r.threats, ..t }
        } else if r.g_type == 0 {
            TotalsView { by_type: t.by_type.push((r.log_type_id, r.n)), ..t }
        } else if r.g_dir == 0 {
            TotalsView { by_direction: t.by_direction.push((r.direction_id, r.n)), ..t }
        } else {
            t
        }
    }
}

/// The totals read from the rows of the totals query.
pub fn totals(rows: &[TotalsRow]) -> (r: Totals)
    ensures
        r@ == totals_of(rows@),
{
    let mut out = Totals {
        total: 0,
        allowed: 0,
        blocked: 0,
        threats: 0,
        by_type: Vec::new(),
        by_direction: Vec::new(),
    };
    assert(out@ == totals_of(rows@.take(0)));
    let mut i: usize = 0;
    while i < rows.len()
        invariant
            0 <= i <= rows@.len(),
            out@ == totals_of(rows@.take(i as int)),
        decreases rows.len() - i,
    {
        assert(rows@.take(i + 1).drop_last() =~= rows@.take(i as int));
        let r = rows[i];
        if r.g_type == 1 && r.g_dir == 1 {
            out.total = r.n;
            out.allowed = r.allowed;
            out.blocked = r.blocked;
            out.threats = r.threats;
        } else if r.g_type == 0 {
            out.by_type.push((r.log_type_id, r.n));
        } else if r.g_dir == 0 {
            out.by_direction.push((r.direction_id, r.n));
        }
        i = i + 1;
    }
    assert(rows@.take(rows@.len() as int) =~= rows@);
    out
}

/// Counts per time bucket of the given width.
pub open spec fn series_pieces(f: FilterView, width: Seq<char>, now: i64) -> Seq<PieceView> {
    framed(
        seq![
            sq("SELECT time_bucket("@),
            bv(BindView::Text(width)),
            sq("::interval, l.timestamp) AS bucket, COUNT(*) FILTER (WHERE l.rule_action_id = 1) AS allowed, COUNT(*) FILTER (WHERE l.rule_action_id = 2) AS blocked, COUNT(*) FILTER (WHERE l.rule_action_id = 3) AS redirect FROM logs l "@),
        ],
        crate::filters::no_joins(),
        Seq::empty(),
        f,
        now,
        seq![sq(" GROUP BY bucket ORDER BY bucket"@)],
    )
}

/// The query of the time series, at `now`, with buckets of `width`.
pub fn series_query(f: &LogFilter, width: &str, now: i64) -> (r: Vec<Piece>)
    ensures
        pieces(r@) == series_pieces(f@, width@, now),
{
    let mut head: Vec<Piece> = Vec::new();
    push_sql(&mut head, "SELECT time_bucket(");
    push_bind(&mut head, Bind::Text(string_from(chars_of(width).as_slice())));
    push_sql(
        &mut head,
        "::interval, l.timestamp) AS bucket, COUNT(*) FILTER (WHERE l.rule_action_id = 1) AS allowed, COUNT(*) FILTER (WHERE l.rule_action_id = 2) AS blocked, COUNT(*) FILTER (WHERE l.rule_action_id = 3) AS redirect FROM logs l ",
    );
    frame(head, f, Joins::none(), nothing(), now, sql_only(" GROUP BY bucket ORDER BY bucket"))
}

/// The busiest pairs of addresses on a port, with the service name.
pub open spec fn pairs_pieces(f: FilterView, now: i64) -> Seq<PieceView> {
    framed(
        seq![sq("SELECT host(l.src_ip) AS src_ip, host(l.dst_ip) AS dst_ip, l.dst_port, lower(pr.name) AS protocol, max(sv.name) AS service, count(*)::bigint AS total, count(*) FILTER (WHERE l.rule_action_id = 1)::bigint AS allowed, count(*) FILTER (WHERE l.rule_action_id = 2)::bigint AS blocked, max(l.threat_score) AS max_threat, max(l.asn_name) AS asn_name FROM logs l "@)],
        Joins { protocols: true, ..crate::filters::no_joins() },
        seq![sq(" LEFT JOIN services sv ON sv.port = l.dst_port AND sv.proto = lower(pr.name) "@)],
        f,
        now,
        seq![
            sq(" AND l.log_type_id = 1 AND l.src_ip IS NOT NULL AND l.dst_ip IS NOT NULL AND l.dst_port IS NOT NULL GROUP BY l.src_ip, l.dst_ip, l.dst_port, lower(pr.name) ORDER BY count(*) DESC LIMIT "@),
            bv(BindView::Long(25)),
        ],
    )
}

/// The query of the busiest pairs, at `now`.
pub fn pairs_query(f: &LogFilter, now: i64) -> (r: Vec<Piece>)
    ensures
        pieces(r@) == pairs_pieces(f@, now),
{
    let mut tail: Vec<Piece> = Vec::new();
    push_sql(
        &mut tail,
        " AND l.log_type_id = 1 AND l.src_ip IS NOT NULL AND l.dst_ip IS NOT NULL AND l.dst_port IS NOT NULL GROUP BY l.src_ip, l.dst_ip, l.dst_port, lower(pr.name) ORDER BY count(*) DESC LIMIT ",
    );
    push_bind(&mut tail, Bind::Long(25));
    frame(
        sql_only(
            "SELECT host(l.src_ip) AS src_ip, host(l.dst_ip) AS dst_ip, l.dst_port, lower(pr.name) AS protocol, max(sv.name) AS service, count(*)::bigint AS total, count(*) FILTER (WHERE l.rule_action_id = 1)::bigint AS allowed, count(*) FILTER (WHERE l.rule_action_id = 2)::bigint AS blocked, max(l.threat_score) AS max_threat, max(l.asn_name) AS asn_name FROM logs l ",
        ),
        f,
        Joins::none().protocols(),
        sql_only(" LEFT JOIN services sv ON sv.port = l.dst_port AND sv.proto = lower(pr.name) "),
        now,
        tail,
    )
}

/// Matching rows beyond this many are reported as at least this many.
pub const COUNT_CAP: i64 = 100_000;

/// A count of the matching rows that never scans more than `COUNT_CAP` of
/// them.
pub open spec fn count_pieces(f: FilterView, now: i64) -> Seq<PieceView> {
    framed(
        seq![sq("SELECT count(*) FROM (SELECT 1 FROM logs l "@)],
        crate::filters::no_joins(),
        Seq::empty(),
        f,
        now,
        seq![sq(" LIMIT "@), bv(BindView::Long(COUNT_CAP)), sq(") t"@)],
    )
}

/// The query of the capped count, at `now`.
pub fn count_query(f: &LogFilter, now: i64) -> (r: Vec<Piece>)
    ensures
        pieces(r@) == count_pieces(f@, now),
{
    let mut tail: Vec<Piece> = Vec::new();
    push_sql(&mut tail, " LIMIT ");
    push_bind(&mut tail, Bind::Long(COUNT_CAP));
    push_sql(&mut tail, ") t");
    frame(sql_only("SELECT count(*) FROM (SELECT 1 FROM logs l "), f, Joins::none(), nothing(), now, tail)
}

/// A capped count as it is reported: exact only below the cap.
pub fn count_answer(capped: i64) -> (r: (i64, bool))
    ensures
        r == (capped, capped < COUNT_CAP),
{
    (capped, capped < COUNT_CAP)
}

/// The rows of an export: the filter's rows, newest first, at most a
/// hundred thousand.
pub open spec fn export_pieces(f: FilterView, now: i64) -> Seq<PieceView> {
    framed(
        seq![sq("SELECT l.timestamp, l.log_type_id, l.direction_id, l.rule_action_id, r.name AS rule_name, ii.name AS iface_in, io.name AS iface_out, pr.name AS protocol, host(l.src_ip) AS src_ip, l.src_port, host(l.dst_ip) AS dst_ip, l.dst_port, l.mac_address::text AS mac_address, dn.name AS hostname, l.geo_country, l.geo_city, l.asn_name, l.rdns, l.threat_score, l.dns_query, l.dhcp_event, l.wifi_event FROM logs l "@)],
        all_joins(),
        Seq::empty(),
        f,
        now,
        seq![sq(" ORDER BY l.timestamp DESC LIMIT 100000"@)],
    )
}

/// The query of an export, at `now`.
pub fn export_query(f: &LogFilter, now: i64) -> (r: Vec<Piece>)
    ensures
        pieces(r@) == export_pieces(f@, now),
{
    frame(
        sql_only(
            "SELECT l.timestamp, l.log_type_id, l.direction_id, l.rule_action_id, r.name AS rule_name, ii.name AS iface_in, io.name AS iface_out, pr.name AS protocol, host(l.src_ip) AS src_ip, l.src_port, host(l.dst_ip) AS dst_ip, l.dst_port, l.mac_address::text AS mac_address, dn.name AS hostname, l.geo_country, l.geo_city, l.asn_name, l.rdns, l.threat_score, l.dns_query, l.dhcp_event, l.wifi_event FROM logs l ",
        ),
        f,
        Joins::all(),
        nothing(),
        now,
        sql_only(" ORDER BY l.timestamp DESC LIMIT 100000"),
    )
}

} // verus!
