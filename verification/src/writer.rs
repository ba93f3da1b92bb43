//! Turning a parsed line into a row for the batch insert, and the live row
//! that goes out to the streams.
//!
//! Names (rule, interfaces, protocol, host, program) are stored as ids of
//! lookup tables. Which names need an id is decided here; the lookups
//! themselves are the database's, and their ids come back in `LookupIds`.
use vstd::prelude::*;
use crate::enrich::{no_facts, FactsView, IpFacts};
use crate::live::{found_view, LiveRow, LiveView};
use crate::net::IpAddress;
use crate::types::{
    direction_id_of, log_type_id_of, odv, ov, rule_action_id_of, Details, DetailsView, LogType,
    LogView, ParsedLog,
};

verus! {

/// Rows are written in batches of at most this many.
pub const BATCH_MAX: usize = 200;

/// Whether a batch of `n` rows is full and is written now.
pub fn batch_full(n: usize) -> (r: bool)
    ensures
        r == (n >= BATCH_MAX),
{
    n >= BATCH_MAX
}

/// The names of a line that become ids of lookup tables. A rule is looked
/// up by name and description together, and only where it has either.
#[derive(Debug, Clone)]
pub struct Lookups {
    pub rule: Option<(Option<String>, Option<String>)>,
    pub iface_in: Option<String>,
    pub iface_out: Option<String>,
    pub protocol: Option<String>,
    pub hostname: Option<String>,
    pub program: Option<String>,
}

pub struct LookupsView {
    pub rule: Option<(Option<Seq<char>>, Option<Seq<char>>)>,
    pub iface_in: Option<Seq<char>>,
    pub iface_out: Option<Seq<char>>,
    pub protocol: Option<Seq<char>>,
    pub hostname: Option<Seq<char>>,
    pub program: Option<Seq<char>>,
}

impl View for Lookups {
    type V = LookupsView;

    open spec fn view(&self) -> LookupsView {
        LookupsView {
            rule: match self.rule {
                Some((n, d)) => Some((ov(n), ov(d))),
                None => None,
            },
            iface_in: ov(self.iface_in),
            iface_out: ov(self.iface_out),
            protocol: ov(self.protocol),
            hostname: ov(self.hostname),
            program: ov(self.program),
        }
    }
}

/// The lookups a parsed line needs.
pub open spec fn lookups_of(p: LogView) -> LookupsView {
    LookupsView {
        rule: if p.rule_name is None && p.rule_desc is None {
            None
        } else {
            Some((p.rule_name, p.rule_desc))
        },
        iface_in: p.interface_in,
        iface_out: p.interface_out,
        protocol: p.protocol,
        hostname: p.hostname,
        program: p.program,
    }
}

fn clone_opt(o: &Option<String>) -> (r: Option<String>)
    ensures
        ov(r) == ov(*o),
{
    match o {
        Some(s) => Some(s.clone()),
        None => None,
    }
}

/// The lookups a parsed line needs.
pub fn lookups_for(p: &ParsedLog) -> (r: Lookups)
    ensures
        r@ == lookups_of(p@),
{
    let rule = if p.rule_name.is_none() && p.rule_desc.is_none() {
        None
    } else {
        Some((clone_opt(&p.rule_name), clone_opt(&p.rule_desc)))
    };
    Lookups {
        rule,
        iface_in: clone_opt(&p.interface_in),
        iface_out: clone_opt(&p.interface_out),
        protocol: clone_opt(&p.protocol),
        hostname: clone_opt(&p.hostname),
        program: clone_opt(&p.program),
    }
}

/// The ids the lookups came back with.
#[derive(Debug, Clone, Copy, PartialEq, Eq, Structural)]
pub struct LookupIds {
    pub rule_id: Option<i16>,
    pub iface_in_id: Option<i16>,
    pub iface_out_id: Option<i16>,
    pub protocol_id: Option<i16>,
    pub hostname_id: Option<i16>,
    pub program_id: Option<i16>,
}

/// The ids fit the lookups: each is there exactly where its name is, as a
/// name gets its id and no id stands for a name that is not there.
pub open spec fn ids_fit(l: LookupsView, ids: LookupIds) -> bool {
    &&& (ids.rule_id is Some) == (l.rule is Some)
    &&& (ids.iface_in_id is Some) == (l.iface_in is Some)
    &&& (ids.iface_out_id is Some) == (l.iface_out is Some)
    &&& (ids.protocol_id is Some) == (l.protocol is Some)
    &&& (ids.hostname_id is Some) == (l.hostname is Some)
    &&& (ids.program_id is Some) == (l.program is Some)
}

impl LookupIds {
    /// Whether these ids fit the lookups.
    pub fn fit(&self, l: &Lookups) -> (r: bool)
        ensures
            r == ids_fit(l@, *self),
    {
        self.rule_id.is_some() == l.rule.is_some() && self.iface_in_id.is_some() == l.iface_in.is_some()
            && self.iface_out_id.is_some() == l.iface_out.is_some() && self.protocol_id.is_some()
            == l.protocol.is_some() && self.hostname_id.is_some() == l.hostname.is_some()
            && self.program_id.is_some() == l.program.is_some()
    }
}

/// A row ready for the batch insert, and the live row sent once it is
/// written.
#[derive(Debug)]
pub struct RowRecord {
    /// Seconds since the epoch, UTC.
    pub timestamp: i64,
    pub log_type_id: i16,
    pub direction_id: Option<i16>,
    pub rule_id: Option<i16>,
    pub rule_action_id: Option<i16>,
    pub protocol_id: Option<i16>,
    pub iface_in_id: Option<i16>,
    pub iface_out_id: Option<i16>,
    pub hostname_id: Option<i16>,
    pub src_ip: Option<IpAddress>,
    pub dst_ip: Option<IpAddress>,
    pub src_port: Option<i32>,
    pub dst_port: Option<i32>,
    pub mac_address: Option<String>,
    pub dns_query: Option<String>,
    pub dns_type: Option<String>,
    pub dns_answer: Option<String>,
    pub dhcp_event: Option<String>,
    pub wifi_event: Option<String>,
    pub severity: Option<i16>,
    pub program_id: Option<i16>,
    pub details: Option<Details>,
    pub raw_log: Option<String>,
    pub live: LiveRow,
}

pub struct RecordView {
    pub timestamp: i64,
    pub log_type_id: i16,
    pub direction_id: Option<i16>,
    pub rule_id: Option<i16>,
    pub rule_action_id: Option<i16>,
    pub protocol_id: Option<i16>,
    pub iface_in_id: Option<i16>,
    pub iface_out_id: Option<i16>,
    pub hostname_id: Option<i16>,
    pub src_ip: Option<IpAddress>,
    pub dst_ip: Option<IpAddress>,
    pub src_port: Option<i32>,
    pub dst_port: Option<i32>,
    pub mac_address: Option<Seq<char>>,
    pub dns_query: Option<Seq<char>>,
    pub dns_type: Option<Seq<char>>,
    pub dns_answer: Option<Seq<char>>,
    pub dhcp_event: Option<Seq<char>>,
    pub wifi_event: Option<Seq<char>>,
    pub severity: Option<i16>,
    pub program_id: Option<i16>,
    pub details: Option<DetailsView>,
    pub raw_log: Option<Seq<char>>,
    pub live: LiveView,
}

impl View for RowRecord {
    type V = RecordView;

    open spec fn view(&self) -> RecordView {
        RecordView {
            timestamp: self.timestamp,
            log_type_id: self.log_type_id,
            direction_id: self.direction_id,
            rule_id: self.rule_id,
            rule_action_id: self.rule_action_id,
            protocol_id: self.protocol_id,
            iface_in_id: self.iface_in_id,
            iface_out_id: self.iface_out_id,
            hostname_id: self.hostname_id,
            src_ip: self.src_ip,
            dst_ip: self.dst_ip,
            src_port: self.src_port,
            dst_port: self.dst_port,
            mac_address: ov(self.mac_address),
            dns_query: ov(self.dns_query),
            dns_type: ov(self.dns_type),
            dns_answer: ov(self.dns_answer),
            dhcp_event: ov(self.dhcp_event),
            wifi_event: ov(self.wifi_event),
            severity: self.severity,
            program_id: self.program_id,
            details: odv(self.details),
            raw_log: ov(self.raw_log),
            live: self.live@,
        }
    }
}

/// System and WLAN rows keep their raw text: for both the information is
/// in the text itself.
pub open spec fn keeps_raw(t: LogType) -> bool {
    t == LogType::System || t == LogType::Wifi
}

/// The live row of a parsed line, written at `at`.
pub open spec fn live_of(p: LogView, t: LogType, at: i64) -> LiveView {
    LiveView {
        timestamp: at,
        log_type: t,
        direction: p.direction,
        rule_action: p.rule_action,
        rule_name: p.rule_name,
        protocol: p.protocol,
        iface_in: p.interface_in,
        iface_out: p.interface_out,
        src_ip: p.src_ip,
        dst_ip: p.dst_ip,
        src_port: p.src_port,
        dst_port: p.dst_port,
        mac_address: p.mac_address,
        hostname: p.hostname,
        dns_query: p.dns_query,
        dns_type: p.dns_type,
        dns_answer: p.dns_answer,
        dhcp_event: p.dhcp_event,
        wifi_event: p.wifi_event,
        raw_log: if keeps_raw(t) {
            Some(p.raw_log)
        } else {
            None
        },
        facts: no_facts(),
    }
}

/// The row of a parsed line, with the ids of its names. A line without a
/// time is written at `now`.
pub open spec fn record_of(p: LogView, ids: LookupIds, now: i64) -> RecordView {
    let t = p.log_type.unwrap();
    let at = match p.timestamp {
        Some(ts) => ts,
        None => now,
    };
    RecordView {
        timestamp: at,
        log_type_id: log_type_id_of(t),
        direction_id: match p.direction {
            Some(d) => Some(direction_id_of(d)),
            None => None,
        },
        rule_id: ids.rule_id,
        rule_action_id: match p.rule_action {
            Some(a) => Some(rule_action_id_of(a)),
            None => None,
        },
        protocol_id: ids.protocol_id,
        iface_in_id: ids.iface_in_id,
        iface_out_id: ids.iface_out_id,
        hostname_id: ids.hostname_id,
        src_ip: p.src_ip,
        dst_ip: p.dst_ip,
        src_port: p.src_port,
        dst_port: p.dst_port,
        mac_address: p.mac_address,
        dns_query: p.dns_query,
        dns_type: p.dns_type,
        dns_answer: p.dns_answer,
        dhcp_event: p.dhcp_event,
        wifi_event: p.wifi_event,
        severity: p.severity,
        program_id: ids.program_id,
        details: p.details,
        raw_log: if keeps_raw(t) {
            Some(p.raw_log)
        } else {
            None
        },
        live: live_of(p, t, at),
    }
}

/// The row of a parsed line, with the ids its lookups came back with.
/// Every parsed line has a log type, and a name has an id exactly where
/// the line has the name.
pub fn resolve(p: ParsedLog, ids: LookupIds, now: i64) -> (r: RowRecord)
    requires
        p.log_type is Some,
        ids_fit(lookups_of(p@), ids),
    ensures
        r@ == record_of(p@, ids, now),
        (r.rule_id is Some) == (p.rule_name is Some || p.rule_desc is Some),
        (r.iface_in_id is Some) == (p.interface_in is Some),
        (r.iface_out_id is Some) == (p.interface_out is Some),
        (r.protocol_id is Some) == (p.protocol is Some),
        (r.hostname_id is Some) == (p.hostname is Some),
        (r.program_id is Some) == (p.program is Some),
{
    let log_type = match p.log_type {
        Some(t) => t,
        None => LogType::System,
    };
    let timestamp = match p.timestamp {
        Some(ts) => ts,
        None => now,
    };
    let keep_raw = match log_type {
        LogType::System | LogType::Wifi => true,
        _ => false,
    };
    let live = LiveRow {
        timestamp,
        log_type,
        direction: p.direction,
        rule_action: p.rule_action,
        rule_name: clone_opt(&p.rule_name),
        protocol: clone_opt(&p.protocol),
        iface_in: clone_opt(&p.interface_in),
        iface_out: clone_opt(&p.interface_out),
        src_ip: p.src_ip,
        dst_ip: p.dst_ip,
        src_port: p.src_port,
        dst_port: p.dst_port,
        mac_address: clone_opt(&p.mac_address),
        hostname: clone_opt(&p.hostname),
        dns_query: clone_opt(&p.dns_query),
        dns_type: clone_opt(&p.dns_type),
        dns_answer: clone_opt(&p.dns_answer),
        dhcp_event: clone_opt(&p.dhcp_event),
        wifi_event: clone_opt(&p.wifi_event),
        raw_log: if keep_raw {
            Some(p.raw_log.clone())
        } else {
            None
        },
        facts: IpFacts::empty(),
    };
    RowRecord {
        timestamp,
        log_type_id: log_type.id(),
        direction_id: match p.direction {
            Some(d) => Some(d.id()),
            None => None,
        },
        rule_id: ids.rule_id,
        rule_action_id: match p.rule_action {
            Some(a) => Some(a.id()),
            None => None,
        },
        protocol_id: ids.protocol_id,
        iface_in_id: ids.iface_in_id,
        iface_out_id: ids.iface_out_id,
        hostname_id: ids.hostname_id,
        src_ip: p.src_ip,
        dst_ip: p.dst_ip,
        src_port: p.src_port,
        dst_port: p.dst_port,
        mac_address: p.mac_address,
        dns_query: p.dns_query,
        dns_type: p.dns_type,
        dns_answer: p.dns_answer,
        dhcp_event: p.dhcp_event,
        wifi_event: p.wifi_event,
        severity: p.severity,
        program_id: ids.program_id,
        details: p.details,
        raw_log: if keep_raw {
            Some(p.raw_log)
        } else {
            None
        },
        live,
    }
}

/// The addresses of a batch, each once, in the order they first occur
/// (source before destination).
pub open spec fn wanted_of(rows: Seq<(Option<IpAddress>, Option<IpAddress>)>) -> Seq<IpAddress>
    decreases rows.len(),
{
    if rows.len() == 0 {
        Seq::empty()
    } else {
        let before = wanted_of(rows.drop_last());
        let with_src = match rows.last().0 {
            Some(a) => if before.contains(a) {
                before
            } else {
                before.push(a)
            },
            None => before,
        };
        match rows.last().1 {
            Some(a) => if with_src.contains(a) {
                with_src
            } else {
                with_src.push(a)
            },
            None => with_src,
        }
    }
}

pub open spec fn endpoints(rows: Seq<RowRecord>) -> Seq<(Option<IpAddress>, Option<IpAddress>)> {
    rows.map_values(|r: RowRecord| (r.src_ip, r.dst_ip))
}

pub(crate) fn add_once(v: &mut Vec<IpAddress>, a: Option<IpAddress>)
    ensures
        final(v)@ == match a {
            Some(x) => if old(v)@.contains(x) {
                old(v)@
            } else {
                old(v)@.push(x)
            },
            None => old(v)@,
        },
{
    if let Some(x) = a {
        if !ip_listed(v.as_slice(), x) {
            v.push(x);
        }
    }
}

fn ip_listed(v: &[IpAddress], x: IpAddress) -> (r: bool)
    ensures
        r == v@.contains(x),
{
    let mut i: usize = 0;
    while i < v.len()
        invariant
            0 <= i <= v@.len(),
            forall|k: int| 0 <= k < i ==> v@[k] != x,
        decreases v.len() - i,
    {
        if v[i] == x {
            assert(v@[i as int] == x);
            return true;
        }
        i = i + 1;
    }
    false
}

/// The addresses whose known facts are read for a batch: both sides of
/// every row, each once. One query per batch rather than one per row.
pub fn wanted_addresses(rows: &[RowRecord]) -> (r: Vec<IpAddress>)
    ensures
        r@ == wanted_of(endpoints(rows@)),
{
    let mut out: Vec<IpAddress> = Vec::new();
    let mut i: usize = 0;
    while i < rows.len()
        invariant
            0 <= i <= rows@.len(),
            out@ == wanted_of(endpoints(rows@).take(i as int)),
        decreases rows.len() - i,
    {
        let ghost e = endpoints(rows@);
        assert(e.take(i + 1).drop_last() =~= e.take(i as int));
        assert(e.take(i + 1).last() == (rows@[i as int].src_ip, rows@[i as int].dst_ip));
        add_once(&mut out, rows[i].src_ip);
        add_once(&mut out, rows[i].dst_ip);
        i = i + 1;
    }
    assert(endpoints(rows@).take(rows@.len() as int) =~= endpoints(rows@));
    out
}

/// The address whose known facts a written row carries: the counterpart
/// the enrichment looks up, never the local side.
pub fn counterpart(r: &RowRecord) -> (a: Option<IpAddress>)
    ensures
        a == crate::net::remote_of(r.log_type_id, r.direction_id, r.src_ip, r.dst_ip, Seq::empty()),
{
    let none: Vec<IpAddress> = Vec::new();
    assert(none@ =~= Seq::<IpAddress>::empty());
    crate::net::remote_ip(r.log_type_id, r.direction_id, r.src_ip, r.dst_ip, none.as_slice())
}

/// The facts known of an address: the last entry for it, as a later entry
/// replaces an earlier one.
pub open spec fn known_of(known: Seq<(IpAddress, FactsView)>, ip: IpAddress) -> Option<FactsView>
    decreases known.len(),
{
    if known.len() == 0 {
        None
    } else if known.last().0 == ip {
        Some(known.last().1)
    } else {
        known_of(known.drop_last(), ip)
    }
}

/// The facts a written row carries: those known of its counterpart.
pub open spec fn carried_facts(r: RecordView, known: Seq<(IpAddress, FactsView)>) -> Option<FactsView> {
    match crate::net::remote_of(r.log_type_id, r.direction_id, r.src_ip, r.dst_ip, Seq::empty()) {
        Some(a) => known_of(known, a),
        None => None,
    }
}

/// Fills in the live row what is already known of the row's counterpart;
/// leaves it as it is where nothing is.
pub fn fill_from_cache(r: &mut RowRecord, known: &[(IpAddress, IpFacts)])
    ensures
        match carried_facts(old(r)@, found_view(known@)) {
            Some(f) => final(r)@ == (RecordView { live: LiveView { facts: f, ..old(r)@.live }, ..old(r)@ }),
            None => final(r)@ == old(r)@,
        },
{
    let ghost kv = found_view(known@);
    let ghost r0 = *r;
    let a = counterpart(r);
    if let Some(ip) = a {
        let mut i: usize = known.len();
        assert(kv.take(i as int) =~= kv);
        while i > 0
            invariant
                i <= known@.len(),
                kv == found_view(known@),
                known_of(kv, ip) == known_of(kv.take(i as int), ip),
                *r == r0,
                r0 == *old(r),
                a == Some(ip),
                a == crate::net::remote_of(r0.log_type_id, r0.direction_id, r0.src_ip, r0.dst_ip, Seq::empty()),
            decreases i,
        {
            assert(kv.take(i as int).drop_last() =~= kv.take(i - 1));
            assert(kv[i - 1] == (known@[i - 1].0, known@[i - 1].1@));
            if known[i - 1].0 == ip {
                r.live.facts = known[i - 1].1.copied();
                return;
            }
            i = i - 1;
        }
    }
}

} // verus!
