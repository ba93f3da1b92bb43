//! The receiver's own syslog traffic — counted rather than stored.
//!
//! The gateway reports every firewall decision here by syslog. Those
//! reports cross the network themselves, so the gateway writes a firewall
//! line about them too: "10.10.15.1:56369 → 10.10.15.56:514". At a few
//! thousand lines a minute that is the loudest sender of all, and it says
//! nothing one does not know already. So it is not written; what remains of
//! it is a counter.
use vstd::prelude::*;
use crate::firewall::{names_view, FirewallCtx};
use crate::net::IpAddress;
use crate::parsers::{log_view, parse_log};
use crate::syslog::header_view;
use crate::sql::{bv, pieces, push_bind, push_sql, sq, strs, Bind, BindView, Piece, PieceView};
use crate::text::{chars_of, lowercase, string_from, to_lowercase};
use crate::types::{blank_view, LogType, LogView, ParsedLog};

verus! {

/// What the receiver knows about itself.
#[derive(Debug, Clone)]
pub struct Collector {
    /// The port it listens on.
    port: i32,
    /// Its own addresses as the devices see them; learned, not configured.
    local: Vec<IpAddress>,
    /// Whether its own traffic is dropped. On by default.
    drop_own: bool,
    /// Reports received since the start.
    received: u64,
    /// Firewall rows about its own traffic dropped since the start.
    dropped: u64,
}

pub struct CollectorView {
    pub port: i32,
    pub local: Seq<IpAddress>,
    pub drop_own: bool,
    pub received: u64,
    pub dropped: u64,
}

impl View for Collector {
    type V = CollectorView;

    closed spec fn view(&self) -> CollectorView {
        CollectorView {
            port: self.port,
            local: self.local@,
            drop_own: self.drop_own,
            received: self.received,
            dropped: self.dropped,
        }
    }
}

/// A counter one further; it wraps around as the atomic counter does.
pub open spec fn next_count(n: u64) -> u64 {
    if n == u64::MAX {
        0
    } else {
        (n + 1) as u64
    }
}

/// Whether a line describes the path of the log reports themselves: a
/// firewall row, on the receiver's port, with the receiver on that side.
/// Syslog between two other hosts is ordinary traffic and stays visible.
pub open spec fn own_syslog(c: CollectorView, p: LogView) -> bool {
    &&& p.log_type == Some(LogType::Firewall)
    &&& {
        ||| (p.dst_port == Some(c.port) && (p.dst_ip matches Some(ip) && c.local.contains(ip)))
        ||| (p.src_port == Some(c.port) && (p.src_ip matches Some(ip) && c.local.contains(ip)))
    }
}

fn local_has(v: &Vec<IpAddress>, a: IpAddress) -> (r: bool)
    ensures
        r == v@.contains(a),
{
    let mut i: usize = 0;
    while i < v.len()
        invariant
            0 <= i <= v@.len(),
            forall|k: int| 0 <= k < i ==> v@[k] != a,
        decreases v.len() - i,
    {
        if v[i] == a {
            assert(v@[i as int] == a);
            return true;
        }
        i = i + 1;
    }
    false
}

impl Collector {
    /// A receiver on `port` that knows no address of its own yet.
    pub fn new(port: i32) -> (r: Collector)
        ensures
            r@ == (CollectorView {
                port,
                local: Seq::empty(),
                drop_own: true,
                received: 0,
                dropped: 0,
            }),
    {
        let r = Collector { port, local: Vec::new(), drop_own: true, received: 0, dropped: 0 };
        assert(r@.local =~= Seq::<IpAddress>::empty());
        r
    }

    pub fn port(&self) -> (r: i32)
        ensures
            r == self@.port,
    {
        self.port
    }

    pub fn received(&self) -> (r: u64)
        ensures
            r == self@.received,
    {
        self.received
    }

    pub fn dropped(&self) -> (r: u64)
        ensures
            r == self@.dropped,
    {
        self.dropped
    }

    pub fn drops_own(&self) -> (r: bool)
        ensures
            r == self@.drop_own,
    {
        self.drop_own
    }

    /// The addresses learned so far, each once.
    pub fn local_addresses(&self) -> (r: Vec<IpAddress>)
        ensures
            r@ == self@.local,
    {
        self.local.clone()
    }

    /// Switches the dropping of its own traffic on or off.
    pub fn set_drop_own(&mut self, on: bool)
        ensures
            final(self)@ == (CollectorView { drop_own: on, ..old(self)@ }),
    {
        self.drop_own = on;
    }

    /// Counts one report received.
    pub fn count_received(&mut self)
        ensures
            final(self)@ == (CollectorView { received: next_count(old(self)@.received), ..old(self)@ }),
    {
        self.received = if self.received == u64::MAX {
            0
        } else {
            self.received + 1
        };
    }

    /// Remembers an address under which a sender reaches the receiver;
    /// `true` where it was new.
    pub fn remember_local_address(&mut self, ip: IpAddress) -> (added: bool)
        ensures
            added == !old(self)@.local.contains(ip),
            final(self)@ == (CollectorView {
                local: if added {
                    old(self)@.local.push(ip)
                } else {
                    old(self)@.local
                },
                ..old(self)@
            }),
    {
        if local_has(&self.local, ip) {
            false
        } else {
            self.local.push(ip);
            true
        }
    }

    /// Whether this line describes the path of the log reports themselves.
    pub fn is_own_syslog(&self, p: &ParsedLog) -> (r: bool)
        ensures
            r == own_syslog(self@, p@),
    {
        let firewall = match p.log_type {
            Some(LogType::Firewall) => true,
            _ => false,
        };
        if !firewall {
            return false;
        }
        let to_us = p.dst_port == Some(self.port) && match p.dst_ip {
            Some(ip) => local_has(&self.local, ip),
            None => false,
        };
        let from_us = p.src_port == Some(self.port) && match p.src_ip {
            Some(ip) => local_has(&self.local, ip),
            None => false,
        };
        to_us || from_us
    }

    /// True where the line is to be dropped — and counts it then.
    pub fn should_drop(&mut self, p: &ParsedLog) -> (r: bool)
        ensures
            r == (old(self)@.drop_own && own_syslog(old(self)@, p@)),
            final(self)@ == (CollectorView {
                dropped: if r {
                    next_count(old(self)@.dropped)
                } else {
                    old(self)@.dropped
                },
                ..old(self)@
            }),
    {
        if !self.drop_own || !self.is_own_syslog(p) {
            return false;
        }
        self.dropped = if self.dropped == u64::MAX {
            0
        } else {
            self.dropped + 1
        };
        true
    }
}

/// Nothing is dropped before the receiver knows an address of its own:
/// else, at start-up, other hosts' syslog would vanish only because the
/// port matches.
pub proof fn lemma_nothing_dropped_without_address(c: CollectorView, p: LogView)
    requires
        c.local.len() == 0,
    ensures
        !own_syslog(c, p),
{
}

/// Only firewall rows describe the transport; a DNS or system row over the
/// same port is content.
pub proof fn lemma_only_firewall_rows(c: CollectorView, p: LogView)
    requires
        p.log_type != Some(LogType::Firewall),
    ensures
        !own_syslog(c, p),
{
}

// ---------------------------------------------------------------------------
// Incoming datagrams
// ---------------------------------------------------------------------------

/// The line without trailing carriage returns, line feeds and NULs.
pub open spec fn strip_line_end(s: Seq<char>) -> Seq<char>
    decreases s.len(),
{
    if s.len() > 0 && (s.last() == '\r' || s.last() == '\n' || s.last() == '\0') {
        strip_line_end(s.drop_last())
    } else {
        s
    }
}

/// A line no parser understood, kept as a system row with its raw text.
pub open spec fn fallback_view(line: Seq<char>, now: i64) -> LogView {
    LogView { timestamp: Some(now), raw_log: line, ..blank_view(Some(LogType::System)) }
}

/// A received line, at `now`, as a row: `None` for a blank line; a line
/// the parsers understand as they parse it; any other as a system row with
/// its raw text. A line without a syslog header is always the latter; for
/// one with a header, the parse can still fail on the machine's local
/// time (a date inside a daylight-saving gap), and then it is the latter
/// too.
pub fn ingest_line(line: &str, now: i64, ctx: &FirewallCtx) -> (r: Option<ParsedLog>)
    ensures
        (r is None) == (strip_line_end(line@).len() == 0),
        r matches Some(p) ==> (header_view(strip_line_end(line@)) is None ==> p@ == fallback_view(
            strip_line_end(line@),
            now,
        )),
        r matches Some(p) ==> {
            let t = strip_line_end(line@);
            ||| p@ == fallback_view(t, now)
            ||| (header_view(t) matches Some(f) && p.timestamp is Some && p@ == log_view(
                t,
                f.host,
                f.body,
                f.priority,
                p.timestamp.unwrap(),
                names_view(ctx.wan_interfaces@),
                ctx.wan_ips@,
            ))
        },
{
    let cs = chars_of(line);
    let mut e = cs.len();
    assert(cs@.take(e as int) =~= cs@);
    while e > 0 && (cs[e - 1] == '\r' || cs[e - 1] == '\n' || cs[e - 1] == '\0')
        invariant
            e <= cs@.len(),
            cs@ == line@,
            strip_line_end(line@) == strip_line_end(cs@.take(e as int)),
        decreases e,
    {
        assert(cs@.take(e as int).drop_last() =~= cs@.take(e - 1));
        e = e - 1;
    }
    if e == 0 {
        return None;
    }
    let t = crate::text::slice(cs.as_slice(), 0, e);
    assert(t@ =~= cs@.take(e as int));
    let text = string_from(t.as_slice());
    match parse_log(text.as_str(), now, ctx) {
        Some(p) => Some(p),
        None => {
            let mut p = ParsedLog::blank(Some(LogType::System));
            p.timestamp = Some(now);
            p.raw_log = text;
            Some(p)
        },
    }
}

// ---------------------------------------------------------------------------
// Stored directions after a change of the WAN interfaces
// ---------------------------------------------------------------------------

/// The names, lower-cased as `str::to_lowercase` does.
pub open spec fn lowered(names: Seq<Seq<char>>) -> Seq<Seq<char>> {
    names.map_values(|n: Seq<char>| lowercase(n))
}

/// The statement that corrects the direction of stored firewall rows once
/// the WAN interfaces are known (ids: 1 inbound, 2 outbound, 3 local, 4
/// inter-VLAN): only rows read as local or inter-VLAN, of which exactly
/// one side now faces the WAN, change — to inbound where that is the
/// incoming side, else to outbound. A missing side faces no WAN. Rows with
/// a reason of their own (NAT, VPN) stay. The lower-cased WAN names are
/// bound at each of the three places that ask.
pub open spec fn direction_fix_pieces(names: Seq<Seq<char>>) -> Seq<PieceView> {
    let n = bv(BindView::Names(names));
    seq![
        sq("UPDATE logs l SET direction_id = d.dir FROM (SELECT src.timestamp, src.id, CASE WHEN COALESCE(lower(ii.name) = ANY("@),
        n,
        sq("), FALSE) THEN 1::smallint ELSE 2::smallint END AS dir FROM logs src LEFT JOIN interfaces ii ON ii.id = src.iface_in_id LEFT JOIN interfaces io ON io.id = src.iface_out_id WHERE src.log_type_id = 1 AND src.direction_id IN (3, 4) AND COALESCE(lower(ii.name) = ANY("@),
        n,
        sq("), FALSE) <> COALESCE(lower(io.name) = ANY("@),
        n,
        sq("), FALSE)) d WHERE l.timestamp = d.timestamp AND l.id = d.id"@),
    ]
}

/// The statement that brings the direction of stored rows in line with
/// the WAN interfaces; nothing where no interface faces the WAN.
pub fn direction_fix_query(wan: &Vec<String>) -> (r: Option<Vec<Piece>>)
    ensures
        match r {
            Some(q) => wan@.len() > 0 && pieces(q@) == direction_fix_pieces(lowered(strs(wan@))),
            None => wan@.len() == 0,
        },
{
    if wan.len() == 0 {
        return None;
    }
    let mut names: Vec<String> = Vec::new();
    let mut i: usize = 0;
    while i < wan.len()
        invariant
            0 <= i <= wan@.len(),
            strs(names@) == lowered(strs(wan@)).take(i as int),
        decreases wan.len() - i,
    {
        let ghost before = names@;
        names.push(to_lowercase(wan[i].as_str()));
        assert(strs(names@) =~= strs(before).push(lowercase(wan@[i as int]@)));
        i = i + 1;
        assert(strs(names@) =~= lowered(strs(wan@)).take(i as int));
    }
    assert(lowered(strs(wan@)).take(wan@.len() as int) =~= lowered(strs(wan@)));
    let mut q: Vec<Piece> = Vec::new();
    push_sql(
        &mut q,
        "UPDATE logs l SET direction_id = d.dir FROM (SELECT src.timestamp, src.id, CASE WHEN COALESCE(lower(ii.name) = ANY(",
    );
    push_bind(&mut q, Bind::Names(copy_names(&names)));
    push_sql(
        &mut q,
        "), FALSE) THEN 1::smallint ELSE 2::smallint END AS dir FROM logs src LEFT JOIN interfaces ii ON ii.id = src.iface_in_id LEFT JOIN interfaces io ON io.id = src.iface_out_id WHERE src.log_type_id = 1 AND src.direction_id IN (3, 4) AND COALESCE(lower(ii.name) = ANY(",
    );
    push_bind(&mut q, Bind::Names(copy_names(&names)));
    push_sql(&mut q, "), FALSE) <> COALESCE(lower(io.name) = ANY(");
    push_bind(&mut q, Bind::Names(names));
    push_sql(&mut q, "), FALSE)) d WHERE l.timestamp = d.timestamp AND l.id = d.id");
    assert(pieces(q@) =~= direction_fix_pieces(lowered(strs(wan@))));
    Some(q)
}

fn copy_names(v: &Vec<String>) -> (r: Vec<String>)
    ensures
        strs(r@) == strs(v@),
{
    let mut out: Vec<String> = Vec::new();
    let mut i: usize = 0;
    while i < v.len()
        invariant
            0 <= i <= v@.len(),
            strs(out@) == strs(v@).take(i as int),
        decreases v.len() - i,
    {
        let ghost before = out@;
        out.push(v[i].clone());
        assert(strs(out@) =~= strs(before).push(v@[i as int]@));
        i = i + 1;
        assert(strs(out@) =~= strs(v@).take(i as int));
    }
    assert(strs(v@).take(v@.len() as int) =~= strs(v@));
    out
}

} // verus!
