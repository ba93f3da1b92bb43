//! Pi-hole as a second source of DNS queries. Its queries go into the same
//! writer channel as the syslog lines; for everything after that they are
//! ordinary DNS rows, and filters, search and enrichment need no special
//! case.
use vstd::prelude::*;
use crate::net::{parse_ip_chars, parsed_ip, IpAddress};
use crate::text::{
    ascii_upper, chars_of, find_char, find_char_exec, parse_i32, parse_int, same_str, slice,
    starts_with, starts_with_str, string_from, to_uppercase, upper_ascii, uppercase,
};
use crate::types::{
    blank_view, ov, Detail, DetailView, Details, DetailsView, FieldMap, LogType, LogView, ParsedLog,
    RuleAction,
};

verus! {

/// The first second a timestamp can hold.
pub const FIRST_SECOND: i64 = -8_334_601_315_200;

/// The last second a timestamp can hold.
pub const LAST_SECOND: i64 = 8_210_266_876_799;

/// Whether a Pi-hole status is a block. Of its nineteen states nine mean
/// "blocked": from the gravity list, by a regular expression, by the deny
/// list, each also on a CNAME chain, and where the upstream blocks itself.
/// The rest were let through, answered from the cache or forwarded. An
/// empty or `UNKNOWN` status is no decision yet.
pub open spec fn blocked_of(status: Seq<char>) -> Option<RuleAction> {
    let s = ascii_upper(status);
    if s.len() == 0 || s == "UNKNOWN"@ {
        None
    } else if starts_with(s, "GRAVITY"@) || starts_with(s, "DENYLIST"@) || starts_with(
        s,
        "BLACKLIST"@,
    ) || starts_with(s, "REGEX"@) || starts_with(s, "EXTERNAL_BLOCKED"@) || s == "SPECIAL_DOMAIN"@
        || s == "DBBUSY"@ {
        Some(RuleAction::Block)
    } else {
        Some(RuleAction::Allow)
    }
}

/// Whether a Pi-hole status is a block.
pub fn blocked(status: &str) -> (r: Option<RuleAction>)
    ensures
        r == blocked_of(status@),
{
    let cs = chars_of(status);
    let u = upper_ascii(cs.as_slice());
    let s = u.as_slice();
    if s.len() == 0 || same_str(s, "UNKNOWN") {
        return None;
    }
    let is_block = starts_with_str(s, "GRAVITY") || starts_with_str(s, "DENYLIST")
        || starts_with_str(s, "BLACKLIST") || starts_with_str(s, "REGEX") || starts_with_str(
        s,
        "EXTERNAL_BLOCKED",
    ) || same_str(s, "SPECIAL_DOMAIN") || same_str(s, "DBBUSY");
    Some(
        if is_block {
            RuleAction::Block
        } else {
            RuleAction::Allow
        },
    )
}

/// A query as Pi-hole reports it, in plain values: texts where the answer
/// holds texts, and the JSON text of the values kept as details.
#[derive(Debug, Clone)]
pub struct PiholeQuery {
    pub id: Option<i64>,
    /// Whole seconds since the epoch.
    pub time: Option<i64>,
    pub qtype: Option<String>,
    pub domain: Option<String>,
    pub status: Option<String>,
    /// The client's address, given as an object's `ip` or as a bare text.
    pub client_ip: Option<String>,
    pub client_name: Option<String>,
    /// `address#port` of the upstream asked.
    pub upstream: Option<String>,
    pub reply_type: Option<String>,
    pub reply_type_json: Option<String>,
    pub reply_time_json: Option<String>,
    pub upstream_json: Option<String>,
    pub dnssec_json: Option<String>,
    pub cname_json: Option<String>,
    pub ttl_json: Option<String>,
}

pub struct QueryView {
    pub id: Option<i64>,
    pub time: Option<i64>,
    pub qtype: Option<Seq<char>>,
    pub domain: Option<Seq<char>>,
    pub status: Option<Seq<char>>,
    pub client_ip: Option<Seq<char>>,
    pub client_name: Option<Seq<char>>,
    pub upstream: Option<Seq<char>>,
    pub reply_type: Option<Seq<char>>,
    pub reply_type_json: Option<Seq<char>>,
    pub reply_time_json: Option<Seq<char>>,
    pub upstream_json: Option<Seq<char>>,
    pub dnssec_json: Option<Seq<char>>,
    pub cname_json: Option<Seq<char>>,
    pub ttl_json: Option<Seq<char>>,
}

impl View for PiholeQuery {
    type V = QueryView;

    open spec fn view(&self) -> QueryView {
        QueryView {
            id: self.id,
            time: self.time,
            qtype: ov(self.qtype),
            domain: ov(self.domain),
            status: ov(self.status),
            client_ip: ov(self.client_ip),
            client_name: ov(self.client_name),
            upstream: ov(self.upstream),
            reply_type: ov(self.reply_type),
            reply_type_json: ov(self.reply_type_json),
            reply_time_json: ov(self.reply_time_json),
            upstream_json: ov(self.upstream_json),
            dnssec_json: ov(self.dnssec_json),
            cname_json: ov(self.cname_json),
            ttl_json: ov(self.ttl_json),
        }
    }
}

pub open spec fn text_or_empty(o: Option<Seq<char>>) -> Seq<char> {
    match o {
        Some(s) => s,
        None => Seq::empty(),
    }
}

/// The upstream `10.10.10.1#53` as destination address and port; without
/// `#` the port is 53.
pub open spec fn upstream_target(u: Option<Seq<char>>) -> (Option<IpAddress>, Option<i32>) {
    match u {
        Some(s) if s.len() > 0 => match find_char(s, '#') {
            Some(i) => (
                parsed_ip(s.subrange(0, i)),
                match parse_int(s.subrange(i + 1, s.len() as int), true, i32::MIN as int, i32::MAX as int) {
                    Some(p) => Some(p as i32),
                    None => None,
                },
            ),
            None => (parsed_ip(s), Some(53i32)),
        },
        _ => (None, None),
    }
}

pub open spec fn json_entry(key: Seq<char>, v: Option<Seq<char>>) -> Seq<(Seq<char>, DetailView)> {
    match v {
        Some(j) => seq![(key, DetailView::Json(j))],
        None => Seq::empty(),
    }
}

/// The details of a query: its status (upper-cased), and where present the
/// reply's type and time, the upstream, DNSSEC, CNAME and TTL as Pi-hole
/// gave them.
pub open spec fn query_details(q: QueryView) -> Seq<(Seq<char>, DetailView)> {
    seq![("status"@, DetailView::Text(uppercase(text_or_empty(q.status))))] + json_entry(
        "reply_type"@,
        q.reply_type_json,
    ) + json_entry("reply_time"@, q.reply_time_json) + json_entry("upstream"@, q.upstream_json)
        + json_entry("dnssec"@, q.dnssec_json) + json_entry("cname"@, q.cname_json) + json_entry(
        "ttl"@,
        q.ttl_json,
    )
}

/// A Pi-hole query as a DNS row, at `now` where it carries no usable time.
/// The answer is what came back — the reply's type — and only without one
/// the status; the action is that of the status, the destination the
/// upstream asked, and the status itself stays among the details. A query
/// without a domain is no row.
pub open spec fn query_row(q: QueryView, now: i64) -> Option<LogView> {
    match q.domain {
        Some(domain) if domain.len() > 0 => {
            let status = uppercase(text_or_empty(q.status));
            let (dst_ip, dst_port) = upstream_target(q.upstream);
            Some(
                LogView {
                    timestamp: Some(
                        match q.time {
                            Some(t) if FIRST_SECOND <= t <= LAST_SECOND => t,
                            _ => now,
                        },
                    ),
                    dns_query: Some(domain),
                    dns_type: match q.qtype {
                        Some(t) => Some(uppercase(t)),
                        None => None,
                    },
                    dns_answer: match q.reply_type {
                        Some(t) => Some(uppercase(t)),
                        None => Some(status),
                    },
                    rule_action: blocked_of(status),
                    src_ip: match q.client_ip {
                        Some(c) => parsed_ip(c),
                        None => None,
                    },
                    dst_ip,
                    dst_port,
                    hostname: match q.client_name {
                        Some(n) if n.len() > 0 => Some(n),
                        _ => None,
                    },
                    details: Some(DetailsView::Fields(query_details(q))),
                    ..blank_view(Some(LogType::Dns))
                },
            )
        },
        _ => None,
    }
}

fn upper_opt(o: &Option<String>) -> (r: Option<String>)
    ensures
        ov(r) == match ov(*o) {
            Some(s) => Some(uppercase(s)),
            None => None,
        },
{
    match o {
        Some(s) => Some(to_uppercase(s.as_str())),
        None => None,
    }
}

fn push_json(entries: &mut Vec<(String, Detail)>, key: &str, v: &Option<String>)
    ensures
        crate::types::entries_view(final(entries)@) == crate::types::entries_view(old(entries)@)
            + json_entry(key@, ov(*v)),
{
    let ghost before = entries@;
    match v {
        Some(j) => {
            entries.push((key.to_string(), Detail::Json(j.clone())));
            assert(crate::types::entries_view(entries@) =~= crate::types::entries_view(before)
                + json_entry(key@, ov(*v)));
        },
        None => {
            assert(crate::types::entries_view(entries@) =~= crate::types::entries_view(before)
                + json_entry(key@, ov(*v)));
        },
    }
}

fn upstream_parts(u: &Option<String>) -> (r: (Option<IpAddress>, Option<i32>))
    ensures
        r == upstream_target(ov(*u)),
{
    match u {
        Some(s) => {
            let cs = chars_of(s.as_str());
            if cs.len() == 0 {
                return (None, None);
            }
            match find_char_exec(cs.as_slice(), '#') {
                Some(i) => {
                    proof {
                        crate::text::lemma_find_char_from_bounds(cs@, '#', 0);
                    }
                    let host = slice(cs.as_slice(), 0, i);
                    let port = slice(cs.as_slice(), i + 1, cs.len());
                    let p = parse_i32(port.as_slice());
                    (parse_ip_chars(host.as_slice()), p)
                },
                None => (parse_ip_chars(cs.as_slice()), Some(53)),
            }
        },
        None => (None, None),
    }
}

/// A Pi-hole query as a DNS row.
pub fn to_log(q: &PiholeQuery, now: i64) -> (r: Option<ParsedLog>)
    ensures
        match r {
            Some(p) => query_row(q@, now) == Some(p@),
            None => query_row(q@, now) is None,
        },
{
    let domain = match &q.domain {
        Some(d) => d,
        None => return None,
    };
    if chars_of(domain.as_str()).len() == 0 {
        return None;
    }
    let ts = match q.time {
        Some(t) if FIRST_SECOND <= t && t <= LAST_SECOND => t,
        _ => now,
    };
    let raw_status = match &q.status {
        Some(s) => s.clone(),
        None => String::new(),
    };
    assert(raw_status@ == text_or_empty(ov(q.status)));
    let status = to_uppercase(raw_status.as_str());
    let (dst_ip, dst_port) = upstream_parts(&q.upstream);
    let mut entries: Vec<(String, Detail)> = Vec::new();
    entries.push(("status".to_string(), Detail::Text(status.clone())));
    push_json(&mut entries, "reply_type", &q.reply_type_json);
    push_json(&mut entries, "reply_time", &q.reply_time_json);
    push_json(&mut entries, "upstream", &q.upstream_json);
    push_json(&mut entries, "dnssec", &q.dnssec_json);
    push_json(&mut entries, "cname", &q.cname_json);
    push_json(&mut entries, "ttl", &q.ttl_json);
    let details = FieldMap { entries };
    assert(details@ =~= query_details(q@));
    let mut p = ParsedLog::blank(Some(LogType::Dns));
    p.timestamp = Some(ts);
    p.dns_query = Some(domain.clone());
    p.dns_type = upper_opt(&q.qtype);
    p.dns_answer = match &q.reply_type {
        Some(t) => Some(to_uppercase(t.as_str())),
        None => Some(status.clone()),
    };
    p.rule_action = blocked(status.as_str());
    p.src_ip = match &q.client_ip {
        Some(c) => crate::net::parse_ip(c.as_str()),
        None => None,
    };
    p.dst_ip = dst_ip;
    p.dst_port = dst_port;
    p.hostname = match &q.client_name {
        Some(n) => if chars_of(n.as_str()).len() > 0 {
            Some(n.clone())
        } else {
            None
        },
        None => None,
    };
    p.details = Some(Details::Fields(details));
    Some(p)
}

/// The rows of the queries after `after_id`, and the highest id seen (at
/// least `after_id`): a second fetch from the same id brings nothing new.
pub open spec fn new_rows_of(qs: Seq<QueryView>, after_id: i64, now: i64) -> (Seq<LogView>, i64)
    decreases qs.len(),
{
    if qs.len() == 0 {
        (Seq::empty(), after_id)
    } else {
        let (rows, highest) = new_rows_of(qs.drop_last(), after_id, now);
        let q = qs.last();
        let id = match q.id {
            Some(i) => i,
            None => 0,
        };
        if id <= after_id {
            (rows, highest)
        } else {
            (
                match query_row(q, now) {
                    Some(r) => rows.push(r),
                    None => rows,
                },
                if id > highest {
                    id
                } else {
                    highest
                },
            )
        }
    }
}

/// The id a query is counted under: 0 where it has none.
pub open spec fn query_id(q: QueryView) -> i64 {
    match q.id {
        Some(i) => i,
        None => 0,
    }
}

proof fn lemma_highest_bounds(qs: Seq<QueryView>, after_id: i64, now: i64)
    ensures
        after_id <= new_rows_of(qs, after_id, now).1,
        forall|i: int| 0 <= i < qs.len() ==> query_id(#[trigger] qs[i]) <= new_rows_of(qs, after_id, now).1,
    decreases qs.len(),
{
    if qs.len() > 0 {
        lemma_highest_bounds(qs.drop_last(), after_id, now);
        assert forall|i: int| 0 <= i < qs.len() implies query_id(#[trigger] qs[i]) <= new_rows_of(
            qs,
            after_id,
            now,
        ).1 by {
            if i < qs.len() - 1 {
                assert(qs[i] == qs.drop_last()[i]);
            }
        }
    }
}

proof fn lemma_nothing_above(qs: Seq<QueryView>, h: i64, now: i64)
    requires
        forall|i: int| 0 <= i < qs.len() ==> query_id(#[trigger] qs[i]) <= h,
    ensures
        new_rows_of(qs, h, now).0.len() == 0,
        new_rows_of(qs, h, now).1 == h,
    decreases qs.len(),
{
    if qs.len() > 0 {
        assert forall|i: int| 0 <= i < qs.drop_last().len() implies query_id(#[trigger] qs.drop_last()[i])
            <= h by {
            assert(qs.drop_last()[i] == qs[i]);
        }
        lemma_nothing_above(qs.drop_last(), h, now);
        assert(query_id(qs[qs.len() - 1]) <= h);
    }
}

/// A second fetch of the same answer, from the highest id the first one
/// saw, brings no row and leaves the cursor where it is — else every pass
/// would write the same rows again.
pub proof fn lemma_second_fetch_brings_nothing(qs: Seq<QueryView>, after_id: i64, now: i64)
    ensures
        new_rows_of(qs, new_rows_of(qs, after_id, now).1, now).0.len() == 0,
        new_rows_of(qs, new_rows_of(qs, after_id, now).1, now).1 == new_rows_of(qs, after_id, now).1,
{
    lemma_highest_bounds(qs, after_id, now);
    lemma_nothing_above(qs, new_rows_of(qs, after_id, now).1, now);
}

pub open spec fn queries_view(qs: Seq<PiholeQuery>) -> Seq<QueryView> {
    qs.map_values(|q: PiholeQuery| q@)
}

pub open spec fn logs_view(ps: Seq<ParsedLog>) -> Seq<LogView> {
    ps.map_values(|p: ParsedLog| p@)
}

/// The rows of the queries Pi-hole returned that are new since `after_id`.
pub fn new_rows(qs: &[PiholeQuery], after_id: i64, now: i64) -> (r: (Vec<ParsedLog>, i64))
    ensures
        (logs_view(r.0@), r.1) == new_rows_of(queries_view(qs@), after_id, now),
{
    let mut out: Vec<ParsedLog> = Vec::new();
    let mut highest = after_id;
    let ghost qv = queries_view(qs@);
    let mut i: usize = 0;
    while i < qs.len()
        invariant
            0 <= i <= qs@.len(),
            qv == queries_view(qs@),
            (logs_view(out@), highest) == new_rows_of(qv.take(i as int), after_id, now),
        decreases qs.len() - i,
    {
        assert(qv.take(i + 1).drop_last() =~= qv.take(i as int));
        assert(qv.take(i + 1).last() == qs@[i as int]@);
        let q = &qs[i];
        let id = match q.id {
            Some(x) => x,
            None => 0,
        };
        if id > after_id {
            if id > highest {
                highest = id;
            }
            let ghost before = out@;
            match to_log(q, now) {
                Some(row) => {
                    out.push(row);
                    assert(logs_view(out@) =~= logs_view(before).push(out@.last()@));
                },
                None => {},
            }
        }
        i = i + 1;
    }
    assert(qv.take(qv.len() as int) =~= qv);
    (out, highest)
}

/// Address and password as set, or nothing while Pi-hole is switched off
/// or has no address.
pub open spec fn pihole_config_of(
    enabled: Option<bool>,
    url: Option<Seq<char>>,
    password: Option<Seq<char>>,
) -> Option<(Seq<char>, Seq<char>)> {
    if enabled != Some(true) {
        None
    } else {
        match url {
            Some(u) if u.len() > 0 => Some(
                (
                    u,
                    match password {
                        Some(p) if p.len() > 0 => p,
                        _ => Seq::empty(),
                    },
                ),
            ),
            _ => None,
        }
    }
}

/// Address and password as set.
pub fn pihole_config(enabled: Option<bool>, url: Option<String>, password: Option<String>) -> (r:
    Option<(String, String)>)
    ensures
        match r {
            Some((u, p)) => pihole_config_of(enabled, ov(url), ov(password)) == Some((u@, p@)),
            None => pihole_config_of(enabled, ov(url), ov(password)) is None,
        },
{
    if enabled != Some(true) {
        return None;
    }
    let u = match url {
        Some(u) => if chars_of(u.as_str()).len() > 0 {
            u
        } else {
            return None;
        },
        None => return None,
    };
    let p = match password {
        Some(p) => if chars_of(p.as_str()).len() > 0 {
            p
        } else {
            String::new()
        },
        None => String::new(),
    };
    Some((u, p))
}

/// The base address without trailing slashes.
pub open spec fn strip_slashes(s: Seq<char>) -> Seq<char>
    decreases s.len(),
{
    if s.len() > 0 && s.last() == '/' {
        strip_slashes(s.drop_last())
    } else {
        s
    }
}

/// The base address of a Pi-hole, without trailing slashes.
pub fn pihole_base(base: &str) -> (r: String)
    ensures
        r@ == strip_slashes(base@),
{
    let cs = chars_of(base);
    let mut e = cs.len();
    assert(cs@.take(e as int) =~= cs@);
    while e > 0 && cs[e - 1] == '/'
        invariant
            e <= cs@.len(),
            cs@ == base@,
            strip_slashes(base@) == strip_slashes(cs@.take(e as int)),
        decreases e,
    {
        assert(cs@.take(e as int).drop_last() =~= cs@.take(e - 1));
        e = e - 1;
    }
    let t = slice(cs.as_slice(), 0, e);
    assert(t@ =~= cs@.take(e as int));
    string_from(t.as_slice())
}

/// How a test of the Pi-hole settings went.
#[derive(Debug, Clone, PartialEq)]
pub enum TestOutcome {
    Connected { version: Option<String> },
    BadCredentials,
    Unreachable(String),
}

/// How a test went, from the sign-in's result and the version read after
/// it: a refused password is a credentials problem, every other failure an
/// unreachable host.
pub fn test_outcome(auth: Result<(), String>, version: Option<String>) -> (r: TestOutcome)
    ensures
        match auth {
            Ok(_) => r matches TestOutcome::Connected { version: v } && ov(v) == ov(version),
            Err(e) => if e@ == "unauthorized"@ {
                r is BadCredentials
            } else {
                r matches TestOutcome::Unreachable(m) && m@ == e@
            },
        },
{
    match auth {
        Ok(_) => TestOutcome::Connected { version },
        Err(e) => {
            let ec = chars_of(e.as_str());
            if same_str(ec.as_slice(), "unauthorized") {
                TestOutcome::BadCredentials
            } else {
                TestOutcome::Unreachable(e)
            }
        },
    }
}

} // verus!
