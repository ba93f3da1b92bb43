//! The live stream sends what was just written — before the enrichment
//! (country, threat score, rDNS, ASN) knows anything about it. A filter
//! that asks for those fields cannot be answered honestly: `Unknowable`
//! says so, rather than dropping the row in silence.
use vstd::prelude::*;
use crate::filters::{FilterView, LogFilter};
use crate::live::{LiveRow, LiveView};
use crate::net::{contains as net_has, net_contains, IpAddress};
use crate::search::{
    parse_search, search_terms, term_wf, terms_view, Field, Term, TermView, Value, ValueView,
};
use crate::sql::strs;
use crate::text::{
    chars_of, contains, eq_ignore_case, eq_ignore_case_exec, find_exec, find_from, find_from_exec,
    lemma_find_from_bounds, lowercase, same, split_on, split_parts, starts_with, starts_with_exec,
    to_lowercase, ends_with, matches_at_exec,
};
use crate::types::{log_type_text, ov, rule_action_text};

verus! {

/// What the stream does with a row.
#[derive(Debug, Clone, Copy, PartialEq, Eq, Structural)]
pub enum Verdict {
    Pass,
    Reject,
    /// The filter asks for something only the enrichment knows.
    Unknowable,
}

/// Three-valued AND: a certain `Reject` always wins (the row goes either
/// way), else `Unknowable` (we do not know better), else `Pass`.
pub open spec fn combine_all(vs: Seq<Verdict>) -> Verdict {
    if vs.contains(Verdict::Reject) {
        Verdict::Reject
    } else if vs.contains(Verdict::Unknowable) {
        Verdict::Unknowable
    } else {
        Verdict::Pass
    }
}

/// Three-valued AND of two verdicts.
pub open spec fn both(a: Verdict, b: Verdict) -> Verdict {
    combine_all(seq![a, b])
}

/// Combines verdicts by three-valued AND.
pub fn combine(vs: &[Verdict]) -> (r: Verdict)
    ensures
        r == combine_all(vs@),
{
    let mut unknowable = false;
    let mut i: usize = 0;
    while i < vs.len()
        invariant
            0 <= i <= vs@.len(),
            forall|k: int| 0 <= k < i ==> vs@[k] != Verdict::Reject,
            unknowable <==> exists|k: int| 0 <= k < i && vs@[k] == Verdict::Unknowable,
        decreases vs.len() - i,
    {
        match vs[i] {
            Verdict::Reject => {
                assert(vs@[i as int] == Verdict::Reject);
                return Verdict::Reject;
            },
            Verdict::Unknowable => {
                unknowable = true;
            },
            Verdict::Pass => {},
        }
        i = i + 1;
    }
    if unknowable {
        Verdict::Unknowable
    } else {
        assert(!vs@.contains(Verdict::Unknowable));
        Verdict::Pass
    }
}

/// Some entry of the list equals the value, ignoring ASCII case.
pub open spec fn listed(active: Seq<Seq<char>>, v: Seq<char>) -> bool {
    exists|i: int| 0 <= i < active.len() && eq_ignore_case(#[trigger] active[i], v)
}

/// One of the filter lists (log type, action, direction, protocol) against
/// a single value of the row.
pub open spec fn list_verdict_of(active: Seq<Seq<char>>, value: Option<Seq<char>>) -> Verdict {
    if active.len() == 0 {
        Verdict::Pass
    } else {
        match value {
            Some(v) => if listed(active, v) {
                Verdict::Pass
            } else {
                Verdict::Reject
            },
            None => Verdict::Reject,
        }
    }
}

fn listed_exec(active: &[String], v: &str) -> (r: bool)
    ensures
        r == listed(strs(active@), v@),
{
    let vc = chars_of(v);
    let mut i: usize = 0;
    while i < active.len()
        invariant
            0 <= i <= active@.len(),
            vc@ == v@,
            forall|k: int| 0 <= k < i ==> !eq_ignore_case(#[trigger] strs(active@)[k], v@),
        decreases active.len() - i,
    {
        let ac = chars_of(active[i].as_str());
        assert(strs(active@)[i as int] == active@[i as int]@);
        if eq_ignore_case_exec(ac.as_slice(), vc.as_slice()) {
            return true;
        }
        i = i + 1;
    }
    false
}

/// One of the filter lists against a single value of the row.
pub fn list_verdict(active: &[String], value: Option<&str>) -> (r: Verdict)
    ensures
        r == list_verdict_of(
            strs(active@),
            match value {
                Some(v) => Some(v@),
                None => None,
            },
        ),
{
    if active.len() == 0 {
        return Verdict::Pass;
    }
    match value {
        Some(v) => if listed_exec(active, v) {
            Verdict::Pass
        } else {
            Verdict::Reject
        },
        None => Verdict::Reject,
    }
}

/// The interface list matches either side of the row.
pub open spec fn iface_verdict_of(
    active: Seq<Seq<char>>,
    iface_in: Option<Seq<char>>,
    iface_out: Option<Seq<char>>,
) -> Verdict {
    if active.len() == 0 {
        Verdict::Pass
    } else if (iface_in matches Some(i) && listed(active, i)) || (iface_out matches Some(o) && listed(
        active,
        o,
    )) {
        Verdict::Pass
    } else {
        Verdict::Reject
    }
}

/// The interface list against both sides of the row.
pub fn iface_verdict(active: &[String], iface_in: Option<&str>, iface_out: Option<&str>) -> (r:
    Verdict)
    ensures
        r == iface_verdict_of(
            strs(active@),
            match iface_in {
                Some(v) => Some(v@),
                None => None,
            },
            match iface_out {
                Some(v) => Some(v@),
                None => None,
            },
        ),
{
    if active.len() == 0 {
        return Verdict::Pass;
    }
    let hit_in = match iface_in {
        Some(i) => listed_exec(active, i),
        None => false,
    };
    let hit_out = match iface_out {
        Some(o) => listed_exec(active, o),
        None => false,
    };
    if hit_in || hit_out {
        Verdict::Pass
    } else {
        Verdict::Reject
    }
}

/// Exactly one side, unlike the interface list: a pair of zones has a
/// direction. An empty wish does not filter.
pub open spec fn exact_iface_verdict_of(want: Option<Seq<char>>, have: Option<Seq<char>>) -> Verdict {
    match want {
        Some(w) => if w.len() == 0 {
            Verdict::Pass
        } else if have matches Some(h) && eq_ignore_case(h, w) {
            Verdict::Pass
        } else {
            Verdict::Reject
        },
        None => Verdict::Pass,
    }
}

/// Exactly one side of the row.
pub fn exact_iface_verdict(want: Option<&str>, have: Option<&str>) -> (r: Verdict)
    ensures
        r == exact_iface_verdict_of(
            match want {
                Some(v) => Some(v@),
                None => None,
            },
            match have {
                Some(v) => Some(v@),
                None => None,
            },
        ),
{
    match want {
        None => Verdict::Pass,
        Some(w) => {
            let wc = chars_of(w);
            if wc.len() == 0 {
                return Verdict::Pass;
            }
            match have {
                Some(h) => {
                    let hc = chars_of(h);
                    if eq_ignore_case_exec(hc.as_slice(), wc.as_slice()) {
                        Verdict::Pass
                    } else {
                        Verdict::Reject
                    }
                },
                None => Verdict::Reject,
            }
        },
    }
}

/// A port filter matches either side of the row.
pub open spec fn port_verdict_of(port: Option<i32>, src: Option<i32>, dst: Option<i32>) -> Verdict {
    match port {
        None => Verdict::Pass,
        Some(p) => if src == Some(p) || dst == Some(p) {
            Verdict::Pass
        } else {
            Verdict::Reject
        },
    }
}

/// A port filter against the row's ports.
pub fn port_verdict(port: Option<i32>, src: Option<i32>, dst: Option<i32>) -> (r: Verdict)
    ensures
        r == port_verdict_of(port, src, dst),
{
    match port {
        None => Verdict::Pass,
        Some(p) => {
            let s = match src {
                Some(x) => x == p,
                None => false,
            };
            let d = match dst {
                Some(x) => x == p,
                None => false,
            };
            if s || d {
                Verdict::Pass
            } else {
                Verdict::Reject
            }
        },
    }
}

/// Country and least threat score ask for columns a fresh row does not
/// have yet.
pub open spec fn enriched_verdict_of(f: FilterView) -> Verdict {
    if f.country.len() > 0 || f.threat_min is Some {
        Verdict::Unknowable
    } else {
        Verdict::Pass
    }
}

/// Whether the filter asks for what only the enrichment knows.
pub fn enriched_verdict(f: &LogFilter) -> (r: Verdict)
    ensures
        r == enriched_verdict_of(f@),
{
    if f.country.len() > 0 || f.threat_min.is_some() {
        Verdict::Unknowable
    } else {
        Verdict::Pass
    }
}

// ---------------------------------------------------------------------------
// Text
// ---------------------------------------------------------------------------

/// The pattern's parts after the first, found one after the other from
/// `pos` on; empty parts are skipped.
pub open spec fn parts_found(h: Seq<char>, parts: Seq<Seq<char>>, pos: int) -> bool
    decreases parts.len(),
{
    if parts.len() == 0 {
        true
    } else if parts[0].len() == 0 {
        parts_found(h, parts.drop_first(), pos)
    } else {
        match find_from(h, parts[0], pos) {
            Some(i) => parts_found(h, parts.drop_first(), i + parts[0].len()),
            None => false,
        }
    }
}

/// `*` in a pattern stands for any text, and the pattern covers the whole
/// text — as `ILIKE` with `%` does: without a `*` the text is the pattern;
/// else it starts with the part before the first `*`, ends with the part
/// after the last, the two not overlapping, and the parts between follow
/// in order in what lies between.
pub open spec fn glob_matches(h: Seq<char>, p: Seq<char>) -> bool {
    let parts = split_parts(p, '*');
    if parts.len() == 1 {
        h == parts[0]
    } else {
        let last = parts.last();
        &&& parts[0].len() + last.len() <= h.len()
        &&& starts_with(h, parts[0])
        &&& ends_with(h, last)
        &&& parts_found(h.take(h.len() - last.len()), parts.drop_first().drop_last(), parts[0].len() as int)
    }
}

/// A pattern against a text, both lower-cased.
pub open spec fn glob_hit(hay: Seq<char>, pattern: Seq<char>) -> bool {
    glob_matches(lowercase(hay), lowercase(pattern))
}

/// Matches a text against a pattern with `*`, ignoring case.
pub fn glob_match(haystack: &str, pattern: &str) -> (r: bool)
    ensures
        r == glob_hit(haystack@, pattern@),
{
    let hs = to_lowercase(haystack);
    let ps = to_lowercase(pattern);
    let h = chars_of(hs.as_str());
    let p = chars_of(ps.as_str());
    let parts = split_on(p.as_slice(), '*');
    let ghost pv = split_parts(p@, '*');
    assert(parts@[0]@ == pv[0]);
    let n = parts.len();
    if n == 1 {
        return same(h.as_slice(), parts[0].as_slice());
    }
    let first = parts[0].as_slice();
    let last = parts[n - 1].as_slice();
    assert(last@ == pv.last());
    if first.len() > h.len() || last.len() > h.len() - first.len() {
        return false;
    }
    if !starts_with_exec(h.as_slice(), first) {
        return false;
    }
    let end = h.len() - last.len();
    if !matches_at_exec(h.as_slice(), last, end) {
        assert(h@.skip(end as int) =~= h@.subrange(end as int, end + last@.len()));
        return false;
    }
    assert(h@.skip(end as int) =~= h@.subrange(end as int, end + last@.len()));
    let w = crate::text::slice(h.as_slice(), 0, end);
    assert(w@ =~= h@.take(end as int));
    let ghost mid = pv.drop_first().drop_last();
    let mut pos: usize = first.len();
    let mut i: usize = 1;
    assert(mid =~= pv.subrange(1, n - 1));
    while i < n - 1
        invariant
            1 <= i <= n - 1,
            n == pv.len(),
            parts@.len() == pv.len(),
            forall|k: int| 0 <= k < parts@.len() ==> #[trigger] parts@[k]@ == pv[k],
            pos <= w@.len(),
            w@ == h@.take(h@.len() - pv.last().len()),
            h@ == lowercase(haystack@),
            p@ == lowercase(pattern@),
            pv == split_parts(p@, '*'),
            glob_matches(h@, p@) == parts_found(w@, pv.subrange(i as int, n - 1), pos as int),
        decreases n - i,
    {
        let part = parts[i].as_slice();
        assert(part@ == pv[i as int]);
        assert(pv.subrange(i as int, n - 1)[0] == pv[i as int]);
        assert(pv.subrange(i as int, n - 1).drop_first() =~= pv.subrange(i + 1, n - 1));
        if part.len() == 0 {
            i = i + 1;
        } else {
            proof {
                lemma_find_from_bounds(w@, part@, pos as int);
            }
            match find_from_exec(w.as_slice(), part, pos) {
                Some(idx) => {
                    assert(idx + part@.len() <= w@.len());
                    assert(w@.len() == w.len());
                    pos = idx + part.len();
                    i = i + 1;
                },
                None => {
                    return false;
                },
            }
        }
    }
    assert(pv.subrange(i as int, n - 1) =~= Seq::<Seq<char>>::empty());
    true
}

/// A term's text against a field: as a pattern where it holds `*`, else as
/// a piece of the field, ignoring case.
pub open spec fn text_hit_of(hay: Seq<char>, needle: Seq<char>, glob: bool) -> bool {
    if glob {
        glob_hit(hay, needle)
    } else {
        contains(lowercase(hay), lowercase(needle))
    }
}

/// A term's text against a field.
pub fn text_hit(hay: &str, needle: &str, glob: bool) -> (r: bool)
    ensures
        r == text_hit_of(hay@, needle@, glob),
{
    if glob {
        glob_match(hay, needle)
    } else {
        let h = to_lowercase(hay);
        let n = to_lowercase(needle);
        let hc = chars_of(h.as_str());
        let nc = chars_of(n.as_str());
        find_exec(hc.as_slice(), nc.as_slice()).is_some()
    }
}

/// A term's text against an optional field: a missing field is no hit.
pub open spec fn opt_hit(hay: Option<Seq<char>>, needle: Seq<char>, glob: bool) -> bool {
    hay matches Some(h) && text_hit_of(h, needle, glob)
}

fn opt_hit_exec(hay: &Option<String>, needle: &str, glob: bool) -> (r: bool)
    ensures
        r == opt_hit(
            match hay {
                Some(h) => Some(h@),
                None => None,
            },
            needle@,
            glob,
        ),
{
    match hay {
        Some(h) => text_hit(h.as_str(), needle, glob),
        None => false,
    }
}

// ---------------------------------------------------------------------------
// Search terms
// ---------------------------------------------------------------------------

pub open spec fn hit(b: bool) -> Verdict {
    if b {
        Verdict::Pass
    } else {
        Verdict::Reject
    }
}

pub open spec fn in_net(n: crate::net::Network, ip: Option<IpAddress>) -> bool {
    ip matches Some(a) && net_contains(n, a)
}

/// Whether exactly this term matches the row, leaving its negation aside.
/// Country and AS are not known to a fresh row, by name or by number; of
/// a host only the device name is. Free text goes through the text fields
/// a live row has.
pub open spec fn term_hit_of(row: LiveView, t: TermView) -> Verdict {
    match t.value {
        ValueView::Ip(ip) => hit(
            match t.field {
                Some(Field::SrcIp) => row.src_ip == Some(ip),
                Some(Field::DstIp) => row.dst_ip == Some(ip),
                _ => row.src_ip == Some(ip) || row.dst_ip == Some(ip),
            },
        ),
        ValueView::Cidr(n) => hit(
            match t.field {
                Some(Field::SrcIp) => in_net(n, row.src_ip),
                Some(Field::DstIp) => in_net(n, row.dst_ip),
                _ => in_net(n, row.src_ip) || in_net(n, row.dst_ip),
            },
        ),
        ValueView::Port(p) => hit(
            match t.field {
                Some(Field::SrcPort) => row.src_port == Some(p),
                Some(Field::DstPort) => row.dst_port == Some(p),
                _ => row.src_port == Some(p) || row.dst_port == Some(p),
            },
        ),
        ValueView::Mac(m) => hit(row.mac_address matches Some(a) && lowercase(a) == m),
        ValueView::Asn(_) => Verdict::Unknowable,
        ValueView::Text(x) => match t.field {
            Some(Field::Country) => Verdict::Unknowable,
            Some(Field::Asn) => Verdict::Unknowable,
            Some(Field::Action) => hit(
                row.rule_action matches Some(a) && eq_ignore_case(rule_action_text(a), x),
            ),
            Some(Field::LogType) => hit(eq_ignore_case(log_type_text(row.log_type), x)),
            Some(Field::Rule) => hit(opt_hit(row.rule_name, x, t.glob)),
            Some(Field::Protocol) => hit(opt_hit(row.protocol, x, t.glob)),
            Some(Field::Interface) => hit(
                opt_hit(row.iface_in, x, t.glob) || opt_hit(row.iface_out, x, t.glob),
            ),
            Some(Field::Host) => hit(opt_hit(row.hostname, x, t.glob)),
            _ => hit(free_text_hit(row, x, t.glob)),
        },
    }
}

/// Free text against every text field of a live row.
pub open spec fn free_text_hit(row: LiveView, x: Seq<char>, glob: bool) -> bool {
    ||| opt_hit(row.rule_name, x, glob)
    ||| opt_hit(row.protocol, x, glob)
    ||| opt_hit(row.iface_in, x, glob)
    ||| opt_hit(row.iface_out, x, glob)
    ||| opt_hit(row.hostname, x, glob)
    ||| opt_hit(row.dns_query, x, glob)
    ||| opt_hit(row.dns_type, x, glob)
    ||| opt_hit(row.dns_answer, x, glob)
    ||| opt_hit(row.dhcp_event, x, glob)
    ||| opt_hit(row.wifi_event, x, glob)
    ||| opt_hit(row.raw_log, x, glob)
    ||| opt_hit(row.mac_address, x, glob)
}

fn verdict_of(b: bool) -> (r: Verdict)
    ensures
        r == hit(b),
{
    if b {
        Verdict::Pass
    } else {
        Verdict::Reject
    }
}

fn in_net_exec(n: crate::net::Network, ip: Option<IpAddress>) -> (r: bool)
    requires
        crate::net::network_wf(n),
    ensures
        r == in_net(n, ip),
{
    match ip {
        Some(a) => net_has(n, a),
        None => false,
    }
}

fn free_text_exec(row: &LiveRow, x: &str, glob: bool) -> (r: bool)
    ensures
        r == free_text_hit(row@, x@, glob),
{
    opt_hit_exec(&row.rule_name, x, glob) || opt_hit_exec(&row.protocol, x, glob) || opt_hit_exec(
        &row.iface_in,
        x,
        glob,
    ) || opt_hit_exec(&row.iface_out, x, glob) || opt_hit_exec(&row.hostname, x, glob)
        || opt_hit_exec(&row.dns_query, x, glob) || opt_hit_exec(&row.dns_type, x, glob)
        || opt_hit_exec(&row.dns_answer, x, glob) || opt_hit_exec(&row.dhcp_event, x, glob)
        || opt_hit_exec(&row.wifi_event, x, glob) || opt_hit_exec(&row.raw_log, x, glob)
        || opt_hit_exec(&row.mac_address, x, glob)
}

fn ascii_same(a: &str, b: &str) -> (r: bool)
    ensures
        r == eq_ignore_case(a@, b@),
{
    let ac = chars_of(a);
    let bc = chars_of(b);
    eq_ignore_case_exec(ac.as_slice(), bc.as_slice())
}

/// Whether exactly this term matches the row, leaving its negation aside.
pub fn term_hit(row: &LiveRow, term: &Term) -> (r: Verdict)
    requires
        term_wf(term@),
    ensures
        r == term_hit_of(row@, term@),
{
    match (&term.value, term.field) {
        (Value::Ip(ip), field) => {
            let src = row.src_ip == Some(*ip);
            let dst = row.dst_ip == Some(*ip);
            verdict_of(
                match field {
                    Some(Field::SrcIp) => src,
                    Some(Field::DstIp) => dst,
                    _ => src || dst,
                },
            )
        },
        (Value::Cidr(net), field) => {
            let src = in_net_exec(*net, row.src_ip);
            let dst = in_net_exec(*net, row.dst_ip);
            verdict_of(
                match field {
                    Some(Field::SrcIp) => src,
                    Some(Field::DstIp) => dst,
                    _ => src || dst,
                },
            )
        },
        (Value::Port(p), field) => {
            let src = row.src_port == Some(*p);
            let dst = row.dst_port == Some(*p);
            verdict_of(
                match field {
                    Some(Field::SrcPort) => src,
                    Some(Field::DstPort) => dst,
                    _ => src || dst,
                },
            )
        },
        (Value::Mac(m), _) => {
            let h = match &row.mac_address {
                Some(a) => {
                    let low = to_lowercase(a.as_str());
                    let lc = chars_of(low.as_str());
                    let mc = chars_of(m.as_str());
                    same(lc.as_slice(), mc.as_slice())
                },
                None => false,
            };
            verdict_of(h)
        },
        (Value::Asn(_), _) => Verdict::Unknowable,
        (Value::Text(_), Some(Field::Country)) => Verdict::Unknowable,
        (Value::Text(_), Some(Field::Asn)) => Verdict::Unknowable,
        (Value::Text(t), Some(Field::Action)) => verdict_of(
            match row.rule_action {
                Some(a) => ascii_same(a.as_str(), t.as_str()),
                None => false,
            },
        ),
        (Value::Text(t), Some(Field::LogType)) => verdict_of(
            ascii_same(row.log_type.as_str(), t.as_str()),
        ),
        (Value::Text(t), Some(Field::Rule)) => verdict_of(
            opt_hit_exec(&row.rule_name, t.as_str(), term.glob),
        ),
        (Value::Text(t), Some(Field::Protocol)) => verdict_of(
            opt_hit_exec(&row.protocol, t.as_str(), term.glob),
        ),
        (Value::Text(t), Some(Field::Interface)) => verdict_of(
            opt_hit_exec(&row.iface_in, t.as_str(), term.glob) || opt_hit_exec(
                &row.iface_out,
                t.as_str(),
                term.glob,
            ),
        ),
        (Value::Text(t), Some(Field::Host)) => verdict_of(
            opt_hit_exec(&row.hostname, t.as_str(), term.glob),
        ),
        (Value::Text(t), _) => verdict_of(free_text_exec(row, t.as_str(), term.glob)),
    }
}

/// A term's verdict with its negation applied; negation leaves
/// `Unknowable` alone.
pub open spec fn applied(v: Verdict, negated: bool) -> Verdict {
    match v {
        Verdict::Unknowable => Verdict::Unknowable,
        Verdict::Pass => if negated {
            Verdict::Reject
        } else {
            Verdict::Pass
        },
        Verdict::Reject => if negated {
            Verdict::Pass
        } else {
            Verdict::Reject
        },
    }
}

/// The verdicts of the terms, negation applied.
pub open spec fn term_verdicts(row: LiveView, ts: Seq<TermView>) -> Seq<Verdict> {
    ts.map_values(|t: TermView| applied(term_hit_of(row, t), t.negated))
}

/// A search against a row: every term must hold.
pub open spec fn search_verdict_of(row: LiveView, q: Option<Seq<char>>) -> Verdict {
    match q {
        None => Verdict::Pass,
        Some(q) => combine_all(term_verdicts(row, search_terms(q))),
    }
}

/// A search against a row.
pub fn search_verdict(row: &LiveRow, q: Option<&str>) -> (r: Verdict)
    ensures
        r == search_verdict_of(
            row@,
            match q {
                Some(s) => Some(s@),
                None => None,
            },
        ),
{
    let q = match q {
        None => return Verdict::Pass,
        Some(q) => q,
    };
    let terms = parse_search(q);
    let ghost tv = terms_view(terms@);
    let mut vs: Vec<Verdict> = Vec::new();
    let mut i: usize = 0;
    while i < terms.len()
        invariant
            0 <= i <= terms@.len(),
            tv == terms_view(terms@),
            vs@ == term_verdicts(row@, tv.take(i as int)),
            forall|k: int| 0 <= k < terms@.len() ==> term_wf(#[trigger] terms@[k]@),
        decreases terms.len() - i,
    {
        let t = &terms[i];
        let v = match term_hit(row, t) {
            Verdict::Unknowable => Verdict::Unknowable,
            Verdict::Pass => if t.negated {
                Verdict::Reject
            } else {
                Verdict::Pass
            },
            Verdict::Reject => if t.negated {
                Verdict::Pass
            } else {
                Verdict::Reject
            },
        };
        vs.push(v);
        i = i + 1;
        assert(vs@ =~= term_verdicts(row@, tv.take(i as int)));
    }
    assert(tv.take(tv.len() as int) =~= tv);
    combine(vs.as_slice())
}

/// The verdicts of all parts of a filter against a row.
pub open spec fn live_verdicts(row: LiveView, f: FilterView) -> Seq<Verdict> {
    seq![
        list_verdict_of(f.log_type, Some(log_type_text(row.log_type))),
        list_verdict_of(
            f.action,
            match row.rule_action {
                Some(a) => Some(rule_action_text(a)),
                None => None,
            },
        ),
        list_verdict_of(
            f.direction,
            match row.direction {
                Some(d) => Some(crate::types::direction_text(d)),
                None => None,
            },
        ),
        iface_verdict_of(f.iface, row.iface_in, row.iface_out),
        exact_iface_verdict_of(f.iface_in, row.iface_in),
        exact_iface_verdict_of(f.iface_out, row.iface_out),
        list_verdict_of(f.proto, row.protocol),
        port_verdict_of(f.port, row.src_port, row.dst_port),
        enriched_verdict_of(f),
        search_verdict_of(row, f.q),
    ]
}

/// The filter of the log view applied to a row just written. The time
/// filters (`from`, `to`, `range`) are left out on purpose: a row that has
/// just arrived lies at the upper end by definition.
pub open spec fn live_verdict(row: LiveView, f: FilterView) -> Verdict {
    combine_all(live_verdicts(row, f))
}

fn opt_str(o: &Option<String>) -> (r: Option<&str>)
    ensures
        match r {
            Some(s) => ov(*o) == Some(s@),
            None => o is None,
        },
{
    match o {
        Some(s) => Some(s.as_str()),
        None => None,
    }
}

/// The filter of the log view applied to a row just written.
pub fn matches_live(row: &LiveRow, f: &LogFilter) -> (r: Verdict)
    ensures
        r == live_verdict(row@, f@),
{
    let vs = vec![
        list_verdict(f.log_type.as_slice(), Some(row.log_type.as_str())),
        list_verdict(
            f.action.as_slice(),
            match row.rule_action {
                Some(a) => Some(a.as_str()),
                None => None,
            },
        ),
        list_verdict(
            f.direction.as_slice(),
            match row.direction {
                Some(d) => Some(d.as_str()),
                None => None,
            },
        ),
        iface_verdict(f.iface.as_slice(), opt_str(&row.iface_in), opt_str(&row.iface_out)),
        exact_iface_verdict(opt_str(&f.iface_in), opt_str(&row.iface_in)),
        exact_iface_verdict(opt_str(&f.iface_out), opt_str(&row.iface_out)),
        list_verdict(f.proto.as_slice(), opt_str(&row.protocol)),
        port_verdict(f.port, row.src_port, row.dst_port),
        enriched_verdict(f),
        search_verdict(row, opt_str(&f.q)),
    ];
    assert(vs@ =~= live_verdicts(row@, f@));
    combine(vs.as_slice())
}

// ---------------------------------------------------------------------------
// Laws
// ---------------------------------------------------------------------------

/// Combining is three-valued AND all the way: the verdict of a list split
/// in two is the verdict of the two verdicts.
pub proof fn lemma_combine_concat(a: Seq<Verdict>, b: Seq<Verdict>)
    ensures
        combine_all(a + b) == both(combine_all(a), combine_all(b)),
{
    let ab = a + b;
    let pair = seq![combine_all(a), combine_all(b)];
    assert(pair[0] == combine_all(a) && pair[1] == combine_all(b));
    if ab.contains(Verdict::Reject) {
        let k = choose|k: int| 0 <= k < ab.len() && ab[k] == Verdict::Reject;
        if k < a.len() {
            assert(a[k] == Verdict::Reject);
        } else {
            assert(b[k - a.len()] == Verdict::Reject);
        }
    } else if ab.contains(Verdict::Unknowable) {
        let k = choose|k: int| 0 <= k < ab.len() && ab[k] == Verdict::Unknowable;
        if k < a.len() {
            assert(a[k] == Verdict::Unknowable);
        } else {
            assert(b[k - a.len()] == Verdict::Unknowable);
        }
        assert forall|k: int| 0 <= k < a.len() implies a[k] != Verdict::Reject by {
            assert(ab[k] == a[k]);
        }
        assert forall|k: int| 0 <= k < b.len() implies b[k] != Verdict::Reject by {
            assert(ab[k + a.len()] == b[k]);
        }
    } else {
        assert forall|k: int| 0 <= k < a.len() implies a[k] == Verdict::Pass by {
            assert(ab[k] == a[k]);
        }
        assert forall|k: int| 0 <= k < b.len() implies b[k] == Verdict::Pass by {
            assert(ab[k + a.len()] == b[k]);
        }
    }
}

/// An empty filter lets every row through.
pub proof fn lemma_empty_filter_passes(row: LiveView)
    ensures
        live_verdict(row, crate::filters::empty_filter()) == Verdict::Pass,
{
    let vs = live_verdicts(row, crate::filters::empty_filter());
    assert forall|k: int| 0 <= k < vs.len() implies vs[k] == Verdict::Pass by {}
}

/// The stream ignores the time filters: two filters that differ only in
/// `from`, `to` and `range` give every row the same verdict.
pub proof fn lemma_time_filters_ignored(row: LiveView, f: FilterView, g: FilterView)
    requires
        g == (FilterView { from: g.from, to: g.to, range: g.range, ..f }),
    ensures
        live_verdict(row, f) == live_verdict(row, g),
{
    assert(live_verdicts(row, f) =~= live_verdicts(row, g));
}

/// A filter on country or threat score never lets a fresh row pass: the
/// row cannot answer it yet, unless something else rejects it anyway.
pub proof fn lemma_enriched_filters_suspend(row: LiveView, f: FilterView)
    requires
        f.country.len() > 0 || f.threat_min is Some,
    ensures
        live_verdict(row, f) != Verdict::Pass,
{
    let vs = live_verdicts(row, f);
    assert(vs[8] == Verdict::Unknowable);
}

/// Negating a term turns a certain verdict into the other one and leaves
/// `Unknowable` alone; negating twice changes nothing.
pub proof fn lemma_negation_flips(v: Verdict)
    ensures
        applied(applied(v, true), true) == v,
        v != Verdict::Unknowable ==> applied(v, true) != v,
        applied(v, true) == Verdict::Unknowable <==> v == Verdict::Unknowable,
{
}

} // verus!
