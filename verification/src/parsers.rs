//! Whole syslog lines: which kind a line is, and the parsers for DNS, DHCP
//! and WiFi lines.
use vstd::prelude::*;
use crate::cef::{cef_line, cef_view, parse_cef_chars};
use crate::firewall::{firewall_view, names_view, parse_firewall_chars, FirewallCtx};
use crate::net::{parse_ip_chars, parsed_ip};
use crate::syslog::{parse_header, header_view, severity_of, severity_spec, SyslogHeader};
use crate::text::{
    chars_of, contains, contains_str, find, find_char, find_char_exec, find_char_from,
    find_char_from_exec, find_from, find_str, find_str_from, is_hex, is_hex_exec,
    lemma_find_char_from_bounds, lemma_find_from_bounds, lemma_skip_white_bounds, lemma_token_at,
    next_token, next_token_exec, opt_pair, rfind, rfind_str, same_str, skip_white, skip_white_exec,
    slice, starts_with, starts_with_exec, starts_with_str, str_len, text, token_at, token_at_exec,
    token_text, trim, trim_bounds, trim_start, utf8_len, utf8_len_at_most,
};
use crate::types::{blank_view, Details, DetailsView, LogType, LogView, ParsedLog};

verus! {

// ---------------------------------------------------------------------------
// Which kind
// ---------------------------------------------------------------------------

/// The events dnsmasq writes about leases.
pub open spec fn dhcp_event(k: int) -> Seq<char> {
    if k == 0 {
        "DHCPACK"@
    } else if k == 1 {
        "DHCPREQUEST"@
    } else if k == 2 {
        "DHCPOFFER"@
    } else if k == 3 {
        "DHCPDISCOVER"@
    } else if k == 4 {
        "DHCPRELEASE"@
    } else if k == 5 {
        "DHCPNAK"@
    } else if k == 6 {
        "DHCPDECLINE"@
    } else {
        "DHCPINFORM"@
    }
}

fn dhcp_event_exec(k: usize) -> (r: &'static str)
    requires
        k < 8,
    ensures
        r@ == dhcp_event(k as int),
{
    if k == 0 {
        "DHCPACK"
    } else if k == 1 {
        "DHCPREQUEST"
    } else if k == 2 {
        "DHCPOFFER"
    } else if k == 3 {
        "DHCPDISCOVER"
    } else if k == 4 {
        "DHCPRELEASE"
    } else if k == 5 {
        "DHCPNAK"
    } else if k == 6 {
        "DHCPDECLINE"
    } else {
        "DHCPINFORM"
    }
}

/// The events an access point writes about a station, in reading order:
/// `disassociated` before `associated`, since the one holds the other.
pub open spec fn wifi_event(k: int) -> Seq<char> {
    if k == 0 {
        "disassociated"@
    } else if k == 1 {
        "deauthenticated"@
    } else if k == 2 {
        "associated"@
    } else if k == 3 {
        "authenticated"@
    } else if k == 4 {
        "disconnected"@
    } else if k == 5 {
        "connected"@
    } else if k == 6 {
        "key handshake completed"@
    } else {
        "roamed"@
    }
}

fn wifi_event_exec(k: usize) -> (r: &'static str)
    requires
        k < 8,
    ensures
        r@ == wifi_event(k as int),
{
    if k == 0 {
        "disassociated"
    } else if k == 1 {
        "deauthenticated"
    } else if k == 2 {
        "associated"
    } else if k == 3 {
        "authenticated"
    } else if k == 4 {
        "disconnected"
    } else if k == 5 {
        "connected"
    } else if k == 6 {
        "key handshake completed"
    } else {
        "roamed"
    }
}

/// The body names one of the DHCP events.
pub open spec fn any_dhcp_event(body: Seq<char>) -> bool {
    exists|k: int| 0 <= k < 8 && contains(body, #[trigger] dhcp_event(k))
}

/// The kind of a line, from its body.
pub open spec fn kind_of(body: Seq<char>) -> LogType {
    if (contains(body, "SRC="@) && contains(body, "DST="@) && contains(body, "PROTO="@)) || (
    starts_with(body, "["@) && contains(body, "DESCR="@)) {
        LogType::Firewall
    } else if contains(body, "dnsmasq-dhcp"@) || any_dhcp_event(body) {
        LogType::Dhcp
    } else if contains(body, "dnsmasq"@) && (contains(body, "query["@) || contains(body, "reply "@)
        || contains(body, "forwarded "@) || contains(body, "cached "@)) {
        LogType::Dns
    } else if contains(body, "stamgr"@) || contains(body, "hostapd"@) || contains(body, "stahtd"@)
        || (contains(body, "STA "@) && (contains(body, "associated"@) || contains(
        body,
        "authenticated"@,
    ))) {
        LogType::Wifi
    } else {
        LogType::System
    }
}

fn any_dhcp_event_exec(s: &[char]) -> (r: bool)
    ensures
        r == any_dhcp_event(s@),
{
    let mut k: usize = 0;
    while k < 8
        invariant
            0 <= k <= 8,
            forall|j: int| 0 <= j < k ==> !contains(s@, #[trigger] dhcp_event(j)),
        decreases 8 - k,
    {
        if contains_str(s, dhcp_event_exec(k)) {
            return true;
        }
        k = k + 1;
    }
    false
}

/// The kind of a line, from its body.
pub fn detect_log_type_chars(s: &[char]) -> (r: LogType)
    ensures
        r == kind_of(s@),
{
    if (contains_str(s, "SRC=") && contains_str(s, "DST=") && contains_str(s, "PROTO=")) || (
    starts_with_str(s, "[") && contains_str(s, "DESCR=")) {
        return LogType::Firewall;
    }
    if contains_str(s, "dnsmasq-dhcp") || any_dhcp_event_exec(s) {
        return LogType::Dhcp;
    }
    if contains_str(s, "dnsmasq") && (contains_str(s, "query[") || contains_str(s, "reply ")
        || contains_str(s, "forwarded ") || contains_str(s, "cached ")) {
        return LogType::Dns;
    }
    if contains_str(s, "stamgr") || contains_str(s, "hostapd") || contains_str(s, "stahtd") || (
    contains_str(s, "STA ") && (contains_str(s, "associated") || contains_str(s, "authenticated"))) {
        return LogType::Wifi;
    }
    LogType::System
}

/// The kind of a line, from its body.
pub fn detect_log_type(body: &str) -> (r: LogType)
    ensures
        r == kind_of(body@),
{
    let s = chars_of(body);
    detect_log_type_chars(s.as_slice())
}

// ---------------------------------------------------------------------------
// Program and words
// ---------------------------------------------------------------------------

/// The program that wrote the line: the body's first word before `:` and
/// before any `[pid]`, after a repeated host name. A name with a space, an
/// empty one or one longer than 64 bytes is none.
pub open spec fn program_name(body: Seq<char>, host: Seq<char>) -> Option<Seq<char>> {
    let rest = if starts_with(body, host) {
        trim_start(body.skip(host.len() as int))
    } else {
        body
    };
    let head_end = match find_char(rest, ':') {
        Some(i) => i,
        None => rest.len() as int,
    };
    let head = trim(rest.subrange(0, head_end));
    let name_end = match find_char(head, '[') {
        Some(i) => i,
        None => head.len() as int,
    };
    let name = trim(head.subrange(0, name_end));
    if name.len() == 0 || utf8_len(name) > 64 || find_char(name, ' ') is Some {
        None
    } else {
        Some(name)
    }
}

fn upto_char(s: &[char], c: char) -> (r: Vec<char>)
    ensures
        r@ == s@.subrange(
            0,
            match find_char(s@, c) {
                Some(i) => i,
                None => s@.len() as int,
            },
        ),
{
    proof {
        lemma_find_char_from_bounds(s@, c, 0);
    }
    let end = match find_char_exec(s, c) {
        Some(i) => i,
        None => s.len(),
    };
    slice(s, 0, end)
}

fn trimmed(s: &[char]) -> (r: Vec<char>)
    ensures
        r@ == trim(s@),
{
    let (a, b) = trim_bounds(s);
    slice(s, a, b)
}

/// The program that wrote the line.
pub fn program_of(body: &[char], host: &[char]) -> (r: Option<String>)
    ensures
        match r {
            Some(n) => program_name(body@, host@) == Some(n@),
            None => program_name(body@, host@) is None,
        },
{
    let rest = if starts_with_exec(body, host) {
        let a = skip_white_exec(body, host.len());
        proof {
            let t = body@.skip(host@.len() as int);
            lemma_skip_white_bounds(t, 0);
            lemma_skip_white_shift(body@, host@.len() as int, 0);
            assert(body@.subrange(a as int, body@.len() as int) =~= t.skip(skip_white(t, 0)));
        }
        slice(body, a, body.len())
    } else {
        slice(body, 0, body.len())
    };
    assert(body@.subrange(0, body@.len() as int) =~= body@);
    let head_part = upto_char(rest.as_slice(), ':');
    let head = trimmed(head_part.as_slice());
    let name_part = upto_char(head.as_slice(), '[');
    let name = trimmed(name_part.as_slice());
    if name.len() == 0 || !utf8_len_at_most(name.as_slice(), 64) || find_char_exec(
        name.as_slice(),
        ' ',
    ).is_some() {
        None
    } else {
        Some(crate::text::string_from(name.as_slice()))
    }
}

/// Skipping white space in a suffix is skipping it in the whole, shifted.
pub proof fn lemma_skip_white_shift(s: Seq<char>, off: int, i: int)
    requires
        0 <= off <= s.len(),
        0 <= i <= s.len() - off,
    ensures
        skip_white(s.skip(off), i) + off == skip_white(s, i + off),
    decreases s.len() - off - i,
{
    let t = s.skip(off);
    if 0 <= i < t.len() && crate::text::is_white(t[i]) {
        lemma_skip_white_shift(s, off, i + 1);
    }
}

/// The word after `marker`: from the first occurrence of the marker, past
/// white space, up to the next space. Empty is none.
pub open spec fn word_after_spec(s: Seq<char>, marker: Seq<char>) -> Option<Seq<char>> {
    match find(s, marker) {
        None => None,
        Some(i) => {
            let a = skip_white(s, i + marker.len());
            let end = match find_char_from(s, ' ', a) {
                Some(e) => e,
                None => s.len() as int,
            };
            if end - a == 0 {
                None
            } else {
                Some(s.subrange(a, end))
            }
        },
    }
}

/// The word after `marker`.
pub fn word_after(s: &[char], marker: &str) -> (r: Option<String>)
    ensures
        match r {
            Some(w) => word_after_spec(s@, marker@) == Some(w@),
            None => word_after_spec(s@, marker@) is None,
        },
{
    let m = chars_of(marker);
    proof {
        lemma_find_from_bounds(s@, m@, 0);
    }
    let i = match find_str(s, marker) {
        None => return None,
        Some(i) => i,
    };
    assert(i + m@.len() <= s.len());
    let a = skip_white_exec(s, i + m.len());
    proof {
        lemma_find_char_from_bounds(s@, ' ', a as int);
    }
    let end = match find_char_from_exec(s, ' ', a) {
        Some(e) => e,
        None => s.len(),
    };
    if end - a == 0 {
        None
    } else {
        Some(text(s, a, end))
    }
}

// ---------------------------------------------------------------------------
// DNS
// ---------------------------------------------------------------------------

/// A DNS line: `query[TYPE] name from addr`, `reply name is answer`,
/// `cached name is answer`, `forwarded name to upstream`. A reply or
/// forward whose words do not fit keeps no query name.
pub open spec fn dns_view(s: Seq<char>) -> LogView {
    let base = blank_view(Some(LogType::Dns));
    let q = find(s, "query["@);
    let close = match q {
        Some(i) => find_char_from(s, ']', i + "query["@.len()),
        None => None,
    };
    if q is Some && close is Some {
        let st = q.unwrap() + "query["@.len();
        let c = close.unwrap();
        let t1 = token_at(s, c + 1);
        let t2 = next_token(s, t1);
        let t3 = next_token(s, t2);
        LogView {
            dns_type: Some(s.subrange(st, c)),
            dns_query: token_text(s, t1),
            src_ip: if token_text(s, t2) == Some("from"@) {
                match token_text(s, t3) {
                    Some(w) => parsed_ip(w),
                    None => None,
                }
            } else {
                None
            },
            ..base
        }
    } else if find(s, "reply "@) is Some {
        dns_answer_view(s, find(s, "reply "@).unwrap() + "reply "@.len(), true)
    } else if find(s, "cached "@) is Some {
        dns_answer_view(s, find(s, "cached "@).unwrap() + "cached "@.len(), true)
    } else if find(s, "forwarded "@) is Some {
        dns_answer_view(s, find(s, "forwarded "@).unwrap() + "forwarded "@.len(), false)
    } else {
        base
    }
}

/// The three words after a reply, cached or forwarded marker.
pub open spec fn dns_answer_view(s: Seq<char>, from: int, is_answer: bool) -> LogView {
    let base = blank_view(Some(LogType::Dns));
    let t1 = token_at(s, from);
    let t2 = next_token(s, t1);
    let t3 = next_token(s, t2);
    let link = token_text(s, t2);
    let val = token_text(s, t3);
    if is_answer && link == Some("is"@) && val is Some {
        LogView { dns_query: token_text(s, t1), dns_answer: val, ..base }
    } else if !is_answer && link == Some("to"@) && val is Some {
        LogView { dns_query: token_text(s, t1), dst_ip: parsed_ip(val.unwrap()), ..base }
    } else {
        base
    }
}

fn token_string(s: &[char], t: Option<(usize, usize)>) -> (r: Option<String>)
    requires
        t matches Some((a, b)) ==> a <= b <= s@.len(),
    ensures
        match r {
            Some(w) => token_text(s@, opt_pair(t)) == Some(w@),
            None => token_text(s@, opt_pair(t)) is None,
        },
{
    match t {
        Some((a, b)) => Some(text(s, a, b)),
        None => None,
    }
}

fn token_is(s: &[char], t: Option<(usize, usize)>, w: &str) -> (r: bool)
    requires
        t matches Some((a, b)) ==> a <= b <= s@.len(),
    ensures
        r == (token_text(s@, opt_pair(t)) == Some(w@)),
{
    match t {
        Some((a, b)) => {
            let v = slice(s, a, b);
            same_str(v.as_slice(), w)
        },
        None => false,
    }
}

fn token_ip(s: &[char], t: Option<(usize, usize)>) -> (r: Option<crate::net::IpAddress>)
    requires
        t matches Some((a, b)) ==> a <= b <= s@.len(),
    ensures
        r == match token_text(s@, opt_pair(t)) {
            Some(w) => parsed_ip(w),
            None => None,
        },
{
    match t {
        Some((a, b)) => {
            let v = slice(s, a, b);
            parse_ip_chars(v.as_slice())
        },
        None => None,
    }
}

fn three_tokens(s: &[char], from: usize) -> (r: (
    Option<(usize, usize)>,
    Option<(usize, usize)>,
    Option<(usize, usize)>,
))
    requires
        from <= s@.len(),
    ensures
        opt_pair(r.0) == token_at(s@, from as int),
        opt_pair(r.1) == next_token(s@, opt_pair(r.0)),
        opt_pair(r.2) == next_token(s@, opt_pair(r.1)),
        r.0 matches Some((a, b)) ==> a <= b <= s@.len(),
        r.1 matches Some((a, b)) ==> a <= b <= s@.len(),
        r.2 matches Some((a, b)) ==> a <= b <= s@.len(),
{
    proof {
        lemma_token_at(s@, from as int);
    }
    let t1 = token_at_exec(s, from);
    proof {
        if let Some((_, b)) = t1 {
            lemma_token_at(s@, b as int);
        }
    }
    let t2 = next_token_exec(s, t1);
    proof {
        if let Some((_, b)) = t2 {
            lemma_token_at(s@, b as int);
        }
    }
    let t3 = next_token_exec(s, t2);
    (t1, t2, t3)
}

fn dns_answer_exec(s: &[char], from: usize, is_answer: bool) -> (r: ParsedLog)
    requires
        from <= s@.len(),
    ensures
        r@ == dns_answer_view(s@, from as int, is_answer),
{
    let mut p = ParsedLog::blank(Some(LogType::Dns));
    let (t1, t2, t3) = three_tokens(s, from);
    if is_answer && token_is(s, t2, "is") && t3.is_some() {
        p.dns_query = token_string(s, t1);
        p.dns_answer = token_string(s, t3);
    } else if !is_answer && token_is(s, t2, "to") && t3.is_some() {
        p.dns_query = token_string(s, t1);
        p.dst_ip = token_ip(s, t3);
    }
    p
}

/// Parses a DNS line.
pub fn parse_dns_chars(s: &[char]) -> (r: ParsedLog)
    ensures
        r@ == dns_view(s@),
{
    let ql = str_len("query[");
    proof {
        lemma_find_from_bounds(s@, "query["@, 0);
    }
    if let Some(i) = find_str(s, "query[") {
        assert(i + ql <= s.len());
        proof {
            lemma_find_char_from_bounds(s@, ']', i + ql);
        }
        if let Some(c) = find_char_from_exec(s, ']', i + ql) {
            let mut p = ParsedLog::blank(Some(LogType::Dns));
            let (t1, t2, t3) = three_tokens(s, c + 1);
            p.dns_type = Some(text(s, i + ql, c));
            p.dns_query = token_string(s, t1);
            if token_is(s, t2, "from") {
                p.src_ip = token_ip(s, t3);
            }
            return p;
        }
    }
    proof {
        lemma_find_from_bounds(s@, "reply "@, 0);
        lemma_find_from_bounds(s@, "cached "@, 0);
        lemma_find_from_bounds(s@, "forwarded "@, 0);
    }
    if let Some(i) = find_str(s, "reply ") {
        assert(i + "reply "@.len() <= s.len());
        return dns_answer_exec(s, i + str_len("reply "), true);
    }
    if let Some(i) = find_str(s, "cached ") {
        assert(i + "cached "@.len() <= s.len());
        return dns_answer_exec(s, i + str_len("cached "), true);
    }
    if let Some(i) = find_str(s, "forwarded ") {
        assert(i + "forwarded "@.len() <= s.len());
        return dns_answer_exec(s, i + str_len("forwarded "), false);
    }
    ParsedLog::blank(Some(LogType::Dns))
}

/// Parses a DNS line.
pub fn parse_dns(body: &str) -> (r: ParsedLog)
    ensures
        r@ == dns_view(body@),
{
    let s = chars_of(body);
    parse_dns_chars(s.as_slice())
}

// ---------------------------------------------------------------------------
// DHCP
// ---------------------------------------------------------------------------

/// A DHCP line: the first of the events (in list order) that stands in the
/// line followed by `(interface)`; then an optional address, the MAC, and a
/// host name unless it starts with `<`.
pub open spec fn dhcp_from(s: Seq<char>, k: int) -> LogView
    decreases 8 - k,
{
    if k < 0 || k >= 8 {
        blank_view(Some(LogType::Dhcp))
    } else {
        let ev = dhcp_event(k);
        match find(s, ev) {
            None => dhcp_from(s, k + 1),
            Some(i) => {
                let st = i + ev.len();
                if st < s.len() && s[st] == '(' {
                    match find_char_from(s, ')', st + 1) {
                        None => dhcp_from(s, k + 1),
                        Some(close) => dhcp_build(s, ev, st + 1, close),
                    }
                } else {
                    dhcp_from(s, k + 1)
                }
            },
        }
    }
}

/// The row of a DHCP event whose interface stands between `a` and `close`.
pub open spec fn dhcp_build(s: Seq<char>, ev: Seq<char>, a: int, close: int) -> LogView {
    let t1 = token_at(s, close + 1);
    let first_ip = match token_text(s, t1) {
        Some(w) => parsed_ip(w),
        None => None,
    };
    let mac_tok = if first_ip is Some {
        next_token(s, t1)
    } else {
        t1
    };
    let host_tok = next_token(s, mac_tok);
    LogView {
        dhcp_event: Some(ev),
        interface_in: Some(s.subrange(a, close)),
        src_ip: first_ip,
        mac_address: token_text(s, mac_tok),
        hostname: match token_text(s, host_tok) {
            Some(h) => if starts_with(h, "<"@) {
                None
            } else {
                Some(h)
            },
            None => None,
        },
        ..blank_view(Some(LogType::Dhcp))
    }
}

/// A DHCP line as a row.
pub open spec fn dhcp_view(s: Seq<char>) -> LogView {
    dhcp_from(s, 0)
}

fn dhcp_build_exec(s: &[char], ev: &str, a: usize, close: usize) -> (r: ParsedLog)
    requires
        a <= close < s@.len(),
    ensures
        r@ == dhcp_build(s@, ev@, a as int, close as int),
{
    let mut p = ParsedLog::blank(Some(LogType::Dhcp));
    p.dhcp_event = Some(ev.to_owned());
    p.interface_in = Some(text(s, a, close));
    assert(close < s.len());
    proof {
        lemma_token_at(s@, close + 1);
    }
    let t1 = token_at_exec(s, close + 1);
    let first_ip = token_ip(s, t1);
    let mac_tok = if first_ip.is_some() {
        proof {
            if let Some((_, b)) = t1 {
                lemma_token_at(s@, b as int);
            }
        }
        next_token_exec(s, t1)
    } else {
        t1
    };
    proof {
        if let Some((_, b)) = mac_tok {
            lemma_token_at(s@, b as int);
        }
    }
    let host_tok = next_token_exec(s, mac_tok);
    p.src_ip = first_ip;
    p.mac_address = token_string(s, mac_tok);
    p.hostname = match token_string(s, host_tok) {
        Some(h) => {
            let hc = chars_of(h.as_str());
            if starts_with_str(hc.as_slice(), "<") {
                None
            } else {
                Some(h)
            }
        },
        None => None,
    };
    p
}

/// Parses a DHCP line.
pub fn parse_dhcp_chars(s: &[char]) -> (r: ParsedLog)
    ensures
        r@ == dhcp_view(s@),
{
    let mut k: usize = 0;
    while k < 8
        invariant
            0 <= k <= 8,
            dhcp_from(s@, 0) == dhcp_from(s@, k as int),
        decreases 8 - k,
    {
        let ev = dhcp_event_exec(k);
        let el = str_len(ev);
        proof {
            lemma_find_from_bounds(s@, ev@, 0);
        }
        if let Some(i) = find_str(s, ev) {
            assert(i + el <= s.len());
            let st = i + el;
            if st < s.len() && s[st] == '(' {
                proof {
                    lemma_find_char_from_bounds(s@, ')', st + 1);
                }
                if let Some(close) = find_char_from_exec(s, ')', st + 1) {
                    return dhcp_build_exec(s, ev, st + 1, close);
                }
            }
        }
        k = k + 1;
    }
    ParsedLog::blank(Some(LogType::Dhcp))
}

/// Parses a DHCP line.
pub fn parse_dhcp(body: &str) -> (r: ParsedLog)
    ensures
        r@ == dhcp_view(body@),
{
    let s = chars_of(body);
    parse_dhcp_chars(s.as_slice())
}

// ---------------------------------------------------------------------------
// WiFi
// ---------------------------------------------------------------------------

/// Whether `serde_json::from_str::<serde_json::Value>` accepts the text.
pub uninterp spec fn json_parses(text: Seq<char>) -> bool;

/// The member `key` of the JSON text parsed with
/// `serde_json::from_str::<serde_json::Value>`: absent (`None`) where the text
/// does not parse or has no such member, `Some(None)` where the member is not
/// a string, else its text.
pub uninterp spec fn json_member(text: Seq<char>, key: Seq<char>) -> Option<Option<Seq<char>>>;

/// `serde_json::from_str::<serde_json::Value>(text).is_ok()` (serde_json).
#[verifier::external_body]
fn json_valid(text: &str) -> (r: bool)
    ensures
        r == json_parses(text@),
{
    serde_json::from_str::<serde_json::Value>(text).is_ok()
}

/// `serde_json::from_str::<serde_json::Value>`, then `Value::get(key)` and
/// `Value::as_str` (serde_json). `get` finds members of objects only, so a
/// member is only ever found in text that parses.
#[verifier::external_body]
fn json_member_text(text: &str, key: &str) -> (r: Option<Option<String>>)
    ensures
        match r {
            None => json_member(text@, key@) is None,
            Some(None) => json_member(text@, key@) == Some(None::<Seq<char>>),
            Some(Some(s)) => json_member(text@, key@) == Some(Some(s@)),
        },
        r is Some ==> json_parses(text@),
{
    let v = match serde_json::from_str::<serde_json::Value>(text) {
        Ok(v) => v,
        Err(_) => return None,
    };
    match v.get(key) {
        Some(m) => Some(m.as_str().map(str::to_string)),
        None => None,
    }
}

pub open spec fn flat(o: Option<Option<Seq<char>>>) -> Option<Seq<char>> {
    match o {
        Some(Some(s)) => Some(s),
        _ => None,
    }
}

/// The first of the known WiFi events, from index `k` on, that the body
/// contains.
pub open spec fn first_wifi_event(s: Seq<char>, k: int) -> Option<Seq<char>>
    decreases 8 - k,
{
    if k < 0 || k >= 8 {
        None
    } else if contains(s, wifi_event(k)) {
        Some(wifi_event(k))
    } else {
        first_wifi_event(s, k + 1)
    }
}

/// The interface of an access point line: between the first `: ` and the
/// next, trimmed; a single word of at most 20 bytes.
pub open spec fn wifi_iface(s: Seq<char>) -> Option<Seq<char>> {
    match find(s, ": "@) {
        None => None,
        Some(c1) => match find_from(s, ": "@, c1 + ": "@.len()) {
            None => None,
            Some(c2) => {
                let name = trim(s.subrange(c1 + ": "@.len(), c2));
                if name.len() > 0 && find_char(name, ' ') is None && utf8_len(name) <= 20 {
                    Some(name)
                } else {
                    None
                }
            },
        },
    }
}

/// What stands after the last `: `, trimmed, if it is not empty and at most
/// 60 bytes.
pub open spec fn wifi_tail(s: Seq<char>) -> Option<Seq<char>> {
    match rfind(s, ": "@) {
        None => None,
        Some(p) => {
            let tail = trim(s.subrange(p + ": "@.len(), s.len() as int));
            if tail.len() > 0 && utf8_len(tail) <= 60 {
                Some(tail)
            } else {
                None
            }
        },
    }
}

/// A WiFi line. From `stahtd`, the JSON document after the first `{`: its
/// `mac`, its `event_type` (or, where there is none, `message_type`) and
/// the document itself; without a document just the event `stahtd`. From an
/// access point: the interface, the MAC after `STA `, and the first known
/// event the line names, or else the phrase after the last `: `.
pub open spec fn wifi_view(s: Seq<char>) -> LogView {
    let base = blank_view(Some(LogType::Wifi));
    if contains(s, "stahtd"@) {
        match find_char(s, '{') {
            Some(i) if json_parses(s.skip(i)) => {
                let doc = s.skip(i);
                let ev = match json_member(doc, "event_type"@) {
                    Some(e) => e,
                    None => flat(json_member(doc, "message_type"@)),
                };
                LogView {
                    mac_address: flat(json_member(doc, "mac"@)),
                    wifi_event: if ev is Some {
                        ev
                    } else {
                        Some("stahtd"@)
                    },
                    details: Some(DetailsView::Document(doc)),
                    ..base
                }
            },
            _ => LogView { wifi_event: Some("stahtd"@), ..base },
        }
    } else {
        let ev = first_wifi_event(s, 0);
        LogView {
            interface_in: wifi_iface(s),
            mac_address: word_after_spec(s, "STA "@),
            wifi_event: if ev is Some {
                ev
            } else {
                wifi_tail(s)
            },
            ..base
        }
    }
}

fn wifi_iface_exec(s: &[char]) -> (r: Option<String>)
    ensures
        match r {
            Some(n) => wifi_iface(s@) == Some(n@),
            None => wifi_iface(s@) is None,
        },
{
    let sep = str_len(": ");
    proof {
        lemma_find_from_bounds(s@, ": "@, 0);
    }
    let c1 = match find_str(s, ": ") {
        None => return None,
        Some(c) => c,
    };
    assert(c1 + sep <= s.len());
    proof {
        lemma_find_from_bounds(s@, ": "@, c1 + sep);
    }
    let c2 = match find_str_from(s, ": ", c1 + sep) {
        None => return None,
        Some(c) => c,
    };
    let raw = slice(s, c1 + sep, c2);
    let name = trimmed(raw.as_slice());
    if name.len() > 0 && find_char_exec(name.as_slice(), ' ').is_none() && utf8_len_at_most(
        name.as_slice(),
        20,
    ) {
        Some(crate::text::string_from(name.as_slice()))
    } else {
        None
    }
}

fn wifi_tail_exec(s: &[char]) -> (r: Option<String>)
    ensures
        match r {
            Some(n) => wifi_tail(s@) == Some(n@),
            None => wifi_tail(s@) is None,
        },
{
    let sep = str_len(": ");
    proof {
        crate::text::lemma_rfind_from(s@, ": "@, s@.len() - ": "@.len());
    }
    let p = match rfind_str(s, ": ") {
        None => return None,
        Some(p) => p,
    };
    assert(p + sep <= s.len());
    let raw = slice(s, p + sep, s.len());
    let tail = trimmed(raw.as_slice());
    if tail.len() > 0 && utf8_len_at_most(tail.as_slice(), 60) {
        Some(crate::text::string_from(tail.as_slice()))
    } else {
        None
    }
}

fn first_wifi_event_exec(s: &[char]) -> (r: Option<String>)
    ensures
        match r {
            Some(e) => first_wifi_event(s@, 0) == Some(e@),
            None => first_wifi_event(s@, 0) is None,
        },
{
    let mut k: usize = 0;
    while k < 8
        invariant
            0 <= k <= 8,
            first_wifi_event(s@, 0) == first_wifi_event(s@, k as int),
        decreases 8 - k,
    {
        let ev = wifi_event_exec(k);
        if contains_str(s, ev) {
            return Some(ev.to_owned());
        }
        k = k + 1;
    }
    None
}

/// Parses a WiFi line.
pub fn parse_wifi_chars(s: &[char]) -> (r: ParsedLog)
    ensures
        r@ == wifi_view(s@),
{
    let mut p = ParsedLog::blank(Some(LogType::Wifi));
    if contains_str(s, "stahtd") {
        proof {
            lemma_find_char_from_bounds(s@, '{', 0);
        }
        if let Some(i) = find_char_exec(s, '{') {
            let doc_chars = slice(s, i, s.len());
            assert(doc_chars@ =~= s@.skip(i as int));
            let doc = crate::text::string_from(doc_chars.as_slice());
            if json_valid(doc.as_str()) {
                let ev = match json_member_text(doc.as_str(), "event_type") {
                    Some(e) => e,
                    None => match json_member_text(doc.as_str(), "message_type") {
                        Some(Some(m)) => Some(m),
                        _ => None,
                    },
                };
                p.mac_address = match json_member_text(doc.as_str(), "mac") {
                    Some(Some(m)) => Some(m),
                    _ => None,
                };
                p.wifi_event = match ev {
                    Some(e) => Some(e),
                    None => Some("stahtd".to_owned()),
                };
                p.details = Some(Details::Document(doc));
                return p;
            }
        }
        p.wifi_event = Some("stahtd".to_owned());
        return p;
    }
    p.interface_in = wifi_iface_exec(s);
    p.mac_address = word_after(s, "STA ");
    p.wifi_event = match first_wifi_event_exec(s) {
        Some(e) => Some(e),
        None => wifi_tail_exec(s),
    };
    p
}

/// Parses a WiFi line.
pub fn parse_wifi(body: &str) -> (r: ParsedLog)
    ensures
        r@ == wifi_view(body@),
{
    let s = chars_of(body);
    parse_wifi_chars(s.as_slice())
}

// ---------------------------------------------------------------------------
// Whole lines
// ---------------------------------------------------------------------------

/// Six groups of two hex digits, separated by `:`.
pub open spec fn mac_ok(s: Seq<char>) -> bool {
    &&& s.len() == 17
    &&& forall|i: int| 0 <= i < 17 ==> if i % 3 == 2 {
        s[i] == ':'
    } else {
        is_hex(#[trigger] s[i])
    }
}

/// Whether the text is a MAC address.
pub fn valid_mac(s: &[char]) -> (r: bool)
    ensures
        r == mac_ok(s@),
{
    if s.len() != 17 {
        return false;
    }
    let mut i: usize = 0;
    while i < 17
        invariant
            s@.len() == 17,
            0 <= i <= 17,
            forall|j: int| 0 <= j < i ==> if j % 3 == 2 {
                s@[j] == ':'
            } else {
                is_hex(#[trigger] s@[j])
            },
        decreases 17 - i,
    {
        if i % 3 == 2 {
            if s[i] != ':' {
                return false;
            }
        } else {
            if !is_hex_exec(s[i]) {
                return false;
            }
        }
        i = i + 1;
    }
    true
}

/// The row of a line whose header has been read: CEF events go to the CEF
/// parser (and stay a system row where that fails); every other line to the
/// parser of its kind, with the program and the severity from the header.
/// The time and the raw line are added, and a MAC that is not one is
/// dropped.
pub open spec fn log_view(
    raw: Seq<char>,
    host: Seq<char>,
    body: Seq<char>,
    priority: Option<u8>,
    timestamp: i64,
    wan: Seq<Seq<char>>,
    wan_ips: Seq<crate::net::IpAddress>,
) -> LogView {
    let p = if cef_line(body) {
        match cef_view(body) {
            Some(v) => v,
            None => blank_view(Some(LogType::System)),
        }
    } else {
        let k = kind_of(body);
        let v = if k == LogType::Firewall {
            firewall_view(body, wan, wan_ips)
        } else if k == LogType::Dns {
            dns_view(body)
        } else if k == LogType::Dhcp {
            dhcp_view(body)
        } else if k == LogType::Wifi {
            wifi_view(body)
        } else {
            blank_view(Some(LogType::System))
        };
        LogView {
            program: program_name(body, host),
            severity: match priority {
                Some(n) => Some(severity_spec(n)),
                None => None,
            },
            ..v
        }
    };
    LogView {
        timestamp: Some(timestamp),
        raw_log: raw,
        mac_address: match p.mac_address {
            Some(m) => if mac_ok(m) {
                Some(m)
            } else {
                None
            },
            None => None,
        },
        ..p
    }
}

/// The row of a line whose header has already been read.
pub fn parse_log_with(raw: &str, h: &SyslogHeader, ctx: &FirewallCtx) -> (r: ParsedLog)
    ensures
        r@ == log_view(
            raw@,
            h.host@,
            h.body@,
            h.priority,
            h.timestamp,
            names_view(ctx.wan_interfaces@),
            ctx.wan_ips@,
        ),
{
    let body = chars_of(h.body.as_str());
    let b = body.as_slice();
    let mut p = if starts_with_str(b, "CEF:") {
        match parse_cef_chars(b) {
            Some(p) => p,
            None => ParsedLog::blank(Some(LogType::System)),
        }
    } else {
        let mut p = match detect_log_type_chars(b) {
            LogType::Firewall => parse_firewall_chars(b, ctx),
            LogType::Dns => parse_dns_chars(b),
            LogType::Dhcp => parse_dhcp_chars(b),
            LogType::Wifi => parse_wifi_chars(b),
            LogType::System => ParsedLog::blank(Some(LogType::System)),
        };
        let host = chars_of(h.host.as_str());
        p.program = program_of(b, host.as_slice());
        p.severity = match h.priority {
            Some(n) => Some(severity_of(n)),
            None => None,
        };
        p
    };
    p.timestamp = Some(h.timestamp);
    p.raw_log = raw.to_owned();
    let drop = match &p.mac_address {
        Some(m) => {
            let mc = chars_of(m.as_str());
            !valid_mac(mc.as_slice())
        },
        None => false,
    };
    if drop {
        p.mac_address = None;
    }
    p
}

/// A whole line, received at `now` (seconds since the epoch), as a row.
/// `None` when the header does not parse — the caller then keeps the line
/// as a system row with its raw text.
pub fn parse_log(raw: &str, now: i64, ctx: &FirewallCtx) -> (r: Option<ParsedLog>)
    ensures
        r is Some ==> header_view(raw@) is Some,
        r matches Some(p) ==> {
            let f = header_view(raw@).unwrap();
            &&& p.timestamp is Some
            &&& p@ == log_view(
                raw@,
                f.host,
                f.body,
                f.priority,
                p.timestamp.unwrap(),
                names_view(ctx.wan_interfaces@),
                ctx.wan_ips@,
            )
        },
{
    let h = match parse_header(raw, now) {
        None => return None,
        Some(h) => h,
    };
    Some(parse_log_with(raw, &h, ctx))
}

} // verus!
