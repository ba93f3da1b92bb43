//! The gateway's own events, in the Common Event Format.
//!
//! Seven header fields separated by `|` — version, vendor, product, product
//! version, signature id, name, severity — then key=value pairs whose values
//! may hold spaces: a pair ends only where the next key begins.
use vstd::prelude::*;
use crate::net::{parse_ip_chars, parsed_ip, IpAddress};
use crate::text::{
    chars_of, find_char_from, is_alnum, is_alnum_exec, is_alpha, is_alpha_exec, lemma_find_char_at, lemma_nth_char_from,
    lemma_nth_pos_ordered, lower_char, lower_char_exec, nth_char_from, nth_char_from_exec,
    parse_i16, parse_i32, parse_int, same_str, slice, starts_with, starts_with_str, string_from,
    text, trim, trim_bounds,
};
use crate::types::{
    blank_view, field_get, field_insert, Detail, DetailView, Details, DetailsView, FieldMap,
    LogType, LogView, ParsedLog, RuleAction,
};
use crate::firewall::parse_i32_spec;

verus! {

/// Whether this line is a CEF event.
pub open spec fn cef_line(body: Seq<char>) -> bool {
    starts_with(body, "CEF:"@)
}

/// Whether this line is a CEF event.
pub fn is_cef(body: &str) -> (r: bool)
    ensures
        r == cef_line(body@),
{
    let s = chars_of(body);
    starts_with_str(s.as_slice(), "CEF:")
}

/// The header fields that matter: signature id, name, severity, and the
/// extension after the seventh `|` (empty where there is none). Fewer than
/// six `|` is no CEF header.
pub open spec fn header_bounds(s: Seq<char>) -> Option<(int, int, int, int, int, int, int, int)> {
    match nth_char_from(s, '|', 0, 6) {
        None => None,
        Some(p6) => {
            let p4 = nth_char_from(s, '|', 0, 4).unwrap();
            let p5 = nth_char_from(s, '|', 0, 5).unwrap();
            match nth_char_from(s, '|', 0, 7) {
                Some(p7) => Some((p4 + 1, p5, p5 + 1, p6, p6 + 1, p7, p7 + 1, s.len() as int)),
                None => Some(
                    (p4 + 1, p5, p5 + 1, p6, p6 + 1, s.len() as int, s.len() as int, s.len() as int),
                ),
            }
        },
    }
}

proof fn lemma_header_bounds(s: Seq<char>)
    ensures
        header_bounds(s) matches Some((a, b, c, d, e, f, g, h)) ==> 0 <= a <= b < c <= d < e <= f
            <= g <= h == s.len(),
{
    lemma_nth_char_from(s, '|', 0, 6);
    lemma_nth_char_from(s, '|', 0, 7);
    if nth_char_from(s, '|', 0, 6) is Some {
        lemma_nth_pos_ordered(s, '|', 4, 6);
        lemma_nth_pos_ordered(s, '|', 5, 6);
        lemma_nth_char_from(s, '|', 0, 4);
        lemma_nth_char_from(s, '|', 0, 5);
        if nth_char_from(s, '|', 0, 7) is Some {
            lemma_nth_pos_ordered(s, '|', 6, 7);
        }
    }
}

fn header_bounds_exec(s: &[char]) -> (r: Option<(usize, usize, usize, usize, usize, usize, usize, usize)>)
    ensures
        match r {
            Some(t) => header_bounds(s@) == Some(
                (
                    t.0 as int,
                    t.1 as int,
                    t.2 as int,
                    t.3 as int,
                    t.4 as int,
                    t.5 as int,
                    t.6 as int,
                    t.7 as int,
                ),
            ),
            None => header_bounds(s@) is None,
        },
{
    proof {
        lemma_header_bounds(s@);
        lemma_nth_char_from(s@, '|', 0, 6);
        lemma_nth_char_from(s@, '|', 0, 7);
    }
    let p6 = match nth_char_from_exec(s, '|', 0, 6) {
        None => return None,
        Some(p) => p,
    };
    proof {
        lemma_nth_pos_ordered(s@, '|', 4, 6);
        lemma_nth_pos_ordered(s@, '|', 5, 6);
        assert(p6 < s.len());
    }
    let p4 = nth_char_from_exec(s, '|', 0, 4).unwrap();
    let p5 = nth_char_from_exec(s, '|', 0, 5).unwrap();
    match nth_char_from_exec(s, '|', 0, 7) {
        Some(p7) => {
            proof {
                lemma_nth_pos_ordered(s@, '|', 6, 7);
            }
            Some((p4 + 1, p5, p5 + 1, p6, p6 + 1, p7, p7 + 1, s.len()))
        },
        None => Some((p4 + 1, p5, p5 + 1, p6, p6 + 1, s.len(), s.len(), s.len())),
    }
}

// ---------------------------------------------------------------------------
// Keys
// ---------------------------------------------------------------------------

/// The first position at or after `j` that cannot be part of a key.
pub open spec fn key_end(s: Seq<char>, j: int) -> int
    decreases s.len() - j,
{
    if 0 <= j < s.len() && (is_alnum(s[j]) || s[j] == '_') {
        key_end(s, j + 1)
    } else {
        j
    }
}

/// Where key=value pairs begin, from position `i` on: a key stands at the
/// start or after a space, is made of letters, digits and `_` (starting
/// with a letter or `_`), and ends at `=`. Each entry is (key start, `=`).
pub open spec fn key_starts_from(s: Seq<char>, i: int) -> Seq<(int, int)>
    decreases s.len() - i,
{
    if i < 0 || i >= s.len() {
        Seq::empty()
    } else {
        let at_start = i == 0 || s[i - 1] == ' ';
        if at_start && (is_alpha(s[i]) || s[i] == '_') {
            let j = key_end(s, i);
            if j < s.len() && s[j] == '=' && j > i {
                seq![(i, j)] + key_starts_from(s, j + 1)
            } else {
                key_starts_from(s, i + 1)
            }
        } else {
            key_starts_from(s, i + 1)
        }
    }
}

proof fn lemma_key_end(s: Seq<char>, j: int)
    requires
        0 <= j <= s.len(),
    ensures
        j <= key_end(s, j) <= s.len(),
    decreases s.len() - j,
{
    if 0 <= j < s.len() && (is_alnum(s[j]) || s[j] == '_') {
        lemma_key_end(s, j + 1);
    }
}

/// Keys lie in order, each after the `=` of the one before.
pub open spec fn keys_wf(s: Seq<char>, ks: Seq<(int, int)>, lo: int) -> bool {
    &&& forall|k: int| 0 <= k < ks.len() ==> lo <= (#[trigger] ks[k]).0 < ks[k].1 < s.len()
    &&& forall|k: int| 0 <= k < ks.len() - 1 ==> (#[trigger] ks[k]).1 < ks[k + 1].0
}

proof fn lemma_key_starts(s: Seq<char>, i: int)
    requires
        0 <= i,
    ensures
        keys_wf(s, key_starts_from(s, i), i),
    decreases s.len() - i,
{
    if i < 0 || i >= s.len() {
    } else {
        let at_start = i == 0 || s[i - 1] == ' ';
        if at_start && (is_alpha(s[i]) || s[i] == '_') {
            let j = key_end(s, i);
            lemma_key_end(s, i);
            if j < s.len() && s[j] == '=' && j > i {
                lemma_key_starts(s, j + 1);
                let rest = key_starts_from(s, j + 1);
                let all = seq![(i, j)] + rest;
                assert forall|k: int| 0 <= k < all.len() implies i <= (#[trigger] all[k]).0
                    < all[k].1 < s.len() by {
                    if k > 0 {
                        assert(all[k] == rest[k - 1]);
                    }
                }
                assert forall|k: int| 0 <= k < all.len() - 1 implies (#[trigger] all[k]).1 < all[k
                    + 1].0 by {
                    if k > 0 {
                        assert(all[k] == rest[k - 1]);
                        assert(all[k + 1] == rest[k]);
                    } else {
                        assert(all[1] == rest[0]);
                    }
                }
            } else {
                lemma_key_starts(s, i + 1);
            }
        } else {
            lemma_key_starts(s, i + 1);
        }
    }
}

fn key_end_exec(s: &[char], j: usize) -> (r: usize)
    requires
        j <= s@.len(),
    ensures
        r as int == key_end(s@, j as int),
        j <= r <= s@.len(),
{
    proof {
        lemma_key_end(s@, j as int);
    }
    let mut k = j;
    while k < s.len() && (is_alnum_exec(s[k]) || s[k] == '_')
        invariant
            j <= k <= s@.len(),
            key_end(s@, j as int) == key_end(s@, k as int),
        decreases s.len() - k,
    {
        k = k + 1;
    }
    k
}

/// Where key=value pairs begin: (key start, `=`) for each.
pub fn key_starts(s: &[char]) -> (r: Vec<(usize, usize)>)
    ensures
        r@.len() == key_starts_from(s@, 0).len(),
        forall|k: int|
            0 <= k < r@.len() ==> #[trigger] key_starts_from(s@, 0)[k] == (
                r@[k].0 as int,
                r@[k].1 as int,
            ),
{
    let mut out: Vec<(usize, usize)> = Vec::new();
    let mut i: usize = 0;
    while i < s.len()
        invariant
            i <= s@.len(),
            out@.len() + key_starts_from(s@, i as int).len() == key_starts_from(s@, 0).len(),
            forall|k: int|
                0 <= k < out@.len() ==> #[trigger] key_starts_from(s@, 0)[k] == (
                    out@[k].0 as int,
                    out@[k].1 as int,
                ),
            forall|k: int|
                0 <= k < key_starts_from(s@, i as int).len() ==> key_starts_from(s@, 0)[out@.len()
                    + k] == #[trigger] key_starts_from(s@, i as int)[k],
        decreases s.len() - i,
    {
        let at_start = i == 0 || s[i - 1] == ' ';
        if at_start && (is_alpha_exec(s[i]) || s[i] == '_') {
            let j = key_end_exec(s, i);
            if j < s.len() && s[j] == '=' && j > i {
                let ghost rest = key_starts_from(s@, j + 1);
                assert(key_starts_from(s@, i as int) == seq![(i as int, j as int)] + rest);
                assert(key_starts_from(s@, i as int)[0] == (i as int, j as int));
                out.push((i, j));
                assert forall|k: int| 0 <= k < rest.len() implies key_starts_from(s@, 0)[out@.len()
                    + k] == #[trigger] rest[k] by {
                    assert(key_starts_from(s@, i as int)[k + 1] == rest[k]);
                }
                i = j + 1;
                continue;
            }
        }
        i = i + 1;
    }
    out
}

// ---------------------------------------------------------------------------
// The extension
// ---------------------------------------------------------------------------

/// `str::strip_prefix("UNIFI")`, keeping the key where it has no such prefix.
pub open spec fn strip_unifi(k: Seq<char>) -> Seq<char> {
    if starts_with(k, "UNIFI"@) {
        k.skip(5)
    } else {
        k
    }
}

/// The key with its first letter lower-cased.
pub open spec fn lower_first(k: Seq<char>) -> Seq<char> {
    if k.len() == 0 {
        k
    } else {
        seq![lower_char(k[0])] + k.skip(1)
    }
}

/// What the `n`-th pair adds to the fields: the key without `UNIFI`, its
/// first letter lower-cased, with the trimmed value as text — unless the
/// value is empty or `null`.
pub open spec fn field_step(
    acc: Seq<(Seq<char>, DetailView)>,
    s: Seq<char>,
    ks: Seq<(int, int)>,
    n: int,
) -> Seq<(Seq<char>, DetailView)> {
    let (start, eq) = ks[n];
    let end = if n + 1 < ks.len() {
        ks[n + 1].0
    } else {
        s.len() as int
    };
    let value = trim(s.subrange(eq + 1, end));
    if value.len() == 0 || value == "null"@ {
        acc
    } else {
        field_insert(acc, lower_first(strip_unifi(s.subrange(start, eq))), DetailView::Text(value))
    }
}

/// The fields of the first `n` pairs.
pub open spec fn fields_upto(s: Seq<char>, ks: Seq<(int, int)>, n: int) -> Seq<(Seq<char>, DetailView)>
    decreases n,
{
    if n <= 0 {
        Seq::empty()
    } else {
        field_step(fields_upto(s, ks, n - 1), s, ks, n - 1)
    }
}

/// The extension as named fields.
pub open spec fn extension_fields(s: Seq<char>) -> Seq<(Seq<char>, DetailView)> {
    let ks = key_starts_from(s, 0);
    fields_upto(s, ks, ks.len() as int)
}

fn lower_first_exec(k: &[char]) -> (r: Vec<char>)
    ensures
        r@ == lower_first(k@),
{
    if k.len() == 0 {
        return slice(k, 0, 0);
    }
    let mut r: Vec<char> = Vec::new();
    r.push(lower_char_exec(k[0]));
    let rest = slice(k, 1, k.len());
    let mut i: usize = 0;
    while i < rest.len()
        invariant
            0 <= i <= rest@.len(),
            rest@ == k@.skip(1),
            r@ == seq![lower_char(k@[0])] + rest@.take(i as int),
        decreases rest.len() - i,
    {
        r.push(rest[i]);
        i = i + 1;
        assert(r@ =~= seq![lower_char(k@[0])] + rest@.take(i as int));
    }
    assert(rest@.take(rest@.len() as int) =~= rest@);
    assert(k@.subrange(1, k@.len() as int) =~= k@.skip(1));
    r
}

/// The extension as named fields, without the `UNIFI` prefix on keys.
pub fn extension_chars(s: &[char]) -> (r: FieldMap)
    ensures
        r@ == extension_fields(s@),
{
    let keys = key_starts(s);
    let ghost ks = key_starts_from(s@, 0);
    proof {
        lemma_key_starts(s@, 0);
    }
    let mut out = FieldMap::new();
    let mut n: usize = 0;
    while n < keys.len()
        invariant
            0 <= n <= keys@.len(),
            ks == key_starts_from(s@, 0),
            keys_wf(s@, ks, 0),
            keys@.len() == ks.len(),
            forall|k: int|
                0 <= k < keys@.len() ==> #[trigger] ks[k] == (keys@[k].0 as int, keys@[k].1 as int),
            out@ == fields_upto(s@, ks, n as int),
        decreases keys.len() - n,
    {
        let (start, eq) = keys[n];
        assert(ks[n as int] == (start as int, eq as int));
        let end = if n + 1 < keys.len() {
            assert(ks[n + 1] == (keys@[n + 1].0 as int, keys@[n + 1].1 as int));
            keys[n + 1].0
        } else {
            s.len()
        };
        let raw = slice(s, eq + 1, end);
        let (a, b) = trim_bounds(raw.as_slice());
        let value = slice(raw.as_slice(), a, b);
        if value.len() == 0 || same_str(value.as_slice(), "null") {
        } else {
            let key = slice(s, start, eq);
            let stripped = if starts_with_str(key.as_slice(), "UNIFI") {
                proof {
                    reveal_strlit("UNIFI");
                }
                assert(key@.subrange(5, key@.len() as int) =~= key@.skip(5));
                slice(key.as_slice(), 5, key.len())
            } else {
                slice(key.as_slice(), 0, key.len())
            };
            assert(key@.subrange(0, key@.len() as int) =~= key@);
            let k = lower_first_exec(stripped.as_slice());
            out.insert(string_from(k.as_slice()), Detail::Text(string_from(value.as_slice())));
        }
        n = n + 1;
    }
    out
}

/// The extension as named fields, without the `UNIFI` prefix on keys.
pub fn extension(ext: &str) -> (r: FieldMap)
    ensures
        r@ == extension_fields(ext@),
{
    let s = chars_of(ext);
    extension_chars(s.as_slice())
}

// ---------------------------------------------------------------------------
// The event
// ---------------------------------------------------------------------------

/// The CEF severity (0–10) on the syslog scale (0–7, lower is more urgent):
/// 0–3 info (6), 4–6 warning (4), 7–8 error (3), anything else critical (2).
pub open spec fn cef_severity(raw: Seq<char>) -> Option<i16> {
    match parse_int(trim(raw), true, i16::MIN as int, i16::MAX as int) {
        None => None,
        Some(n) => Some(
            if 0 <= n <= 3 {
                6i16
            } else if 4 <= n <= 6 {
                4i16
            } else if 7 <= n <= 8 {
                3i16
            } else {
                2i16
            },
        ),
    }
}

/// The CEF severity on the syslog scale.
pub fn severity_from_cef(raw: &[char]) -> (r: Option<i16>)
    ensures
        r == cef_severity(raw@),
{
    let (a, b) = trim_bounds(raw);
    let t = slice(raw, a, b);
    match parse_i16(t.as_slice()) {
        None => None,
        Some(n) => Some(
            if 0 <= n && n <= 3 {
                6
            } else if 4 <= n && n <= 6 {
                4
            } else if 7 <= n && n <= 8 {
                3
            } else {
                2
            },
        ),
    }
}

/// The text stored under `key`.
pub open spec fn text_of(f: Seq<(Seq<char>, DetailView)>, key: Seq<char>) -> Option<Seq<char>> {
    match field_get(f, key) {
        Some(DetailView::Text(t)) => Some(t),
        _ => None,
    }
}

/// The address stored under `key`.
pub open spec fn ip_of(f: Seq<(Seq<char>, DetailView)>, key: Seq<char>) -> Option<IpAddress> {
    match text_of(f, key) {
        Some(t) => parsed_ip(t),
        None => None,
    }
}

/// The port stored under `key`.
pub open spec fn port_of(f: Seq<(Seq<char>, DetailView)>, key: Seq<char>) -> Option<i32> {
    match text_of(f, key) {
        Some(t) => parse_i32_spec(t),
        None => None,
    }
}

pub open spec fn or_else<T>(a: Option<T>, b: Option<T>) -> Option<T> {
    if a is Some {
        a
    } else {
        b
    }
}

/// A CEF event as a log row. WiFi events (400 connected, 401 disconnected,
/// 402 roamed) become wifi rows; a firewall block (203) keeps its action
/// and policy name; everything else stays a system row. The addresses,
/// ports, protocol, MAC and host name are taken over in every case.
pub open spec fn cef_view(body: Seq<char>) -> Option<LogView> {
    match header_bounds(body) {
        None => None,
        Some((a, b, c, d, e, f, g, h)) => {
            let signature = body.subrange(a, b);
            let name = body.subrange(c, d);
            let sev = body.subrange(e, f);
            let ext = body.subrange(g, h);
            let fields = field_insert(
                field_insert(extension_fields(ext), "event"@, DetailView::Text(name)),
                "signature"@,
                DetailView::Text(signature),
            );
            let base = LogView {
                severity: cef_severity(sev),
                program: Some("unifi"@),
                src_ip: or_else(
                    ip_of(fields, "clientIp"@),
                    or_else(ip_of(fields, "srcClientIp"@), ip_of(fields, "src"@)),
                ),
                dst_ip: or_else(ip_of(fields, "dst"@), ip_of(fields, "dstClientIp"@)),
                src_port: port_of(fields, "spt"@),
                dst_port: port_of(fields, "dpt"@),
                protocol: text_of(fields, "proto"@),
                mac_address: or_else(text_of(fields, "clientMac"@), text_of(fields, "srcClientMac"@)),
                hostname: or_else(
                    text_of(fields, "clientAlias"@),
                    text_of(fields, "clientHostname"@),
                ),
                details: Some(DetailsView::Fields(fields)),
                ..blank_view(Some(LogType::System))
            };
            Some(
                if signature == "400"@ || signature == "401"@ || signature == "402"@ {
                    LogView {
                        log_type: Some(LogType::Wifi),
                        wifi_event: Some(
                            if signature == "400"@ {
                                "connected"@
                            } else if signature == "401"@ {
                                "disconnected"@
                            } else {
                                "roamed"@
                            },
                        ),
                        interface_in: text_of(fields, "networkName"@),
                        ..base
                    }
                } else if signature == "203"@ {
                    LogView {
                        rule_action: Some(RuleAction::Block),
                        rule_name: or_else(
                            text_of(fields, "policyName"@),
                            text_of(fields, "firewallPolicy"@),
                        ),
                        ..base
                    }
                } else {
                    base
                },
            )
        },
    }
}

/// Text without a `|`.
pub open spec fn no_bar(x: Seq<char>) -> bool {
    forall|k: int| 0 <= k < x.len() ==> x[k] != '|'
}

/// A CEF line from its parts: version, vendor, product, product version,
/// signature id, name and severity, each followed by `|`, then the
/// extension.
pub open spec fn cef_text(
    version: Seq<char>,
    vendor: Seq<char>,
    product: Seq<char>,
    product_version: Seq<char>,
    signature: Seq<char>,
    name: Seq<char>,
    severity: Seq<char>,
    ext: Seq<char>,
) -> Seq<char> {
    let bar = seq!['|'];
    version + bar + vendor + bar + product + bar + product_version + bar + signature + bar + name + bar
        + severity + bar + ext
}

proof fn lemma_next_bar(s: Seq<char>, i: int, part: Seq<char>)
    requires
        0 <= i,
        i + part.len() < s.len(),
        s.subrange(i, i + part.len()) == part,
        no_bar(part),
        s[i + part.len()] == '|',
    ensures
        find_char_from(s, '|', i) == Some(i + part.len()),
{
    assert forall|k: int| i <= k < i + part.len() implies s[k] != '|' by {
        assert(s[k] == s.subrange(i, i + part.len())[k - i]);
    }
    lemma_find_char_at(s, '|', i, i + part.len());
}

/// The header of a CEF line is read field by field at its `|`: for a line
/// built from header fields without `|`, the signature, name, severity and
/// extension read are exactly those parts.
pub proof fn lemma_header_fields_read_back(
    version: Seq<char>,
    vendor: Seq<char>,
    product: Seq<char>,
    product_version: Seq<char>,
    signature: Seq<char>,
    name: Seq<char>,
    severity: Seq<char>,
    ext: Seq<char>,
)
    requires
        no_bar(version),
        no_bar(vendor),
        no_bar(product),
        no_bar(product_version),
        no_bar(signature),
        no_bar(name),
        no_bar(severity),
    ensures
        ({
            let body = cef_text(version, vendor, product, product_version, signature, name, severity, ext);
            header_bounds(body) matches Some((a, b, c, d, e, f, g, h)) && body.subrange(a, b) == signature
                && body.subrange(c, d) == name && body.subrange(e, f) == severity && body.subrange(g, h)
                == ext
        }),
{
    let bar = seq!['|'];
    let body = cef_text(version, vendor, product, product_version, signature, name, severity, ext);
    let p1 = version.len() as int;
    let p2 = p1 + 1 + vendor.len();
    let p3 = p2 + 1 + product.len();
    let p4 = p3 + 1 + product_version.len();
    let p5 = p4 + 1 + signature.len();
    let p6 = p5 + 1 + name.len();
    let p7 = p6 + 1 + severity.len();
    assert(body.len() == p7 + 1 + ext.len());
    assert(body.subrange(0, p1) =~= version);
    assert(body.subrange(p1 + 1, p2) =~= vendor);
    assert(body.subrange(p2 + 1, p3) =~= product);
    assert(body.subrange(p3 + 1, p4) =~= product_version);
    assert(body.subrange(p4 + 1, p5) =~= signature);
    assert(body.subrange(p5 + 1, p6) =~= name);
    assert(body.subrange(p6 + 1, p7) =~= severity);
    assert(body.subrange(p7 + 1, body.len() as int) =~= ext);
    assert(body[p1] == '|' && body[p2] == '|' && body[p3] == '|' && body[p4] == '|');
    assert(body[p5] == '|' && body[p6] == '|' && body[p7] == '|');
    lemma_next_bar(body, 0, version);
    lemma_next_bar(body, p1 + 1, vendor);
    lemma_next_bar(body, p2 + 1, product);
    lemma_next_bar(body, p3 + 1, product_version);
    lemma_next_bar(body, p4 + 1, signature);
    lemma_next_bar(body, p5 + 1, name);
    lemma_next_bar(body, p6 + 1, severity);
    assert(nth_char_from(body, '|', p6 + 1, 1) == Some(p7));
    assert(nth_char_from(body, '|', p5 + 1, 2) == Some(p7));
    assert(nth_char_from(body, '|', p4 + 1, 3) == Some(p7));
    assert(nth_char_from(body, '|', p3 + 1, 4) == Some(p7));
    assert(nth_char_from(body, '|', p2 + 1, 5) == Some(p7));
    assert(nth_char_from(body, '|', p1 + 1, 6) == Some(p7));
    assert(nth_char_from(body, '|', 0, 7) == Some(p7));
    assert(nth_char_from(body, '|', p5 + 1, 1) == Some(p6));
    assert(nth_char_from(body, '|', p4 + 1, 2) == Some(p6));
    assert(nth_char_from(body, '|', p3 + 1, 3) == Some(p6));
    assert(nth_char_from(body, '|', p2 + 1, 4) == Some(p6));
    assert(nth_char_from(body, '|', p1 + 1, 5) == Some(p6));
    assert(nth_char_from(body, '|', 0, 6) == Some(p6));
    assert(nth_char_from(body, '|', p4 + 1, 1) == Some(p5));
    assert(nth_char_from(body, '|', p3 + 1, 2) == Some(p5));
    assert(nth_char_from(body, '|', p2 + 1, 3) == Some(p5));
    assert(nth_char_from(body, '|', p1 + 1, 4) == Some(p5));
    assert(nth_char_from(body, '|', 0, 5) == Some(p5));
    assert(nth_char_from(body, '|', p3 + 1, 1) == Some(p4));
    assert(nth_char_from(body, '|', p2 + 1, 2) == Some(p4));
    assert(nth_char_from(body, '|', p1 + 1, 3) == Some(p4));
    assert(nth_char_from(body, '|', 0, 4) == Some(p4));
}

/// WiFi events are told apart by their signature id: 400 is a client that
/// connected, 401 one that disconnected, 402 one that roamed; each makes a
/// WiFi row. Any other signature gives no WiFi event. This holds for every
/// line whose header fields hold no `|`, whatever the rest of it says.
pub proof fn lemma_wifi_event_by_signature(
    version: Seq<char>,
    vendor: Seq<char>,
    product: Seq<char>,
    product_version: Seq<char>,
    signature: Seq<char>,
    name: Seq<char>,
    severity: Seq<char>,
    ext: Seq<char>,
)
    requires
        no_bar(version),
        no_bar(vendor),
        no_bar(product),
        no_bar(product_version),
        no_bar(signature),
        no_bar(name),
        no_bar(severity),
    ensures
        ({
            let body = cef_text(version, vendor, product, product_version, signature, name, severity, ext);
            &&& cef_view(body) is Some
            &&& signature == "400"@ ==> cef_view(body).unwrap().log_type == Some(LogType::Wifi)
                && cef_view(body).unwrap().wifi_event == Some("connected"@)
            &&& signature == "401"@ ==> cef_view(body).unwrap().log_type == Some(LogType::Wifi)
                && cef_view(body).unwrap().wifi_event == Some("disconnected"@)
            &&& signature == "402"@ ==> cef_view(body).unwrap().log_type == Some(LogType::Wifi)
                && cef_view(body).unwrap().wifi_event == Some("roamed"@)
            &&& signature != "400"@ && signature != "401"@ && signature != "402"@ ==> cef_view(
                body,
            ).unwrap().wifi_event is None
        }),
{
    lemma_header_fields_read_back(version, vendor, product, product_version, signature, name, severity, ext);
    reveal_strlit("400");
    reveal_strlit("401");
    reveal_strlit("402");
    assert("400"@[2] != "401"@[2]);
    assert("400"@[2] != "402"@[2]);
    assert("401"@[2] != "402"@[2]);
}

fn text_field(f: &FieldMap, key: &str) -> (r: Option<String>)
    ensures
        match r {
            Some(s) => text_of(f@, key@) == Some(s@),
            None => text_of(f@, key@) is None,
        },
{
    f.text(key)
}

fn ip_field(f: &FieldMap, key: &str) -> (r: Option<IpAddress>)
    ensures
        r == ip_of(f@, key@),
{
    match f.text(key) {
        Some(t) => {
            let cs = chars_of(t.as_str());
            parse_ip_chars(cs.as_slice())
        },
        None => None,
    }
}

fn port_field(f: &FieldMap, key: &str) -> (r: Option<i32>)
    ensures
        r == port_of(f@, key@),
{
    match f.text(key) {
        Some(t) => {
            let cs = chars_of(t.as_str());
            parse_i32(cs.as_slice())
        },
        None => None,
    }
}

fn first_text(f: &FieldMap, a: &str, b: &str) -> (r: Option<String>)
    ensures
        match r {
            Some(s) => or_else(text_of(f@, a@), text_of(f@, b@)) == Some(s@),
            None => or_else(text_of(f@, a@), text_of(f@, b@)) is None,
        },
{
    match text_field(f, a) {
        Some(s) => Some(s),
        None => text_field(f, b),
    }
}

/// Parses a CEF event; `None` when the header has fewer than seven fields.
pub fn parse_cef_chars(s: &[char]) -> (r: Option<ParsedLog>)
    ensures
        match r {
            Some(p) => cef_view(s@) == Some(p@),
            None => cef_view(s@) is None,
        },
{
    proof {
        lemma_header_bounds(s@);
    }
    let (a, b, c, d, e, f, g, h) = match header_bounds_exec(s) {
        None => return None,
        Some(t) => t,
    };
    let ext = slice(s, g, h);
    let mut fields = extension_chars(ext.as_slice());
    fields.insert("event".to_owned(), Detail::Text(text(s, c, d)));
    fields.insert("signature".to_owned(), Detail::Text(text(s, a, b)));
    let sev = slice(s, e, f);
    let mut p = ParsedLog::blank(Some(LogType::System));
    p.severity = severity_from_cef(sev.as_slice());
    p.program = Some("unifi".to_owned());
    p.src_ip = match ip_field(&fields, "clientIp") {
        Some(ip) => Some(ip),
        None => match ip_field(&fields, "srcClientIp") {
            Some(ip) => Some(ip),
            None => ip_field(&fields, "src"),
        },
    };
    p.dst_ip = match ip_field(&fields, "dst") {
        Some(ip) => Some(ip),
        None => ip_field(&fields, "dstClientIp"),
    };
    p.src_port = port_field(&fields, "spt");
    p.dst_port = port_field(&fields, "dpt");
    p.protocol = text_field(&fields, "proto");
    p.mac_address = first_text(&fields, "clientMac", "srcClientMac");
    p.hostname = first_text(&fields, "clientAlias", "clientHostname");
    let sig = slice(s, a, b);
    let sg = sig.as_slice();
    if same_str(sg, "400") || same_str(sg, "401") || same_str(sg, "402") {
        p.log_type = Some(LogType::Wifi);
        p.wifi_event = Some(
            if same_str(sg, "400") {
                "connected".to_owned()
            } else if same_str(sg, "401") {
                "disconnected".to_owned()
            } else {
                "roamed".to_owned()
            },
        );
        p.interface_in = text_field(&fields, "networkName");
    } else if same_str(sg, "203") {
        p.rule_action = Some(RuleAction::Block);
        p.rule_name = first_text(&fields, "policyName", "firewallPolicy");
    }
    p.details = Some(Details::Fields(fields));
    Some(p)
}

/// Parses a CEF event; `None` when the header has fewer than seven fields.
pub fn parse_cef(body: &str) -> (r: Option<ParsedLog>)
    ensures
        match r {
            Some(p) => cef_view(body@) == Some(p@),
            None => cef_view(body@) is None,
        },
{
    let s = chars_of(body);
    parse_cef_chars(s.as_slice())
}

} // verus!
