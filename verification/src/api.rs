//! Small pieces of the read API: names of ids, cursors, cache keys, the
//! settings that may be written, the time buckets of the dashboard, and
//! the columns of the flow view.
use vstd::prelude::*;

use crate::text::{
    append_chars, chars_of, decimal, decimal_text, digits_of, find_char, find_char_exec, is_digit,
    lemma_digits_of, lemma_find_char_at, lemma_find_char_from_bounds, lemma_parse_decimal,
    parse_i64, parse_int, same_str, slice, string_from, trim,
};

verus! {

/// The name of an id in a table whose ids count from 1.
pub open spec fn table_name(table: Seq<Seq<char>>, id: Option<i16>) -> Option<Seq<char>> {
    match id {
        Some(i) if 1 <= i <= table.len() => Some(table[i - 1]),
        _ => None,
    }
}

/// The name of an id in a table whose ids count from 1.
pub fn name(table: &[&'static str], id: Option<i16>) -> (r: Option<&'static str>)
    ensures
        match r {
            Some(s) => table_name(table@.map_values(|t: &'static str| t@), id) == Some(s@),
            None => table_name(table@.map_values(|t: &'static str| t@), id) is None,
        },
{
    match id {
        Some(i) => if 1 <= i && (i as usize) <= table.len() {
            Some(table[(i - 1) as usize])
        } else {
            None
        },
        None => None,
    }
}

/// The log types by id.
pub open spec fn log_type_table() -> Seq<Seq<char>> {
    seq!["firewall"@, "dns"@, "dhcp"@, "wifi"@, "system"@]
}

/// The directions by id.
pub open spec fn direction_table() -> Seq<Seq<char>> {
    seq!["inbound"@, "outbound"@, "local"@, "inter_vlan"@, "vpn"@, "nat"@]
}

/// The actions by id.
pub open spec fn action_table() -> Seq<Seq<char>> {
    seq!["allow"@, "block"@, "redirect"@]
}

/// The name of a log type's id.
pub fn log_type_name(id: i16) -> (r: Option<&'static str>)
    ensures
        match r {
            Some(s) => table_name(log_type_table(), Some(id)) == Some(s@),
            None => table_name(log_type_table(), Some(id)) is None,
        },
{
    let t = ["firewall", "dns", "dhcp", "wifi", "system"];
    assert(t@.map_values(|s: &'static str| s@) =~= log_type_table());
    name(&t, Some(id))
}

/// The name of a direction's id.
pub fn direction_name(id: i16) -> (r: Option<&'static str>)
    ensures
        match r {
            Some(s) => table_name(direction_table(), Some(id)) == Some(s@),
            None => table_name(direction_table(), Some(id)) is None,
        },
{
    let t = ["inbound", "outbound", "local", "inter_vlan", "vpn", "nat"];
    assert(t@.map_values(|s: &'static str| s@) =~= direction_table());
    name(&t, Some(id))
}

/// The name of an action's id.
pub fn action_name(id: Option<i16>) -> (r: Option<&'static str>)
    ensures
        match r {
            Some(s) => table_name(action_table(), id) == Some(s@),
            None => table_name(action_table(), id) is None,
        },
{
    let t = ["allow", "block", "redirect"];
    assert(t@.map_values(|s: &'static str| s@) =~= action_table());
    name(&t, id)
}

/// The cache key of a request: path and raw query text. Raw, not parsed:
/// two requests with the same text mean the same, and a reordering costs
/// at most one more entry.
pub open spec fn cache_key(path: Seq<char>, query: Option<Seq<char>>) -> Seq<char> {
    path + seq!['?'] + match query {
        Some(q) => q,
        None => Seq::empty(),
    }
}

/// The cache key of a request.
pub fn key(path: &str, query: Option<&str>) -> (r: String)
    ensures
        r@ == cache_key(
            path@,
            match query {
                Some(q) => Some(q@),
                None => None,
            },
        ),
{
    let mut v = chars_of(path);
    v.push('?');
    match query {
        Some(q) => {
            let qc = chars_of(q);
            let mut i: usize = 0;
            let ghost start = v@;
            while i < qc.len()
                invariant
                    0 <= i <= qc@.len(),
                    v@ == start + qc@.take(i as int),
                decreases qc.len() - i,
            {
                v.push(qc[i]);
                i = i + 1;
                assert(v@ =~= start + qc@.take(i as int));
            }
            assert(qc@.take(qc@.len() as int) =~= qc@);
        },
        None => {
            assert(v@ =~= path@ + seq!['?'] + Seq::<char>::empty());
        },
    }
    string_from(v.as_slice())
}

/// A page cursor `micros:id`: the instant (microseconds since the epoch)
/// and the id of the last row shown. An instant no timestamp can hold is
/// no cursor.
pub open spec fn cursor_of(s: Seq<char>) -> Option<(i64, i64)> {
    match find_char(s, ':') {
        Some(i) => match (
            parse_int(s.subrange(0, i), true, i64::MIN as int, i64::MAX as int),
            parse_int(s.subrange(i + 1, s.len() as int), true, i64::MIN as int, i64::MAX as int),
        ) {
            (Some(t), Some(id)) => if crate::filters::FIRST_INSTANT <= t
                <= crate::filters::LAST_INSTANT {
                Some((t as i64, id as i64))
            } else {
                None
            },
            _ => None,
        },
        None => None,
    }
}

/// Reads a page cursor.
pub fn parse_cursor(s: &str) -> (r: Option<(i64, i64)>)
    ensures
        r == cursor_of(s@),
{
    let cs = chars_of(s);
    proof {
        lemma_find_char_from_bounds(cs@, ':', 0);
    }
    let i = match find_char_exec(cs.as_slice(), ':') {
        Some(i) => i,
        None => return None,
    };
    let n = cs.len();
    assert(i < n);
    let a = slice(cs.as_slice(), 0, i);
    let b = slice(cs.as_slice(), i + 1, cs.len());
    match (parse_i64(a.as_slice()), parse_i64(b.as_slice())) {
        (Some(t), Some(id)) => if crate::filters::FIRST_INSTANT <= t && t
            <= crate::filters::LAST_INSTANT {
            Some((t, id))
        } else {
            None
        },
        _ => None,
    }
}

/// The cursor of a row: its instant (microseconds) and id, as `micros:id`.
pub open spec fn cursor_text_of(t: i64, id: i64) -> Seq<char> {
    decimal(t as int) + seq![':'] + decimal(id as int)
}

/// The cursor after a page: that of its last row.
pub fn cursor_text(t: i64, id: i64) -> (r: String)
    ensures
        r@ == cursor_text_of(t, id),
{
    let mut v = chars_of(decimal_text(t).as_str());
    v.push(':');
    let b = chars_of(decimal_text(id).as_str());
    append_chars(&mut v, b.as_slice());
    string_from(v.as_slice())
}

/// A cursor handed out reads back as the position it was made from: the
/// next page starts right after the last row of this one, so paging walks
/// the log without gaps or repeats.
pub proof fn lemma_cursor_round_trip(t: i64, id: i64)
    requires
        crate::filters::FIRST_INSTANT <= t <= crate::filters::LAST_INSTANT,
    ensures
        cursor_of(cursor_text_of(t, id)) == Some((t, id)),
{
    let a = decimal(t as int);
    let b = decimal(id as int);
    let s = cursor_text_of(t, id);
    lemma_parse_decimal(t as int, i64::MIN as int, i64::MAX as int);
    lemma_parse_decimal(id as int, i64::MIN as int, i64::MAX as int);
    assert forall|k: int| 0 <= k < a.len() implies s[k] != ':' by {
        assert(s[k] == a[k]);
        if t < 0 {
            lemma_digits_of((-t) as nat);
            if k > 0 {
                assert(a[k] == digits_of((-t) as nat)[k - 1]);
                assert(is_digit(digits_of((-t) as nat)[k - 1]));
            }
        } else {
            lemma_digits_of(t as nat);
            assert(is_digit(a[k]));
        }
    }
    lemma_find_char_at(s, ':', 0, a.len() as int);
    assert(s.subrange(0, a.len() as int) =~= a);
    assert(s.subrange((a.len() + 1) as int, s.len() as int) =~= b);
}

/// The number of rows a page holds: 100 unless asked, and 1..=1000.
pub fn page_limit(limit: Option<i64>) -> (r: i64)
    ensures
        r == match limit {
            Some(n) => if n < 1 {
                1
            } else if n > 1000 {
                1000
            } else {
                n
            },
            None => 100,
        },
{
    match limit {
        Some(n) => if n < 1 {
            1
        } else if n > 1000 {
            1000
        } else {
            n
        },
        None => 100,
    }
}

// ---------------------------------------------------------------------------
// Settings the interface may write
// ---------------------------------------------------------------------------

/// The type of a setting.
#[derive(Debug, Clone, Copy, PartialEq, Eq, Structural)]
pub enum Kind {
    Text,
    Bool,
    Number,
    /// Never given back in clear text — only whether it is set.
    Secret,
}

/// The keys the interface may set, with their types. A fixed list rather
/// than "write what you like": the same table is read by ingest and
/// enrichment, and a typo in a key would be a silent fault there. The
/// MaxMind credentials are among them, so that GeoIP can be switched on
/// after the install.
pub open spec fn kind_of_key(key: Seq<char>) -> Option<Kind> {
    if key == "wan_ips"@ || key == "gateway_ips"@ || key == "geoip_dir"@ || key == "pihole_url"@
        || key == "unifi_url"@ || key == "unifi_site"@ || key == "maxmind_account_id"@ {
        Some(Kind::Text)
    } else if key == "rdns_enabled"@ || key == "pihole_enabled"@ || key == "unifi_enabled"@ {
        Some(Kind::Bool)
    } else if key == "abuseipdb_api_key"@ || key == "pihole_password"@ || key == "unifi_api_key"@
        || key == "maxmind_license_key"@ {
        Some(Kind::Secret)
    } else if key == "retention_days"@ || key == "retention_days_dns"@ {
        Some(Kind::Number)
    } else {
        None
    }
}

/// The type of a key the interface may set.
pub fn kind_of(key: &str) -> (r: Option<Kind>)
    ensures
        r == kind_of_key(key@),
{
    let k = chars_of(key);
    let s = k.as_slice();
    if same_str(s, "wan_ips") || same_str(s, "gateway_ips") || same_str(s, "geoip_dir") || same_str(
        s,
        "pihole_url",
    ) || same_str(s, "unifi_url") || same_str(s, "unifi_site") || same_str(s, "maxmind_account_id") {
        Some(Kind::Text)
    } else if same_str(s, "rdns_enabled") || same_str(s, "pihole_enabled") || same_str(
        s,
        "unifi_enabled",
    ) {
        Some(Kind::Bool)
    } else if same_str(s, "abuseipdb_api_key") || same_str(s, "pihole_password") || same_str(
        s,
        "unifi_api_key",
    ) || same_str(s, "maxmind_license_key") {
        Some(Kind::Secret)
    } else if same_str(s, "retention_days") || same_str(s, "retention_days_dns") {
        Some(Kind::Number)
    } else {
        None
    }
}

// ---------------------------------------------------------------------------
// Time buckets of the dashboard
// ---------------------------------------------------------------------------

/// The span of a range such as `7d`, in seconds.
pub open spec fn range_seconds(range: Seq<char>) -> Option<i64> {
    if range.len() == 0 {
        None
    } else {
        match parse_int(range.drop_last(), true, i64::MIN as int, i64::MAX as int) {
            None => None,
            Some(n) => {
                let u = crate::filters::unit_seconds(range.last());
                let secs = n * u;
                if u == 0 || secs < -crate::filters::LONGEST_SPAN || secs
                    > crate::filters::LONGEST_SPAN {
                    None
                } else {
                    Some(secs as i64)
                }
            },
        }
    }
}

/// The span of a range such as `7d`, in seconds; `None` for anything else
/// or a span no duration can hold.
pub fn range_duration(range: &str) -> (r: Option<i64>)
    ensures
        r == range_seconds(range@),
{
    let cs = chars_of(range);
    if cs.len() == 0 {
        return None;
    }
    let last = cs[cs.len() - 1];
    let value = slice(cs.as_slice(), 0, cs.len() - 1);
    assert(value@ =~= cs@.drop_last());
    let n = match parse_i64(value.as_slice()) {
        Some(n) => n,
        None => return None,
    };
    let unit: i64 = if last == 'h' {
        3600
    } else if last == 'd' {
        86400
    } else if last == 'm' {
        60
    } else {
        return None;
    };
    let secs = match n.checked_mul(unit) {
        Some(s) => s,
        None => return None,
    };
    if secs < -crate::filters::LONGEST_SPAN || secs > crate::filters::LONGEST_SPAN {
        return None;
    }
    Some(secs)
}

/// The length of the window, in seconds, that sets the bucket width: no
/// `to` means up to `now`, no `from` and no `range` the default day; never
/// negative. Instants in seconds.
pub open spec fn window_of(from: Option<i64>, to: Option<i64>, range: Option<Seq<char>>, now: i64) -> int {
    let end = match to {
        Some(t) => t as int,
        None => now as int,
    };
    let start = match from {
        Some(f) => f as int,
        None => match range {
            Some(r) => match range_seconds(r) {
                Some(d) => end - d,
                None => end - 86400,
            },
            None => end - 86400,
        },
    };
    if end - start > 0 {
        end - start
    } else {
        0
    }
}

/// The length of the window, in seconds.
pub fn window_duration(from: Option<i64>, to: Option<i64>, range: Option<&str>, now: i64) -> (r: i128)
    ensures
        r == window_of(
            from,
            to,
            match range {
                Some(s) => Some(s@),
                None => None,
            },
            now,
        ),
{
    let end: i128 = match to {
        Some(t) => t as i128,
        None => now as i128,
    };
    let start: i128 = match from {
        Some(f) => f as i128,
        None => match range {
            Some(r) => match range_duration(r) {
                Some(d) => end - d as i128,
                None => end - 86400,
            },
            None => end - 86400,
        },
    };
    if end - start > 0 {
        end - start
    } else {
        0
    }
}

/// Which bucket width a window gets: 0 for up to an hour, 1 up to six
/// hours, 2 up to a day, 3 up to a week, 4 beyond.
pub open spec fn bucket_rank(window: int) -> int {
    if window <= 3600 {
        0
    } else if window <= 6 * 3600 {
        1
    } else if window <= 24 * 3600 {
        2
    } else if window <= 7 * 86400 {
        3
    } else {
        4
    }
}

/// The bucket widths, narrowest first.
pub open spec fn bucket_names() -> Seq<Seq<char>> {
    seq!["1 minute"@, "5 minutes"@, "15 minutes"@, "1 hour"@, "6 hours"@]
}

/// The bucket width by window length, so that a curve has about as many
/// points whatever span is chosen.
pub open spec fn bucket_of(window: int) -> Seq<char> {
    bucket_names()[bucket_rank(window)]
}

/// The bucket width for a window of this many seconds.
pub fn bucket_width(window: i128) -> (r: &'static str)
    ensures
        r@ == bucket_of(window as int),
{
    if window <= 3600 {
        "1 minute"
    } else if window <= 6 * 3600 {
        "5 minutes"
    } else if window <= 24 * 3600 {
        "15 minutes"
    } else if window <= 7 * 86400 {
        "1 hour"
    } else {
        "6 hours"
    }
}

/// Wider windows never get narrower buckets: the width only grows with
/// the window.
pub proof fn lemma_buckets_grow(a: int, b: int)
    requires
        a <= b,
    ensures
        bucket_rank(a) <= bucket_rank(b),
{
}

// ---------------------------------------------------------------------------
// Writing settings and names
// ---------------------------------------------------------------------------

/// The shape of a JSON value sent by the interface.
#[derive(Debug, Clone, Copy, PartialEq, Eq, Structural)]
pub enum JsonShape {
    Null,
    Bool,
    Number,
    Text,
    Other,
}

/// Whether a value of this shape may be written under a key: booleans for
/// switches, numbers for numbers, texts for texts and secrets. An emptied
/// secret means "off", not "unchanged", and is written too.
pub open spec fn writable(key: Seq<char>, shape: JsonShape) -> bool {
    match kind_of_key(key) {
        Some(Kind::Bool) => shape == JsonShape::Bool,
        Some(Kind::Number) => shape == JsonShape::Number,
        Some(Kind::Text) => shape == JsonShape::Text,
        Some(Kind::Secret) => shape == JsonShape::Text,
        None => false,
    }
}

/// Whether a setting is written; the rest is refused, naming the key, so
/// that a typo shows.
pub fn accepts_setting(key: &str, shape: JsonShape) -> (r: bool)
    ensures
        r == writable(key@, shape),
{
    match kind_of(key) {
        Some(Kind::Bool) => shape == JsonShape::Bool,
        Some(Kind::Number) => shape == JsonShape::Number,
        Some(Kind::Text) => shape == JsonShape::Text,
        Some(Kind::Secret) => shape == JsonShape::Text,
        None => false,
    }
}

/// How a stored setting is shown.
#[derive(Debug, Clone, PartialEq)]
pub enum Shown {
    /// Not a key of the interface (such as the quota the worker keeps).
    Hidden,
    /// As it is stored.
    AsStored,
    /// A secret: only whether it is set, under `<key>_set`.
    SetFlag { key: String, set: bool },
}

/// How a stored setting is shown; `text` is its value where it is a text.
/// A secret is never given back in clear text.
pub fn shown_setting(key: &str, text: Option<&str>) -> (r: Shown)
    ensures
        match kind_of_key(key@) {
            None => r == Shown::Hidden,
            Some(Kind::Secret) => r matches Shown::SetFlag { key: k, set } && k@ == key@ + "_set"@ && set
                == (text matches Some(s) && s@.len() > 0),
            Some(_) => r == Shown::AsStored,
        },
{
    match kind_of(key) {
        None => Shown::Hidden,
        Some(Kind::Secret) => {
            let mut k = chars_of(key);
            crate::text::append_chars(&mut k, chars_of("_set").as_slice());
            let set = match text {
                Some(s) => chars_of(s).len() > 0,
                None => false,
            };
            Shown::SetFlag { key: string_from(k.as_slice()), set }
        },
        Some(_) => Shown::AsStored,
    }
}

/// The longest own name of an interface, in characters.
pub const MAX_NAME: usize = 64;

/// A name sent for an interface.
#[derive(Debug, Clone, PartialEq)]
pub enum NameValue {
    Null,
    Text(String),
    /// Anything else: a mistake of the caller, not an empty name.
    Other,
}

/// What becomes of an interface's own name.
#[derive(Debug, Clone, PartialEq)]
pub enum NameChange {
    Named(String),
    /// Back to what the controller says.
    Clear,
    Refused,
}

/// What becomes of an interface's own name: `null` and the empty name
/// both clear it — clearing is to be as easy as setting; a name is trimmed;
/// a blank interface, a name over `MAX_NAME` characters or a value that is
/// no text are refused.
pub open spec fn name_change_of(iface: Seq<char>, value: NameValue) -> NameChange {
    match value {
        NameValue::Other => NameChange::Refused,
        NameValue::Null => if trim(iface).len() == 0 {
            NameChange::Refused
        } else {
            NameChange::Clear
        },
        NameValue::Text(s) => if trim(iface).len() == 0 || trim(s@).len() > MAX_NAME {
            NameChange::Refused
        } else if trim(s@).len() == 0 {
            NameChange::Clear
        } else {
            NameChange::Named(s)
        },
    }
}

/// What becomes of an interface's own name.
pub fn name_change(iface: &str, value: NameValue) -> (r: NameChange)
    ensures
        match name_change_of(iface@, value) {
            NameChange::Named(_) => r matches NameChange::Named(n) && value matches NameValue::Text(s)
                && n@ == trim(s@),
            other => r == other,
        },
{
    let blank_iface = crate::text::trim_exec(chars_of(iface).as_slice()).len() == 0;
    match value {
        NameValue::Other => NameChange::Refused,
        NameValue::Null => if blank_iface {
            NameChange::Refused
        } else {
            NameChange::Clear
        },
        NameValue::Text(s) => {
            let t = crate::text::trim_exec(chars_of(s.as_str()).as_slice());
            if blank_iface || t.len() > MAX_NAME {
                NameChange::Refused
            } else if t.len() == 0 {
                NameChange::Clear
            } else {
                NameChange::Named(string_from(t.as_slice()))
            }
        },
    }
}

} // verus!
