//! Start-up configuration and run-time settings, and how each value is
//! chosen among the environment, the stored setting and the default.
use vstd::prelude::*;
use crate::net::{parse_ip_chars, parsed_ip, IpAddress};
use crate::sql::strs;
use crate::text::{
    ascii_lower, chars_of, lemma_rfind_char_bounds, lower_ascii, parse_i32, parse_int, rfind_char,
    rfind_char_before_exec, same, same_str, slice, split_on, split_parts, trim, trim_exec,
};
use crate::filters::{comma_items, comma_list};
use crate::types::ov;

verus! {

// ---------------------------------------------------------------------------
// Sets kept as lists
// ---------------------------------------------------------------------------

/// Each name once, in the order it first occurs.
pub open spec fn unique_names(s: Seq<Seq<char>>) -> Seq<Seq<char>>
    decreases s.len(),
{
    if s.len() == 0 {
        Seq::empty()
    } else {
        let d = unique_names(s.drop_last());
        if d.contains(s.last()) {
            d
        } else {
            d.push(s.last())
        }
    }
}

/// Each address once, in the order it first occurs.
pub open spec fn unique_ips(s: Seq<IpAddress>) -> Seq<IpAddress>
    decreases s.len(),
{
    if s.len() == 0 {
        Seq::empty()
    } else {
        let d = unique_ips(s.drop_last());
        if d.contains(s.last()) {
            d
        } else {
            d.push(s.last())
        }
    }
}

fn has_name(v: &Vec<String>, n: &String) -> (r: bool)
    ensures
        r == strs(v@).contains(n@),
{
    let nc = chars_of(n.as_str());
    let mut i: usize = 0;
    while i < v.len()
        invariant
            0 <= i <= v@.len(),
            nc@ == n@,
            forall|k: int| 0 <= k < i ==> strs(v@)[k] != n@,
        decreases v.len() - i,
    {
        let c = chars_of(v[i].as_str());
        if same(c.as_slice(), nc.as_slice()) {
            assert(strs(v@)[i as int] == n@);
            return true;
        }
        i = i + 1;
    }
    false
}

/// Each name once, in the order it first occurs.
pub fn dedup_names(v: Vec<String>) -> (r: Vec<String>)
    ensures
        strs(r@) == unique_names(strs(v@)),
{
    let mut out: Vec<String> = Vec::new();
    let mut i: usize = 0;
    while i < v.len()
        invariant
            0 <= i <= v@.len(),
            strs(out@) == unique_names(strs(v@).take(i as int)),
        decreases v.len() - i,
    {
        assert(strs(v@).take(i + 1).drop_last() =~= strs(v@).take(i as int));
        assert(strs(v@).take(i + 1).last() == v@[i as int]@);
        if !has_name(&out, &v[i]) {
            let ghost before = out@;
            out.push(v[i].clone());
            assert(strs(out@) =~= strs(before).push(v@[i as int]@));
        }
        i = i + 1;
    }
    assert(strs(v@).take(v@.len() as int) =~= strs(v@));
    out
}

fn has_ip(v: &Vec<IpAddress>, a: IpAddress) -> (r: bool)
    ensures
        r == v@.contains(a),
{
    let mut i: usize = 0;
    while i < v.len()
        invariant
            0 <= i <= v@.len(),
            forall|k: int| 0 <= k < i ==> v@[k] != a,
        decreases v.len() - i,
    {
        if v[i] == a {
            assert(v@[i as int] == a);
            return true;
        }
        i = i + 1;
    }
    false
}

/// The addresses among comma-separated parts, trimmed; parts that are no
/// address are skipped.
pub open spec fn ips_in(parts: Seq<Seq<char>>) -> Seq<IpAddress>
    decreases parts.len(),
{
    if parts.len() == 0 {
        Seq::empty()
    } else {
        let rest = ips_in(parts.drop_last());
        match parsed_ip(trim(parts.last())) {
            Some(a) => rest.push(a),
            None => rest,
        }
    }
}

/// The set of addresses in a comma-separated text.
pub open spec fn ip_set_of(s: Seq<char>) -> Seq<IpAddress> {
    unique_ips(ips_in(split_parts(s, ',')))
}

/// The set of addresses in a comma-separated text; what is no address is
/// skipped.
pub fn parse_ips(s: &str) -> (r: Vec<IpAddress>)
    ensures
        r@ == ip_set_of(s@),
{
    let cs = chars_of(s);
    let parts = split_on(cs.as_slice(), ',');
    let ghost pv = split_parts(cs@, ',');
    let mut out: Vec<IpAddress> = Vec::new();
    let mut i: usize = 0;
    while i < parts.len()
        invariant
            0 <= i <= parts@.len(),
            parts@.len() == pv.len(),
            forall|k: int| 0 <= k < parts@.len() ==> #[trigger] parts@[k]@ == pv[k],
            out@ == unique_ips(ips_in(pv.take(i as int))),
        decreases parts.len() - i,
    {
        assert(pv.take(i + 1).drop_last() =~= pv.take(i as int));
        assert(parts@[i as int]@ == pv[i as int]);
        let t = trim_exec(parts[i].as_slice());
        let ghost prev = ips_in(pv.take(i as int));
        match parse_ip_chars(t.as_slice()) {
            Some(a) => {
                assert(ips_in(pv.take(i + 1)) == prev.push(a));
                assert(prev.push(a).drop_last() =~= prev);
                if !has_ip(&out, a) {
                    out.push(a);
                }
            },
            None => {
                assert(ips_in(pv.take(i + 1)) == prev);
            },
        }
        i = i + 1;
    }
    assert(pv.take(pv.len() as int) =~= pv);
    out
}

/// The union of two sets of addresses, the first one's order first.
pub open spec fn ip_union(a: Seq<IpAddress>, b: Seq<IpAddress>) -> Seq<IpAddress> {
    unique_ips(a + b)
}

fn union_ips(a: &Vec<IpAddress>, b: &Vec<IpAddress>) -> (r: Vec<IpAddress>)
    ensures
        r@ == ip_union(a@, b@),
{
    let mut out: Vec<IpAddress> = Vec::new();
    let ghost all = a@ + b@;
    let mut i: usize = 0;
    while i < a.len()
        invariant
            all == a@ + b@,
            0 <= i <= a@.len(),
            out@ == unique_ips(all.take(i as int)),
        decreases a.len() - i,
    {
        assert(all.take(i + 1).drop_last() =~= all.take(i as int));
        assert(a[i as int] == all[i as int]);
        if !has_ip(&out, a[i]) {
            out.push(a[i]);
        }
        i = i + 1;
    }
    let mut j: usize = 0;
    while j < b.len()
        invariant
            all == a@ + b@,
            0 <= j <= b@.len(),
            out@ == unique_ips(all.take(a@.len() + j as int)),
        decreases b.len() - j,
    {
        assert(all.take(a@.len() + j + 1).drop_last() =~= all.take(a@.len() + j));
        assert(b[j as int] == all[a@.len() + j]);
        if !has_ip(&out, b[j]) {
            out.push(b[j]);
        }
        j = j + 1;
    }
    assert(all.take((a@.len() + b@.len()) as int) =~= all);
    out
}

// ---------------------------------------------------------------------------
// Start-up configuration
// ---------------------------------------------------------------------------

/// Where to find the database, where to listen, and which interfaces face
/// the internet.
#[derive(Debug, Clone)]
pub struct Config {
    pub database_url: String,
    pub http_addr: String,
    pub syslog_addr: String,
    /// Each name once.
    pub wan_interfaces: Vec<String>,
}

pub struct ConfigView {
    pub database_url: Seq<char>,
    pub http_addr: Seq<char>,
    pub syslog_addr: Seq<char>,
    pub wan_interfaces: Seq<Seq<char>>,
}

impl View for Config {
    type V = ConfigView;

    open spec fn view(&self) -> ConfigView {
        ConfigView {
            database_url: self.database_url@,
            http_addr: self.http_addr@,
            syslog_addr: self.syslog_addr@,
            wan_interfaces: strs(self.wan_interfaces@),
        }
    }
}

pub open spec fn or_text(v: Option<Seq<char>>, default: Seq<char>) -> Seq<char> {
    match v {
        Some(s) => s,
        None => default,
    }
}

/// The configuration from the values of `UIP_WAN_IFACES`, `UIP_DB_URL`,
/// `DATABASE_URL`, `UIP_HTTP_ADDR` and `UIP_SYSLOG_ADDR`: each falls back
/// on its default, the database address on `DATABASE_URL` first; the WAN
/// interfaces are a comma-separated list.
pub open spec fn config_of(
    wan: Option<Seq<char>>,
    db_url: Option<Seq<char>>,
    database_url: Option<Seq<char>>,
    http: Option<Seq<char>>,
    syslog: Option<Seq<char>>,
) -> ConfigView {
    ConfigView {
        database_url: match db_url {
            Some(u) => u,
            None => or_text(database_url, "postgres://localhost/uip_dev"@),
        },
        http_addr: or_text(http, "0.0.0.0:8080"@),
        syslog_addr: or_text(syslog, "0.0.0.0:514"@),
        wan_interfaces: unique_names(comma_items(or_text(wan, "ppp0"@))),
    }
}

fn text_or(v: Option<String>, default: &str) -> (r: String)
    ensures
        r@ == or_text(ov(v), default@),
{
    match v {
        Some(s) => s,
        None => default.to_string(),
    }
}

impl Config {
    /// The configuration from the values of the variables.
    pub fn from_values(
        wan: Option<String>,
        db_url: Option<String>,
        database_url: Option<String>,
        http: Option<String>,
        syslog: Option<String>,
    ) -> (r: Config)
        ensures
            r@ == config_of(ov(wan), ov(db_url), ov(database_url), ov(http), ov(syslog)),
    {
        let wan_text = text_or(wan, "ppp0");
        let names = comma_list(Some(wan_text.as_str()));
        let database_url = match db_url {
            Some(u) => u,
            None => text_or(database_url, "postgres://localhost/uip_dev"),
        };
        Config {
            database_url,
            http_addr: text_or(http, "0.0.0.0:8080"),
            syslog_addr: text_or(syslog, "0.0.0.0:514"),
            wan_interfaces: dedup_names(names),
        }
    }

    /// The configuration from a source of variables, so that tests need not
    /// touch the process environment. `DATABASE_URL` is asked only where
    /// `UIP_DB_URL` is missing.
    pub fn from_vars<F: Fn(&str) -> Option<String>>(get: F) -> (r: Config)
        requires
            forall|k: &str| get.requires((k,)),
        ensures
            exists|w: Option<String>, u: Option<String>, d: Option<String>, h: Option<String>,
                s: Option<String>|
                #![trigger config_of(ov(w), ov(u), ov(d), ov(h), ov(s))]
                get.ensures(("UIP_WAN_IFACES",), w) && get.ensures(("UIP_DB_URL",), u) && (u is None
                    ==> get.ensures(("DATABASE_URL",), d)) && get.ensures(("UIP_HTTP_ADDR",), h)
                    && get.ensures(("UIP_SYSLOG_ADDR",), s) && r@ == config_of(
                    ov(w),
                    ov(u),
                    ov(d),
                    ov(h),
                    ov(s),
                ),
    {
        let w = get("UIP_WAN_IFACES");
        let u = get("UIP_DB_URL");
        let d = if u.is_none() {
            get("DATABASE_URL")
        } else {
            None
        };
        let h = get("UIP_HTTP_ADDR");
        let s = get("UIP_SYSLOG_ADDR");
        let ghost (gw, gu, gd, gh, gs) = (w, u, d, h, s);
        let r = Config::from_values(w, u, d, h, s);
        assert(r@ == config_of(ov(gw), ov(gu), ov(gd), ov(gh), ov(gs)));
        r
    }
}

/// The port of a listen address: what follows its last colon (the whole
/// text where there is none), read as a number; 514 where that fails. The
/// receiver takes its own port from the address it listens on, so that the
/// two cannot drift apart.
pub open spec fn port_of(addr: Seq<char>) -> int {
    let tail = match rfind_char(addr, ':') {
        Some(i) => addr.subrange(i + 1, addr.len() as int),
        None => addr,
    };
    match parse_int(tail, true, i32::MIN as int, i32::MAX as int) {
        Some(n) => n,
        None => 514,
    }
}

impl Config {
    /// The port the syslog receiver listens on.
    pub fn syslog_port(&self) -> (r: i32)
        ensures
            r as int == port_of(self.syslog_addr@),
    {
        let cs = chars_of(self.syslog_addr.as_str());
        let n = cs.len();
        let found = rfind_char_before_exec(cs.as_slice(), ':', n);
        proof {
            lemma_rfind_char_bounds(cs@, ':', n as int);
        }
        let tail = match found {
            Some(i) => slice(cs.as_slice(), i + 1, n),
            None => cs,
        };
        match parse_i32(tail.as_slice()) {
            Some(p) => p,
            None => 514,
        }
    }
}

// ---------------------------------------------------------------------------
// Run-time settings
// ---------------------------------------------------------------------------

/// A text setting: a non-empty value from the environment wins (and is
/// written back, so that the next start does without it); else a non-empty
/// stored value; else the default.
pub open spec fn chosen_text(
    from_env: Option<Seq<char>>,
    stored: Option<Seq<char>>,
    default: Seq<char>,
) -> (Seq<char>, bool) {
    match from_env {
        Some(v) if v.len() > 0 => (v, true),
        _ => match stored {
            Some(s) if s.len() > 0 => (s, false),
            _ => (default, false),
        },
    }
}

/// Chooses a text setting; the flag says whether it is written back.
pub fn choose_text(from_env: Option<String>, stored: Option<String>, default: &str) -> (r: (
    String,
    bool,
))
    ensures
        (r.0@, r.1) == chosen_text(ov(from_env), ov(stored), default@),
{
    match from_env {
        Some(v) if chars_of(v.as_str()).len() > 0 => (v, true),
        _ => match stored {
            Some(s) if chars_of(s.as_str()).len() > 0 => (s, false),
            _ => (default.to_string(), false),
        },
    }
}

/// Whether reverse DNS is on: a value from the environment decides (and is
/// written back) — off for `false`, `0` or `no` in any case, on for
/// anything else; else the stored flag; else on.
pub open spec fn rdns_choice(from_env: Option<Seq<char>>, stored: Option<bool>) -> (bool, bool) {
    match from_env {
        Some(raw) => {
            let t = ascii_lower(trim(raw));
            (!(t == "false"@ || t == "0"@ || t == "no"@), true)
        },
        None => match stored {
            Some(b) => (b, false),
            None => (true, false),
        },
    }
}

/// Whether reverse DNS is on; the flag says whether it is written back.
pub fn choose_rdns(from_env: Option<&str>, stored: Option<bool>) -> (r: (bool, bool))
    ensures
        r == rdns_choice(
            match from_env {
                Some(s) => Some(s@),
                None => None,
            },
            stored,
        ),
{
    match from_env {
        Some(raw) => {
            let cs = chars_of(raw);
            let t = trim_exec(cs.as_slice());
            let l = lower_ascii(t.as_slice());
            let off = same_str(l.as_slice(), "false") || same_str(l.as_slice(), "0") || same_str(
                l.as_slice(),
                "no",
            );
            (!off, true)
        },
        None => match stored {
            Some(b) => (b, false),
            None => (true, false),
        },
    }
}

/// Run-time settings. The database holds them; the environment overrides.
#[derive(Debug, Clone)]
pub struct Settings {
    pub wan_ips: Vec<IpAddress>,
    pub gateway_ips: Vec<IpAddress>,
    pub rdns_enabled: bool,
    pub abuseipdb_key: Option<String>,
    pub geoip_dir: String,
}

impl Settings {
    /// Everything that needs no enrichment because it is our own.
    pub fn exclusions(&self) -> (r: Vec<IpAddress>)
        ensures
            r@ == ip_union(self.wan_ips@, self.gateway_ips@),
    {
        union_ips(&self.wan_ips, &self.gateway_ips)
    }
}

/// The effective WAN addresses: the ones typed in win where there are any;
/// else those the controller reported. A union would be wrong: an old,
/// hand-made entry would then stay valid for ever.
pub open spec fn effective_wan_ips_of(manual: Seq<char>, detected: Seq<char>) -> Seq<IpAddress> {
    if ip_set_of(manual).len() > 0 {
        ip_set_of(manual)
    } else {
        ip_set_of(detected)
    }
}

/// The effective WAN addresses.
pub fn effective_wan_ips(manual: &str, detected: &str) -> (r: Vec<IpAddress>)
    ensures
        r@ == effective_wan_ips_of(manual@, detected@),
{
    let m = parse_ips(manual);
    if m.len() > 0 {
        m
    } else {
        parse_ips(detected)
    }
}

/// The effective WAN interfaces: a setting made on purpose wins, then the
/// detected ones, then the start-up value — which stands in every fresh
/// environment file without anybody having chosen it.
pub open spec fn effective_wan_interfaces_of(
    manual: Seq<char>,
    detected: Seq<char>,
    fallback: Seq<Seq<char>>,
) -> Seq<Seq<char>> {
    if unique_names(comma_items(manual)).len() > 0 {
        unique_names(comma_items(manual))
    } else if unique_names(comma_items(detected)).len() > 0 {
        unique_names(comma_items(detected))
    } else {
        fallback
    }
}

/// The effective WAN interfaces.
pub fn effective_wan_interfaces(manual: &str, detected: &str, fallback: &Vec<String>) -> (r: Vec<
    String,
>)
    ensures
        strs(r@) == effective_wan_interfaces_of(manual@, detected@, strs(fallback@)),
{
    let m = dedup_names(comma_list(Some(manual)));
    if m.len() > 0 {
        return m;
    }
    let d = dedup_names(comma_list(Some(detected)));
    if d.len() > 0 {
        return d;
    }
    let mut out: Vec<String> = Vec::new();
    let mut i: usize = 0;
    while i < fallback.len()
        invariant
            0 <= i <= fallback@.len(),
            strs(out@) == strs(fallback@).take(i as int),
        decreases fallback.len() - i,
    {
        let ghost before = out@;
        out.push(fallback[i].clone());
        assert(strs(out@) =~= strs(before).push(fallback@[i as int]@));
        i = i + 1;
        assert(strs(out@) =~= strs(fallback@).take(i as int));
    }
    assert(strs(fallback@).take(fallback@.len() as int) =~= strs(fallback@));
    out
}

} // verus!
