//! Firewall lines: `[RULE]IN=.. OUT=.. SRC=.. DST=.. PROTO=.. DESCR="…"`.
use vstd::prelude::*;
use crate::net::{
    broadcast_or_multicast, ip_in, is_broadcast_or_multicast, parse_ip_chars, parsed_ip, IpAddress,
};
use crate::text::{
    ascii_lower, chars_of, contains, contains_str, find_char, find_char_exec, find_char_from, find_from, matches_at,
    find_char_from_exec, lemma_find_char_from_bounds, lemma_nth_char_from, lemma_nth_pos_ordered,
    lemma_rfind_char_bounds, nth_char_from, nth_char_from_exec, lower_ascii, parse_i32, parse_int,
    rfind_char_before, rfind_char_before_exec, same, same_str, skip_white_exec, slice, starts_with,
    starts_with_str, string_from, text, trim_start,
};
use crate::types::{blank_view, ov, Direction, LogType, LogView, ParsedLog, RuleAction};

verus! {

/// Interface name prefixes of VPN tunnels.
pub open spec fn vpn_prefix(k: int) -> Seq<char> {
    if k == 0 {
        "wgsrv"@
    } else if k == 1 {
        "wgclt"@
    } else if k == 2 {
        "wgsts"@
    } else if k == 3 {
        "tlprt"@
    } else if k == 4 {
        "vti"@
    } else if k == 5 {
        "tunovpnc"@
    } else if k == 6 {
        "tun"@
    } else if k == 7 {
        "vtun"@
    } else {
        "l2tp"@
    }
}

/// What the parser must know about the own network: which interfaces face
/// the internet, and which addresses the gateway has there.
#[derive(Debug, Clone)]
pub struct FirewallCtx {
    pub wan_interfaces: Vec<String>,
    pub wan_ips: Vec<IpAddress>,
}

pub open spec fn names_view(v: Seq<String>) -> Seq<Seq<char>> {
    v.map_values(|s: String| s@)
}

/// Whether `name` is one of `names`.
pub fn name_in(names: &[String], name: &[char]) -> (r: bool)
    ensures
        r == names_view(names@).contains(name@),
{
    let mut i: usize = 0;
    while i < names.len()
        invariant
            0 <= i <= names@.len(),
            forall|k: int| 0 <= k < i ==> names@[k]@ != name@,
        decreases names.len() - i,
    {
        let n = chars_of(names[i].as_str());
        if same(n.as_slice(), name) {
            assert(names_view(names@)[i as int] == name@);
            return true;
        }
        i = i + 1;
    }
    assert forall|k: int| 0 <= k < names_view(names@).len() implies names_view(names@)[k]
        != name@ by {
        assert(names_view(names@)[k] == names@[k]@);
    }
    false
}

/// Whether the two lists hold the same names, as sets.
fn same_names(a: &[String], b: &[String]) -> (r: bool)
    ensures
        r == (names_view(a@).to_set() == names_view(b@).to_set()),
{
    let mut i: usize = 0;
    while i < a.len()
        invariant
            0 <= i <= a@.len(),
            forall|k: int| 0 <= k < i ==> names_view(b@).contains(#[trigger] names_view(a@)[k]),
        decreases a.len() - i,
    {
        let n = chars_of(a[i].as_str());
        if !name_in(b, n.as_slice()) {
            assert(names_view(a@).to_set().contains(names_view(a@)[i as int]));
            return false;
        }
        i = i + 1;
    }
    let mut j: usize = 0;
    while j < b.len()
        invariant
            0 <= j <= b@.len(),
            forall|k: int| 0 <= k < a@.len() ==> names_view(b@).contains(#[trigger] names_view(a@)[k]),
            forall|k: int| 0 <= k < j ==> names_view(a@).contains(#[trigger] names_view(b@)[k]),
        decreases b.len() - j,
    {
        let n = chars_of(b[j].as_str());
        if !name_in(a, n.as_slice()) {
            assert(names_view(b@).to_set().contains(names_view(b@)[j as int]));
            return false;
        }
        j = j + 1;
    }
    assert(names_view(a@).to_set() =~= names_view(b@).to_set()) by {
        assert forall|x: Seq<char>| names_view(a@).to_set().contains(x) implies names_view(
            b@,
        ).to_set().contains(x) by {
            let k = choose|k: int| 0 <= k < names_view(a@).len() && names_view(a@)[k] == x;
            assert(names_view(b@).contains(names_view(a@)[k]));
        }
        assert forall|x: Seq<char>| names_view(b@).to_set().contains(x) implies names_view(
            a@,
        ).to_set().contains(x) by {
            let k = choose|k: int| 0 <= k < names_view(b@).len() && names_view(b@)[k] == x;
            assert(names_view(a@).contains(names_view(b@)[k]));
        }
    }
    true
}

/// Whether the two lists hold the same addresses, as sets.
fn same_ips(a: &[IpAddress], b: &[IpAddress]) -> (r: bool)
    ensures
        r == (a@.to_set() == b@.to_set()),
{
    let mut i: usize = 0;
    while i < a.len()
        invariant
            0 <= i <= a@.len(),
            forall|k: int| 0 <= k < i ==> b@.contains(#[trigger] a@[k]),
        decreases a.len() - i,
    {
        if !ip_in(b, a[i]) {
            assert(a@.to_set().contains(a@[i as int]));
            return false;
        }
        i = i + 1;
    }
    let mut j: usize = 0;
    while j < b.len()
        invariant
            0 <= j <= b@.len(),
            forall|k: int| 0 <= k < a@.len() ==> b@.contains(#[trigger] a@[k]),
            forall|k: int| 0 <= k < j ==> a@.contains(#[trigger] b@[k]),
        decreases b.len() - j,
    {
        if !ip_in(a, b[j]) {
            assert(b@.to_set().contains(b@[j as int]));
            return false;
        }
        j = j + 1;
    }
    assert(a@.to_set() =~= b@.to_set()) by {
        assert forall|x: IpAddress| a@.to_set().contains(x) implies b@.to_set().contains(x) by {
            let k = choose|k: int| 0 <= k < a@.len() && a@[k] == x;
            assert(b@.contains(a@[k]));
        }
        assert forall|x: IpAddress| b@.to_set().contains(x) implies a@.to_set().contains(x) by {
            let k = choose|k: int| 0 <= k < b@.len() && b@[k] == x;
            assert(a@.contains(b@[k]));
        }
    }
    true
}

impl FirewallCtx {
    /// No WAN interfaces and no WAN addresses known.
    pub fn new() -> (r: FirewallCtx)
        ensures
            r.wan_interfaces@.len() == 0,
            r.wan_ips@.len() == 0,
    {
        FirewallCtx { wan_interfaces: Vec::new(), wan_ips: Vec::new() }
    }

    /// Takes a new set of WAN addresses.
    pub fn set_wan_ips(&mut self, ips: Vec<IpAddress>)
        ensures
            final(self).wan_ips@.to_set() == ips@.to_set(),
            final(self).wan_interfaces == old(self).wan_interfaces,
    {
        if !same_ips(self.wan_ips.as_slice(), ips.as_slice()) {
            self.wan_ips = ips;
        }
    }

    /// Takes a new set of WAN interfaces; `true` when it differs from the
    /// old one, since directions derived so far are then wrong.
    pub fn set_wan_interfaces(&mut self, names: Vec<String>) -> (changed: bool)
        ensures
            changed == (names_view(old(self).wan_interfaces@).to_set() != names_view(
                names@,
            ).to_set()),
            names_view(final(self).wan_interfaces@).to_set() == names_view(names@).to_set(),
            final(self).wan_ips == old(self).wan_ips,
    {
        if same_names(self.wan_interfaces.as_slice(), names.as_slice()) {
            return false;
        }
        self.wan_interfaces = names;
        true
    }
}

/// The name starts with one of the VPN prefixes.
pub open spec fn vpn_iface(name: Seq<char>) -> bool {
    exists|k: int| 0 <= k < 9 && starts_with(name, #[trigger] vpn_prefix(k))
}

fn vpn_prefix_exec(k: usize) -> (r: &'static str)
    requires
        k < 9,
    ensures
        r@ == vpn_prefix(k as int),
{
    if k == 0 {
        "wgsrv"
    } else if k == 1 {
        "wgclt"
    } else if k == 2 {
        "wgsts"
    } else if k == 3 {
        "tlprt"
    } else if k == 4 {
        "vti"
    } else if k == 5 {
        "tunovpnc"
    } else if k == 6 {
        "tun"
    } else if k == 7 {
        "vtun"
    } else {
        "l2tp"
    }
}

/// Whether the interface is a VPN tunnel.
pub fn is_vpn_iface(name: &[char]) -> (r: bool)
    ensures
        r == vpn_iface(name@),
{
    let mut k: usize = 0;
    while k < 9
        invariant
            0 <= k <= 9,
            forall|j: int| 0 <= j < k ==> !starts_with(name@, #[trigger] vpn_prefix(j)),
        decreases 9 - k,
    {
        if starts_with_str(name, vpn_prefix_exec(k)) {
            return true;
        }
        k = k + 1;
    }
    false
}

// ---------------------------------------------------------------------------
// The source MAC
// ---------------------------------------------------------------------------

/// The source MAC from the 14-byte iptables MAC field
/// (`dest:src:ethertype`): with at least eleven colons, the six groups after
/// the sixth colon; otherwise the field as it is.
pub open spec fn src_mac(raw: Seq<char>) -> Seq<char> {
    match nth_char_from(raw, ':', 0, 11) {
        Some(_) => {
            let from = nth_char_from(raw, ':', 0, 6).unwrap() + 1;
            let to = match nth_char_from(raw, ':', 0, 12) {
                Some(p) => p,
                None => raw.len() as int,
            };
            raw.subrange(from, to)
        },
        None => raw,
    }
}

/// The source MAC of the iptables MAC field.
pub fn extract_src_mac(raw: &[char]) -> (r: String)
    ensures
        r@ == src_mac(raw@),
{
    proof {
        lemma_nth_char_from(raw@, ':', 0, 6);
        lemma_nth_char_from(raw@, ':', 0, 11);
        lemma_nth_char_from(raw@, ':', 0, 12);
    }
    match nth_char_from_exec(raw, ':', 0, 11) {
        Some(_) => {
            proof {
                lemma_nth_pos_ordered(raw@, ':', 6, 11);
                assert(raw@.len() == raw.len());
            }
            let from = nth_char_from_exec(raw, ':', 0, 6).unwrap() + 1;
            let to = match nth_char_from_exec(raw, ':', 0, 12) {
                Some(p) => {
                    proof {
                        lemma_nth_pos_ordered(raw@, ':', 6, 12);
                    }
                    p
                },
                None => raw.len(),
            };
            text(raw, from, to)
        },
        None => text(raw, 0, raw.len()),
    }
}

// ---------------------------------------------------------------------------
// The action
// ---------------------------------------------------------------------------

/// The segment of `name` that ends at `end`: from just after the previous
/// `-` (or the start) up to `end`.
pub open spec fn segment_start(name: Seq<char>, end: int) -> int {
    match rfind_char_before(name, '-', end) {
        Some(i) => i + 1,
        None => 0,
    }
}

/// The action letter of the right-most segment, searching from `end` leftwards,
/// that is exactly `A`, `D` or `R`.
pub open spec fn letter_from(name: Seq<char>, end: int) -> Option<char>
    decreases end,
{
    if end < 0 || end > name.len() {
        None
    } else {
        let start = segment_start(name, end);
        if end - start == 1 && (name[start] == 'A' || name[start] == 'D' || name[start] == 'R') {
            Some(name[start])
        } else if start == 0 || start - 1 >= end {
            None
        } else {
            proof {
                lemma_segment_start(name, end);
            }
            letter_from(name, start - 1)
        }
    }
}

/// The description, lower-cased, after a leading `[ZONE]` tag.
pub open spec fn descr_hint(desc: Seq<char>) -> Seq<char> {
    let d = ascii_lower(desc);
    let after = match find_char(d, ']') {
        Some(i) => d.skip(i + 1),
        None => d,
    };
    trim_start(after)
}

/// The action of a firewall line: the letter in the rule name (`-A-`, `-D-`
/// or `-R-`, searched from the right), else a hint at the start of the
/// description, else allow. No rule name, no action.
pub open spec fn action_of(rule_name: Option<Seq<char>>, rule_desc: Option<Seq<char>>) -> Option<
    RuleAction,
> {
    match rule_name {
        None => None,
        Some(name) => match letter_from(name, name.len() as int) {
            Some(l) => Some(
                if l == 'A' {
                    RuleAction::Allow
                } else if l == 'D' {
                    RuleAction::Block
                } else {
                    RuleAction::Redirect
                },
            ),
            None => match rule_desc {
                Some(desc) => {
                    let h = descr_hint(desc);
                    if starts_with(h, "block"@) || starts_with(h, "deny"@) || starts_with(
                        h,
                        "drop"@,
                    ) {
                        Some(RuleAction::Block)
                    } else {
                        Some(RuleAction::Allow)
                    }
                },
                None => Some(RuleAction::Allow),
            },
        },
    }
}

pub proof fn lemma_segment_start(name: Seq<char>, end: int)
    requires
        0 <= end <= name.len(),
    ensures
        0 <= segment_start(name, end) <= end,
        segment_start(name, end) > 0 ==> name[segment_start(name, end) - 1] == '-',
{
    lemma_rfind_char_bounds(name, '-', end);
}

fn letter_exec(name: &[char]) -> (r: Option<char>)
    ensures
        r == letter_from(name@, name@.len() as int),
{
    let mut end = name.len();
    loop
        invariant
            end <= name@.len(),
            letter_from(name@, name@.len() as int) == letter_from(name@, end as int),
        decreases end,
    {
        proof {
            lemma_segment_start(name@, end as int);
        }
        let start = match rfind_char_before_exec(name, '-', end) {
            Some(i) => i + 1,
            None => 0,
        };
        if end - start == 1 && (name[start] == 'A' || name[start] == 'D' || name[start] == 'R') {
            return Some(name[start]);
        }
        if start == 0 || start - 1 >= end {
            return None;
        }
        end = start - 1;
    }
}

fn descr_hint_exec(desc: &[char]) -> (r: Vec<char>)
    ensures
        r@ == descr_hint(desc@),
{
    let d = lower_ascii(desc);
    let after = match find_char_exec(d.as_slice(), ']') {
        Some(i) => {
            proof {
                lemma_find_char_from_bounds(d@, ']', 0);
                assert(i < d.len());
            }
            slice(d.as_slice(), i + 1, d.len())
        },
        None => slice(d.as_slice(), 0, d.len()),
    };
    assert(d@.subrange(0, d@.len() as int) =~= d@);
    let s = skip_white_exec(after.as_slice(), 0);
    slice(after.as_slice(), s, after.len())
}

/// The action of a firewall line from its rule name and description.
pub fn derive_action(rule_name: Option<&[char]>, rule_desc: Option<&[char]>) -> (r: Option<
    RuleAction,
>)
    ensures
        r == action_of(
            match rule_name {
                Some(n) => Some(n@),
                None => None,
            },
            match rule_desc {
                Some(d) => Some(d@),
                None => None,
            },
        ),
{
    let name = match rule_name {
        Some(n) => n,
        None => return None,
    };
    match letter_exec(name) {
        Some(l) => Some(
            if l == 'A' {
                RuleAction::Allow
            } else if l == 'D' {
                RuleAction::Block
            } else {
                RuleAction::Redirect
            },
        ),
        None => match rule_desc {
            Some(desc) => {
                let h = descr_hint_exec(desc);
                let hs = h.as_slice();
                if starts_with_str(hs, "block") || starts_with_str(hs, "deny") || starts_with_str(
                    hs,
                    "drop",
                ) {
                    Some(RuleAction::Block)
                } else {
                    Some(RuleAction::Allow)
                }
            },
            None => Some(RuleAction::Allow),
        },
    }
}

// ---------------------------------------------------------------------------
// The direction
// ---------------------------------------------------------------------------

/// Which way a firewall line's traffic went, from its interfaces, rule name
/// and addresses.
pub open spec fn direction_of(
    iface_in: Option<Seq<char>>,
    iface_out: Option<Seq<char>>,
    rule_name: Option<Seq<char>>,
    src: Option<IpAddress>,
    dst: Option<IpAddress>,
    wan: Seq<Seq<char>>,
    wan_ips: Seq<IpAddress>,
) -> Option<Direction> {
    let wan_out = match iface_out {
        Some(o) => wan.contains(o),
        None => false,
    };
    let wan_in = match iface_in {
        Some(i) => wan.contains(i),
        None => false,
    };
    if iface_in is None && iface_out is None {
        None
    } else if dst matches Some(d) && broadcast_or_multicast(d) {
        Some(Direction::Local)
    } else if src matches Some(s) && wan_ips.contains(s) && !wan_out {
        Some(Direction::Local)
    } else if rule_name matches Some(r) && (contains(r, "DNAT"@) || contains(r, "PREROUTING"@)) {
        Some(Direction::Nat)
    } else if iface_out is None {
        Some(
            if wan_in {
                Direction::Inbound
            } else {
                Direction::Local
            },
        )
    } else if wan_in && !wan_out {
        Some(Direction::Inbound)
    } else if !wan_in && wan_out {
        Some(Direction::Outbound)
    } else if !wan_in && !wan_out && iface_in != iface_out {
        let vpn = (iface_in matches Some(i) && vpn_iface(i)) || vpn_iface(iface_out.unwrap());
        Some(
            if vpn {
                Direction::Vpn
            } else {
                Direction::InterVlan
            },
        )
    } else {
        Some(Direction::Local)
    }
}

proof fn lemma_find_from_reaches(s: Seq<char>, pat: Seq<char>, i: int, j: int)
    requires
        0 <= i <= j,
        matches_at(s, pat, j),
    ensures
        find_from(s, pat, i) is Some,
    decreases j - i,
{
    if i < j && !(pat.len() == 0 || matches_at(s, pat, i)) {
        lemma_find_from_reaches(s, pat, i + 1, j);
    }
}

/// Text that holds `pat` somewhere contains it.
proof fn lemma_holds_pattern(a: Seq<char>, pat: Seq<char>, b: Seq<char>)
    ensures
        contains(a + pat + b, pat),
{
    let s = a + pat + b;
    assert(s.subrange(a.len() as int, (a.len() + pat.len()) as int) =~= pat);
    lemma_find_from_reaches(s, pat, 0, a.len() as int);
}

/// A destination NAT rule marks the traffic as NAT: for a line with an
/// interface, a destination that is not broadcast or multicast and a source
/// that is not one of the WAN addresses, a rule name that holds `DNAT` or
/// `PREROUTING` anywhere gives `Nat`, whatever the interfaces are.
pub proof fn lemma_dnat_rule_is_nat(
    iface_in: Option<Seq<char>>,
    iface_out: Option<Seq<char>>,
    before: Seq<char>,
    marker: Seq<char>,
    after: Seq<char>,
    src: Option<IpAddress>,
    dst: Option<IpAddress>,
    wan: Seq<Seq<char>>,
    wan_ips: Seq<IpAddress>,
)
    requires
        iface_in is Some || iface_out is Some,
        marker == "DNAT"@ || marker == "PREROUTING"@,
        !(dst matches Some(d) && broadcast_or_multicast(d)),
        !(src matches Some(a) && wan_ips.contains(a)),
    ensures
        direction_of(iface_in, iface_out, Some(before + marker + after), src, dst, wan, wan_ips) == Some(
            Direction::Nat,
        ),
{
    lemma_holds_pattern(before, marker, after);
}

/// Without a NAT rule, the WAN side decides: in from a WAN interface and out
/// to another is inbound, in from a LAN interface and out to a WAN one is
/// outbound (for a destination that is not broadcast or multicast and a
/// source that is not a WAN address).
pub proof fn lemma_wan_side_decides(
    iface_in: Seq<char>,
    iface_out: Seq<char>,
    rule_name: Option<Seq<char>>,
    src: Option<IpAddress>,
    dst: Option<IpAddress>,
    wan: Seq<Seq<char>>,
    wan_ips: Seq<IpAddress>,
)
    requires
        !(rule_name matches Some(r) && (contains(r, "DNAT"@) || contains(r, "PREROUTING"@))),
        !(dst matches Some(d) && broadcast_or_multicast(d)),
        !(src matches Some(a) && wan_ips.contains(a)),
    ensures
        wan.contains(iface_in) && !wan.contains(iface_out) ==> direction_of(
            Some(iface_in),
            Some(iface_out),
            rule_name,
            src,
            dst,
            wan,
            wan_ips,
        ) == Some(Direction::Inbound),
        !wan.contains(iface_in) && wan.contains(iface_out) ==> direction_of(
            Some(iface_in),
            Some(iface_out),
            rule_name,
            src,
            dst,
            wan,
            wan_ips,
        ) == Some(Direction::Outbound),
        wan.contains(iface_in) ==> direction_of(Some(iface_in), None, rule_name, src, dst, wan, wan_ips)
            == Some(Direction::Inbound),
{
}

pub open spec fn oseq(o: Option<&[char]>) -> Option<Seq<char>> {
    match o {
        Some(s) => Some(s@),
        None => None,
    }
}

/// Which way a firewall line's traffic went.
pub fn derive_direction(
    iface_in: Option<&[char]>,
    iface_out: Option<&[char]>,
    rule_name: Option<&[char]>,
    src_ip: Option<IpAddress>,
    dst_ip: Option<IpAddress>,
    ctx: &FirewallCtx,
) -> (r: Option<Direction>)
    ensures
        r == direction_of(
            oseq(iface_in),
            oseq(iface_out),
            oseq(rule_name),
            src_ip,
            dst_ip,
            names_view(ctx.wan_interfaces@),
            ctx.wan_ips@,
        ),
{
    if iface_in.is_none() && iface_out.is_none() {
        return None;
    }
    if let Some(d) = dst_ip {
        if is_broadcast_or_multicast(&d) {
            return Some(Direction::Local);
        }
    }
    let wan = ctx.wan_interfaces.as_slice();
    let wan_out = match iface_out {
        Some(o) => name_in(wan, o),
        None => false,
    };
    if let Some(s) = src_ip {
        if ip_in(ctx.wan_ips.as_slice(), s) && !wan_out {
            return Some(Direction::Local);
        }
    }
    if let Some(r) = rule_name {
        if contains_str(r, "DNAT") || contains_str(r, "PREROUTING") {
            return Some(Direction::Nat);
        }
    }
    let wan_in = match iface_in {
        Some(i) => name_in(wan, i),
        None => false,
    };
    let out = match iface_out {
        Some(o) => o,
        None => {
            return Some(
                if wan_in {
                    Direction::Inbound
                } else {
                    Direction::Local
                },
            );
        },
    };
    if wan_in && !wan_out {
        Some(Direction::Inbound)
    } else if !wan_in && wan_out {
        Some(Direction::Outbound)
    } else if !wan_in && !wan_out && !(match iface_in {
        Some(i) => same(i, out),
        None => false,
    }) {
        let vpn = (match iface_in {
            Some(i) => is_vpn_iface(i),
            None => false,
        }) || is_vpn_iface(out);
        Some(
            if vpn {
                Direction::Vpn
            } else {
                Direction::InterVlan
            },
        )
    } else {
        Some(Direction::Local)
    }
}

// ---------------------------------------------------------------------------
// KEY=VALUE pairs
// ---------------------------------------------------------------------------

/// Where the key that ends at `eq` starts: just after the last space or `]`
/// at or after `lo`, else `lo`.
pub open spec fn key_start(s: Seq<char>, lo: int, eq: int) -> int
    decreases eq - lo,
{
    if eq <= lo || eq > s.len() {
        lo
    } else if s[eq - 1] == ' ' || s[eq - 1] == ']' {
        eq
    } else {
        key_start(s, lo, eq - 1)
    }
}

/// The next pair at or after `p`: the bounds of its key and its value, and
/// where scanning goes on. A value that starts with `"` runs to the next
/// `"`; any other value to the next space.
pub open spec fn pair_at(s: Seq<char>, p: int) -> Option<(int, int, int, int, int)> {
    match find_char_from(s, '=', p) {
        None => None,
        Some(eq) => {
            let ks = key_start(s, p, eq);
            if eq + 1 < s.len() && s[eq + 1] == '"' {
                match find_char_from(s, '"', eq + 2) {
                    Some(e) => Some((ks, eq, eq + 2, e, e + 1)),
                    None => Some((ks, eq, eq + 2, s.len() as int, s.len() as int)),
                }
            } else {
                match find_char_from(s, ' ', eq + 1) {
                    Some(e) => Some((ks, eq, eq + 1, e, e + 1)),
                    None => Some((ks, eq, eq + 1, s.len() as int, s.len() as int)),
                }
            }
        },
    }
}

pub open spec fn as_i32(o: Option<int>) -> Option<i32> {
    match o {
        Some(v) => Some(v as i32),
        None => None,
    }
}

/// `str::parse::<i32>`.
pub open spec fn parse_i32_spec(s: Seq<char>) -> Option<i32> {
    as_i32(parse_int(s, true, i32::MIN as int, i32::MAX as int))
}

/// What one pair does to the line.
pub open spec fn apply_pair(acc: LogView, key: Seq<char>, value: Seq<char>) -> LogView {
    if key == "IN"@ && value.len() > 0 {
        LogView { interface_in: Some(value), ..acc }
    } else if key == "OUT"@ && value.len() > 0 {
        LogView { interface_out: Some(value), ..acc }
    } else if key == "SRC"@ {
        LogView { src_ip: parsed_ip(value), ..acc }
    } else if key == "DST"@ {
        LogView { dst_ip: parsed_ip(value), ..acc }
    } else if key == "PROTO"@ {
        LogView { protocol: Some(ascii_lower(value)), ..acc }
    } else if key == "SPT"@ {
        LogView { src_port: parse_i32_spec(value), ..acc }
    } else if key == "DPT"@ {
        LogView { dst_port: parse_i32_spec(value), ..acc }
    } else if key == "MAC"@ {
        LogView { mac_address: Some(src_mac(value)), ..acc }
    } else if key == "DESCR"@ {
        LogView { rule_desc: Some(value), ..acc }
    } else {
        acc
    }
}

proof fn lemma_key_start(s: Seq<char>, lo: int, eq: int)
    requires
        0 <= lo <= eq <= s.len(),
    ensures
        lo <= key_start(s, lo, eq) <= eq,
    decreases eq - lo,
{
    if eq <= lo || eq > s.len() {
    } else if s[eq - 1] == ' ' || s[eq - 1] == ']' {
    } else {
        lemma_key_start(s, lo, eq - 1);
    }
}

proof fn lemma_pair_at(s: Seq<char>, p: int)
    requires
        0 <= p <= s.len(),
    ensures
        pair_at(s, p) matches Some((ks, eq, vs, ve, next)) ==> p <= ks <= eq < vs <= ve <= next
            && next <= s.len() && p < next,
{
    lemma_find_char_from_bounds(s, '=', p);
    if let Some(eq) = find_char_from(s, '=', p) {
        lemma_key_start(s, p, eq);
        lemma_find_char_from_bounds(s, '"', eq + 2);
        lemma_find_char_from_bounds(s, ' ', eq + 1);
    }
}

/// All pairs from `p` on, applied in order.
pub open spec fn scan_pairs(s: Seq<char>, p: int, acc: LogView) -> LogView
    decreases s.len() - p,
{
    if p < 0 || p > s.len() {
        acc
    } else {
        match pair_at(s, p) {
            None => acc,
            Some((ks, eq, vs, ve, next)) => if p < next <= s.len() {
                scan_pairs(s, next, apply_pair(acc, s.subrange(ks, eq), s.subrange(vs, ve)))
            } else {
                acc
            },
        }
    }
}

/// The rule name: the text in the first `[…]`.
pub open spec fn bracket_rule(s: Seq<char>) -> Option<Seq<char>> {
    match find_char(s, '[') {
        Some(start) => match find_char_from(s, ']', start + 1) {
            Some(e) => Some(s.subrange(start + 1, e)),
            None => None,
        },
        None => None,
    }
}

/// A firewall line as a log row.
pub open spec fn firewall_view(s: Seq<char>, wan: Seq<Seq<char>>, wan_ips: Seq<IpAddress>) -> LogView {
    let base = LogView { rule_name: bracket_rule(s), ..blank_view(Some(LogType::Firewall)) };
    let p = scan_pairs(s, 0, base);
    LogView {
        rule_action: action_of(p.rule_name, p.rule_desc),
        direction: direction_of(
            p.interface_in,
            p.interface_out,
            p.rule_name,
            p.src_ip,
            p.dst_ip,
            wan,
            wan_ips,
        ),
        ..p
    }
}

fn key_start_exec(s: &[char], lo: usize, eq: usize) -> (r: usize)
    requires
        lo <= eq <= s@.len(),
    ensures
        r as int == key_start(s@, lo as int, eq as int),
{
    let mut e = eq;
    while e > lo && !(s[e - 1] == ' ' || s[e - 1] == ']')
        invariant
            lo <= e <= eq <= s@.len(),
            key_start(s@, lo as int, eq as int) == key_start(s@, lo as int, e as int),
        decreases e - lo,
    {
        e = e - 1;
    }
    if e <= lo {
        lo
    } else {
        e
    }
}

fn pair_at_exec(s: &[char], p: usize) -> (r: Option<(usize, usize, usize, usize, usize)>)
    requires
        p <= s@.len(),
    ensures
        match r {
            Some(t) => pair_at(s@, p as int) == Some(
                (t.0 as int, t.1 as int, t.2 as int, t.3 as int, t.4 as int),
            ),
            None => pair_at(s@, p as int) is None,
        },
{
    proof {
        lemma_find_char_from_bounds(s@, '=', p as int);
    }
    let eq = match find_char_from_exec(s, '=', p) {
        None => return None,
        Some(eq) => eq,
    };
    let ks = key_start_exec(s, p, eq);
    assert(eq < s.len());
    if eq + 1 < s.len() && s[eq + 1] == '"' {
        proof {
            lemma_find_char_from_bounds(s@, '"', eq + 2);
        }
        match find_char_from_exec(s, '"', eq + 2) {
            Some(e) => Some((ks, eq, eq + 2, e, e + 1)),
            None => Some((ks, eq, eq + 2, s.len(), s.len())),
        }
    } else {
        proof {
            lemma_find_char_from_bounds(s@, ' ', eq + 1);
        }
        match find_char_from_exec(s, ' ', eq + 1) {
            Some(e) => Some((ks, eq, eq + 1, e, e + 1)),
            None => Some((ks, eq, eq + 1, s.len(), s.len())),
        }
    }
}

fn apply_pair_exec(p: &mut ParsedLog, key: &[char], value: &[char])
    ensures
        final(p)@ == apply_pair(old(p)@, key@, value@),
{
    if same_str(key, "IN") && value.len() > 0 {
        p.interface_in = Some(text(value, 0, value.len()));
    } else if same_str(key, "OUT") && value.len() > 0 {
        p.interface_out = Some(text(value, 0, value.len()));
    } else if same_str(key, "SRC") {
        p.src_ip = parse_ip_chars(value);
    } else if same_str(key, "DST") {
        p.dst_ip = parse_ip_chars(value);
    } else if same_str(key, "PROTO") {
        let l = lower_ascii(value);
        p.protocol = Some(string_from(l.as_slice()));
    } else if same_str(key, "SPT") {
        p.src_port = parse_i32(value);
    } else if same_str(key, "DPT") {
        p.dst_port = parse_i32(value);
    } else if same_str(key, "MAC") {
        p.mac_address = Some(extract_src_mac(value));
    } else if same_str(key, "DESCR") {
        p.rule_desc = Some(text(value, 0, value.len()));
    }
    proof {
        assert(value@.subrange(0, value@.len() as int) =~= value@);
    }
}

fn opt_chars(o: &Option<String>) -> (r: Option<Vec<char>>)
    ensures
        match r {
            Some(v) => ov(*o) == Some(v@),
            None => o is None,
        },
{
    match o {
        Some(s) => Some(chars_of(s.as_str())),
        None => None,
    }
}

fn opt_slice(o: &Option<Vec<char>>) -> (r: Option<&[char]>)
    ensures
        oseq(r) == match o {
            Some(v) => Some(v@),
            None => None::<Seq<char>>,
        },
{
    match o {
        Some(v) => Some(v.as_slice()),
        None => None,
    }
}

/// Parses a firewall line.
pub fn parse_firewall_chars(s: &[char], ctx: &FirewallCtx) -> (r: ParsedLog)
    ensures
        r@ == firewall_view(s@, names_view(ctx.wan_interfaces@), ctx.wan_ips@),
{
    let mut p = ParsedLog::blank(Some(LogType::Firewall));
    proof {
        lemma_find_char_from_bounds(s@, '[', 0);
    }
    if let Some(start) = find_char_exec(s, '[') {
        proof {
            assert(start < s.len());
            lemma_find_char_from_bounds(s@, ']', start + 1);
        }
        if let Some(e) = find_char_from_exec(s, ']', start + 1) {
            p.rule_name = Some(text(s, start + 1, e));
        }
    }
    let ghost base = p@;
    assert(base == LogView { rule_name: bracket_rule(s@), ..blank_view(Some(LogType::Firewall)) });
    let mut pos: usize = 0;
    loop
        invariant
            pos <= s@.len(),
            scan_pairs(s@, 0, base) == scan_pairs(s@, pos as int, p@),
        ensures
            scan_pairs(s@, 0, base) == p@,
        decreases s@.len() - pos,
    {
        proof {
            lemma_pair_at(s@, pos as int);
        }
        match pair_at_exec(s, pos) {
            None => {
                break;
            },
            Some((ks, eq, vs, ve, next)) => {
                let key = slice(s, ks, eq);
                let value = slice(s, vs, ve);
                apply_pair_exec(&mut p, key.as_slice(), value.as_slice());
                pos = next;
            },
        }
    }
    let name = opt_chars(&p.rule_name);
    let desc = opt_chars(&p.rule_desc);
    let iin = opt_chars(&p.interface_in);
    let iout = opt_chars(&p.interface_out);
    p.rule_action = derive_action(opt_slice(&name), opt_slice(&desc));
    p.direction = derive_direction(
        opt_slice(&iin),
        opt_slice(&iout),
        opt_slice(&name),
        p.src_ip,
        p.dst_ip,
        ctx,
    );
    p
}

/// Parses a firewall line.
pub fn parse_firewall(body: &str, ctx: &FirewallCtx) -> (r: ParsedLog)
    ensures
        r@ == firewall_view(body@, names_view(ctx.wan_interfaces@), ctx.wan_ips@),
{
    let s = chars_of(body);
    parse_firewall_chars(s.as_slice(), ctx)
}

} // verus!
