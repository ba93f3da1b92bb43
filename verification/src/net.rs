//! Addresses and networks, and which addresses are worth looking up.
use vstd::prelude::*;
use vstd::arithmetic::power2::*;

verus! {

/// An IP address, by its numeric value.
#[derive(Debug, Clone, Copy, PartialEq, Eq, Hash, Structural)]
pub enum IpAddress {
    V4(u32),
    V6(u128),
}

/// A network: an address and how many of its leading bits are fixed.
#[derive(Debug, Clone, Copy, PartialEq, Eq, Structural)]
pub struct Network {
    pub addr: IpAddress,
    pub prefix: u8,
}

/// How many bits an address of this family has.
pub open spec fn width(a: IpAddress) -> nat {
    match a {
        IpAddress::V4(_) => 32,
        IpAddress::V6(_) => 128,
    }
}

/// The numeric value of an address.
pub open spec fn value(a: IpAddress) -> int {
    match a {
        IpAddress::V4(v) => v as int,
        IpAddress::V6(v) => v as int,
    }
}

/// A network's prefix fits its family.
pub open spec fn network_wf(n: Network) -> bool {
    n.prefix <= width(n.addr)
}

/// `IpNetwork::contains`: same family, and the leading `prefix` bits agree.
pub open spec fn net_contains(n: Network, ip: IpAddress) -> bool {
    &&& width(n.addr) == width(ip)
    &&& value(n.addr) / pow2((width(ip) - n.prefix) as nat) as int == value(ip) / pow2(
        (width(ip) - n.prefix) as nat,
    ) as int
}

/// What `str::parse::<IpAddr>` returns for these characters.
pub uninterp spec fn parsed_ip(s: Seq<char>) -> Option<IpAddress>;

/// What `str::parse::<IpNetwork>` returns for these characters.
pub uninterp spec fn parsed_network(s: Seq<char>) -> Option<Network>;

/// What `IpAddr`'s `Display` writes for this address.
pub uninterp spec fn ip_text(a: IpAddress) -> Seq<char>;

/// `str::parse::<core::net::IpAddr>` (std): dotted IPv4 or IPv6 text. The
/// result is named: the grammar is std's, not restated here.
#[verifier::external_body]
fn std_parse_ip(s: &str) -> (r: Option<IpAddress>)
    ensures
        r == parsed_ip(s@),
{
    match s.parse::<core::net::IpAddr>() {
        Ok(core::net::IpAddr::V4(a)) => Some(IpAddress::V4(u32::from(a))),
        Ok(core::net::IpAddr::V6(a)) => Some(IpAddress::V6(u128::from(a))),
        Err(_) => None,
    }
}

/// The address written in `s`, if it is one.
pub fn parse_ip(s: &str) -> (r: Option<IpAddress>)
    ensures
        r == parsed_ip(s@),
{
    std_parse_ip(s)
}

/// The address written in these characters, if it is one.
pub fn parse_ip_chars(s: &[char]) -> (r: Option<IpAddress>)
    ensures
        r == parsed_ip(s@),
{
    let t = crate::text::string_from(s);
    std_parse_ip(t.as_str())
}

/// `<IpAddr as Display>::to_string` (std). The text is named.
#[verifier::external_body]
fn std_ip_to_string(a: IpAddress) -> (r: String)
    ensures
        r@ == ip_text(a),
{
    match a {
        IpAddress::V4(v) => core::net::Ipv4Addr::from(v).to_string(),
        IpAddress::V6(v) => core::net::Ipv6Addr::from(v).to_string(),
    }
}

/// The usual text form of the address.
pub fn ip_to_string(a: IpAddress) -> (r: String)
    ensures
        r@ == ip_text(a),
{
    std_ip_to_string(a)
}

/// `str::parse::<ipnetwork::IpNetwork>` (ipnetwork): `addr/prefix`, where a
/// missing prefix means the whole width. The result is named; every network
/// it gives has a prefix that fits its family (the source rejects others).
#[verifier::external_body]
fn ipnetwork_parse(s: &str) -> (r: Option<Network>)
    ensures
        r == parsed_network(s@),
        r matches Some(n) ==> network_wf(n),
{
    match s.parse::<ipnetwork::IpNetwork>() {
        Ok(ipnetwork::IpNetwork::V4(n)) => Some(Network {
            addr: IpAddress::V4(u32::from(n.ip())),
            prefix: n.prefix(),
        }),
        Ok(ipnetwork::IpNetwork::V6(n)) => Some(Network {
            addr: IpAddress::V6(u128::from(n.ip())),
            prefix: n.prefix(),
        }),
        Err(_) => None,
    }
}

/// The network written in these characters, if it is one.
pub fn parse_network_chars(s: &[char]) -> (r: Option<Network>)
    ensures
        r == parsed_network(s@),
        r matches Some(n) ==> network_wf(n),
{
    let t = crate::text::string_from(s);
    ipnetwork_parse(t.as_str())
}

/// The network written in `s`, if it is one.
pub fn parse_network(s: &str) -> (r: Option<Network>)
    ensures
        r == parsed_network(s@),
        r matches Some(n) ==> network_wf(n),
{
    ipnetwork_parse(s)
}

/// The network of `addr` with `prefix` leading bits, if the prefix fits.
pub fn network_new(addr: IpAddress, prefix: u8) -> (r: Option<Network>)
    ensures
        r == (if prefix as nat <= width(addr) {
            Some(Network { addr, prefix })
        } else {
            None
        }),
{
    let w: u8 = match addr {
        IpAddress::V4(_) => 32,
        IpAddress::V6(_) => 128,
    };
    if prefix <= w {
        Some(Network { addr, prefix })
    } else {
        None
    }
}

proof fn lemma_pow2_values()
    ensures
        pow2(0) == 1,
        pow2(32) == 0x1_0000_0000,
{
    lemma2_to64();
}

/// `pow2(e)` as a machine number, for `e < 128`.
fn pow2_exec(e: u32) -> (r: u128)
    requires
        e < 128,
    ensures
        r as nat == pow2(e as nat),
{
    let mut r: u128 = 1;
    let mut i: u32 = 0;
    proof {
        lemma_pow2_values();
    }
    while i < e
        invariant
            i <= e < 128,
            r as nat == pow2(i as nat),
        decreases e - i,
    {
        proof {
            lemma_pow2_unfold((i + 1) as nat);
            lemma_pow2_strictly_increases((i + 1) as nat, 128);
            assert(pow2(128) == 0x1_0000_0000_0000_0000_0000_0000_0000_0000nat) by {
                lemma2_to64();
                lemma_pow2_adds(64, 64);
            }
        }
        r = r * 2;
        i = i + 1;
    }
    r
}

/// Whether the network holds the address.
pub fn contains(n: Network, ip: IpAddress) -> (r: bool)
    requires
        network_wf(n),
    ensures
        r == net_contains(n, ip),
{
    match (n.addr, ip) {
        (IpAddress::V4(a), IpAddress::V4(b)) => {
            let shift = 32 - n.prefix as u32;
            let d = pow2_exec(shift);
            proof {
                lemma_pow2_pos(shift as nat);
            }
            (a as u128) / d == (b as u128) / d
        },
        (IpAddress::V6(a), IpAddress::V6(b)) => {
            if n.prefix == 0 {
                proof {
                    assert(pow2(128) == 0x1_0000_0000_0000_0000_0000_0000_0000_0000nat) by {
                        lemma2_to64();
                        lemma_pow2_adds(64, 64);
                    }
                    vstd::arithmetic::div_mod::lemma_basic_div(a as int, pow2(128) as int);
                    vstd::arithmetic::div_mod::lemma_basic_div(b as int, pow2(128) as int);
                }
                true
            } else {
                let shift = 128 - n.prefix as u32;
                let d = pow2_exec(shift);
                proof {
                    lemma_pow2_pos(shift as nat);
                }
                a / d == b / d
            }
        },
        _ => false,
    }
}

// ---------------------------------------------------------------------------
// Address classes (core::net::Ipv4Addr / Ipv6Addr)
// ---------------------------------------------------------------------------

/// The `k`-th octet (0 = leftmost) of an IPv4 address.
pub open spec fn octet(v: u32, k: int) -> int {
    if k == 0 {
        v as int / 0x100_0000
    } else if k == 1 {
        (v as int / 0x1_0000) % 0x100
    } else if k == 2 {
        (v as int / 0x100) % 0x100
    } else {
        v as int % 0x100
    }
}

/// The first 16-bit group of an IPv6 address.
pub open spec fn segment0(v: u128) -> int {
    v as int / 0x1_0000_0000_0000_0000_0000_0000_0000
}

/// `Ipv4Addr::is_private`: 10/8, 172.16/12, 192.168/16.
pub open spec fn v4_private(v: u32) -> bool {
    octet(v, 0) == 10 || (octet(v, 0) == 172 && 16 <= octet(v, 1) < 32) || (octet(v, 0) == 192
        && octet(v, 1) == 168)
}

/// `Ipv4Addr::is_documentation`: 192.0.2/24, 198.51.100/24, 203.0.113/24.
pub open spec fn v4_documentation(v: u32) -> bool {
    (octet(v, 0) == 192 && octet(v, 1) == 0 && octet(v, 2) == 2) || (octet(v, 0) == 198
        && octet(v, 1) == 51 && octet(v, 2) == 100) || (octet(v, 0) == 203 && octet(v, 1) == 0
        && octet(v, 2) == 113)
}

/// An IPv4 address that names nobody outside: private, loopback (127/8),
/// link-local (169.254/16), broadcast, multicast (224/4), unspecified,
/// documentation, shared address space (100.64/10) or 0/8.
pub open spec fn v4_internal(v: u32) -> bool {
    v4_private(v) || octet(v, 0) == 127 || (octet(v, 0) == 169 && octet(v, 1) == 254)
        || v == 0xffff_ffff || (224 <= octet(v, 0) < 240) || v == 0 || v4_documentation(v)
        || (octet(v, 0) == 100 && 64 <= octet(v, 1) < 128) || octet(v, 0) == 0
}

/// An IPv6 address that names nobody outside: loopback (::1), multicast
/// (ff00::/8), unspecified, unique local (fc00::/7) or link local (fe80::/10).
pub open spec fn v6_internal(v: u128) -> bool {
    v == 1 || segment0(v) >= 0xff00 || v == 0 || (0xfc00 <= segment0(v) < 0xfe00) || (0xfe80
        <= segment0(v) < 0xfec0)
}

/// Public in the sense of enrichment: everything that is not obviously our
/// own network or no counterpart at all.
pub open spec fn enrichable(ip: IpAddress) -> bool {
    match ip {
        IpAddress::V4(v) => !v4_internal(v),
        IpAddress::V6(v) => !v6_internal(v),
    }
}

/// `Ipv4Addr::is_broadcast || is_multicast`, `Ipv6Addr::is_multicast`.
pub open spec fn broadcast_or_multicast(ip: IpAddress) -> bool {
    match ip {
        IpAddress::V4(v) => v == 0xffff_ffff || (224 <= octet(v, 0) < 240),
        IpAddress::V6(v) => segment0(v) >= 0xff00,
    }
}

fn octets(v: u32) -> (r: (u32, u32, u32, u32))
    ensures
        r.0 == octet(v, 0),
        r.1 == octet(v, 1),
        r.2 == octet(v, 2),
        r.3 == octet(v, 3),
{
    (v / 0x100_0000, (v / 0x1_0000) % 0x100, (v / 0x100) % 0x100, v % 0x100)
}

/// Whether the address is worth looking up.
pub fn is_enrichable(ip: &IpAddress) -> (r: bool)
    ensures
        r == enrichable(*ip),
{
    match *ip {
        IpAddress::V4(v) => {
            let (a, b, c, _d) = octets(v);
            let private = a == 10 || (a == 172 && 16 <= b && b < 32) || (a == 192 && b == 168);
            let documentation = (a == 192 && b == 0 && c == 2) || (a == 198 && b == 51 && c
                == 100) || (a == 203 && b == 0 && c == 113);
            !(private || a == 127 || (a == 169 && b == 254) || v == 0xffff_ffff || (224 <= a
                && a < 240) || v == 0 || documentation || (a == 100 && 64 <= b && b < 128) || a
                == 0)
        },
        IpAddress::V6(v) => {
            let s = v / 0x1_0000_0000_0000_0000_0000_0000_0000;
            !(v == 1 || s >= 0xff00 || v == 0 || (0xfc00 <= s && s < 0xfe00) || (0xfe80 <= s
                && s < 0xfec0))
        },
    }
}

/// Whether the address is a broadcast or multicast one.
pub fn is_broadcast_or_multicast(ip: &IpAddress) -> (r: bool)
    ensures
        r == broadcast_or_multicast(*ip),
{
    match *ip {
        IpAddress::V4(v) => {
            let a = v / 0x100_0000;
            v == 0xffff_ffff || (224 <= a && a < 240)
        },
        IpAddress::V6(v) => {
            let s = v / 0x1_0000_0000_0000_0000_0000_0000_0000;
            s >= 0xff00
        },
    }
}

/// Whether `ip` is one of `set`.
pub fn ip_in(set: &[IpAddress], ip: IpAddress) -> (r: bool)
    ensures
        r == set@.contains(ip),
{
    let mut i: usize = 0;
    while i < set.len()
        invariant
            0 <= i <= set@.len(),
            forall|k: int| 0 <= k < i ==> set@[k] != ip,
        decreases set.len() - i,
    {
        if set[i] == ip {
            return true;
        }
        i = i + 1;
    }
    false
}

// ---------------------------------------------------------------------------
// The counterpart of a line
// ---------------------------------------------------------------------------

/// An address that can be looked up: public and not one of ours.
pub open spec fn usable(ip: Option<IpAddress>, excluded: Seq<IpAddress>) -> Option<IpAddress> {
    match ip {
        Some(a) => if enrichable(a) && !excluded.contains(a) {
            Some(a)
        } else {
            None
        },
        None => None,
    }
}

/// Which of a line's two addresses is the counterpart. Only firewall (1) and
/// dns (2) lines have one; inbound (1) takes the source, outbound (2) the
/// destination, anything else whichever side is usable, source first.
pub open spec fn remote_of(
    log_type_id: i16,
    direction_id: Option<i16>,
    src: Option<IpAddress>,
    dst: Option<IpAddress>,
    excluded: Seq<IpAddress>,
) -> Option<IpAddress> {
    if log_type_id == 1 {
        if direction_id == Some(1i16) {
            usable(src, excluded)
        } else if direction_id == Some(2i16) {
            usable(dst, excluded)
        } else if usable(src, excluded) is Some {
            usable(src, excluded)
        } else {
            usable(dst, excluded)
        }
    } else if log_type_id == 2 {
        if usable(src, excluded) is Some {
            usable(src, excluded)
        } else {
            usable(dst, excluded)
        }
    } else {
        None
    }
}

fn usable_exec(ip: Option<IpAddress>, excluded: &[IpAddress]) -> (r: Option<IpAddress>)
    ensures
        r == usable(ip, excluded@),
{
    match ip {
        Some(a) => if is_enrichable(&a) && !ip_in(excluded, a) {
            Some(a)
        } else {
            None
        },
        None => None,
    }
}

/// Which of the two addresses of a line is the counterpart worth looking up.
pub fn remote_ip(
    log_type_id: i16,
    direction_id: Option<i16>,
    src_ip: Option<IpAddress>,
    dst_ip: Option<IpAddress>,
    excluded: &[IpAddress],
) -> (r: Option<IpAddress>)
    ensures
        r == remote_of(log_type_id, direction_id, src_ip, dst_ip, excluded@),
{
    match log_type_id {
        1 => match direction_id {
            Some(1) => usable_exec(src_ip, excluded),
            Some(2) => usable_exec(dst_ip, excluded),
            _ => match usable_exec(src_ip, excluded) {
                Some(a) => Some(a),
                None => usable_exec(dst_ip, excluded),
            },
        },
        2 => match usable_exec(src_ip, excluded) {
            Some(a) => Some(a),
            None => usable_exec(dst_ip, excluded),
        },
        _ => None,
    }
}

} // verus!
