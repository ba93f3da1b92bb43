//! Device names and the network layout from the UniFi controller: which
//! interface a network appears on in the log, under which rule name a
//! firewall policy logs, which address belongs to which device. The
//! controller's answers arrive here as plain values; the texts are taken
//! as the controller gave them, an empty text counting as none.
use vstd::prelude::*;
use crate::net::{ip_text, parse_ip_chars, parsed_ip};
use crate::order::{keys_view, sort_order, stable_order, stable_sorted};

use crate::text::{
    append_chars, ascii_upper, chars_of, decimal, decimal_text, digits_exec, find_char,
    find_char_exec, lemma_find_char_from_bounds, parse_i64, parse_int, same, same_str, slice,
    string_from, to_lowercase, to_uppercase, trim, trim_exec, upper_ascii, lowercase, uppercase,
};
use crate::types::ov;

verus! {

// ---------------------------------------------------------------------------
// Values as the controller gives them
// ---------------------------------------------------------------------------

/// A number that arrives as a number in some versions of the controller
/// and as text in others.
#[derive(Debug, Clone, PartialEq)]
pub enum NumberField {
    Number(i64),
    Text(String),
}

pub enum NumberView {
    Number(i64),
    Text(Seq<char>),
}

impl View for NumberField {
    type V = NumberView;

    open spec fn view(&self) -> NumberView {
        match self {
            NumberField::Number(n) => NumberView::Number(*n),
            NumberField::Text(t) => NumberView::Text(t@),
        }
    }
}

pub open spec fn onv(o: Option<NumberField>) -> Option<NumberView> {
    match o {
        Some(n) => Some(n@),
        None => None,
    }
}

/// A text field: an empty text is no text.
pub open spec fn text_of(o: Option<Seq<char>>) -> Option<Seq<char>> {
    match o {
        Some(s) if s.len() > 0 => Some(s),
        _ => None,
    }
}

/// A number field: a number as it is, a text read as a whole number after
/// trimming.
pub open spec fn number_of(o: Option<NumberView>) -> Option<int> {
    match o {
        Some(NumberView::Number(n)) => Some(n as int),
        Some(NumberView::Text(t)) => parse_int(trim(t), true, i64::MIN as int, i64::MAX as int),
        None => None,
    }
}

/// A text field.
pub fn present(o: &Option<String>) -> (r: Option<String>)
    ensures
        ov(r) == text_of(ov(*o)),
{
    match o {
        Some(s) => if chars_of(s.as_str()).len() > 0 {
            Some(s.clone())
        } else {
            None
        },
        None => None,
    }
}

/// A number field.
pub fn number(o: &Option<NumberField>) -> (r: Option<i64>)
    ensures
        match r {
            Some(n) => number_of(onv(*o)) == Some(n as int),
            None => number_of(onv(*o)) is None,
        },
{
    match o {
        Some(NumberField::Number(n)) => Some(*n),
        Some(NumberField::Text(t)) => {
            let c = chars_of(t.as_str());
            let tr = trim_exec(c.as_slice());
            parse_i64(tr.as_slice())
        },
        None => None,
    }
}

/// A network of the controller's configuration (`rest/networkconf`).
#[derive(Debug, Clone)]
pub struct NetworkConf {
    pub name: Option<String>,
    pub purpose: Option<String>,
    pub enabled: Option<bool>,
    pub vlan: Option<NumberField>,
    pub vlan_enabled: Option<bool>,
    pub wan_networkgroup: Option<String>,
    pub ip_subnet: Option<String>,
}

pub struct NetworkView {
    pub name: Option<Seq<char>>,
    pub purpose: Option<Seq<char>>,
    pub enabled: Option<bool>,
    pub vlan: Option<NumberView>,
    pub vlan_enabled: Option<bool>,
    pub wan_networkgroup: Option<Seq<char>>,
    pub ip_subnet: Option<Seq<char>>,
}

impl View for NetworkConf {
    type V = NetworkView;

    open spec fn view(&self) -> NetworkView {
        NetworkView {
            name: ov(self.name),
            purpose: ov(self.purpose),
            enabled: self.enabled,
            vlan: onv(self.vlan),
            vlan_enabled: self.vlan_enabled,
            wan_networkgroup: ov(self.wan_networkgroup),
            ip_subnet: ov(self.ip_subnet),
        }
    }
}

/// A device of the controller (`stat/device`): its own names and address,
/// and the interface names and addresses of its two uplinks.
#[derive(Debug, Clone)]
pub struct DeviceConf {
    pub mac: Option<String>,
    pub ip: Option<String>,
    pub name: Option<String>,
    pub hostname: Option<String>,
    pub oui: Option<String>,
    /// `type`: `udm` or `ugw` for a gateway.
    pub kind: Option<String>,
    pub model: Option<String>,
    pub version: Option<String>,
    pub wan1_ifname: Option<String>,
    pub wan1_ip: Option<String>,
    pub wan2_ifname: Option<String>,
    pub wan2_ip: Option<String>,
}

pub struct DeviceView {
    pub mac: Option<Seq<char>>,
    pub ip: Option<Seq<char>>,
    pub name: Option<Seq<char>>,
    pub hostname: Option<Seq<char>>,
    pub oui: Option<Seq<char>>,
    pub kind: Option<Seq<char>>,
    pub model: Option<Seq<char>>,
    pub version: Option<Seq<char>>,
    pub wan1_ifname: Option<Seq<char>>,
    pub wan1_ip: Option<Seq<char>>,
    pub wan2_ifname: Option<Seq<char>>,
    pub wan2_ip: Option<Seq<char>>,
}

impl View for DeviceConf {
    type V = DeviceView;

    open spec fn view(&self) -> DeviceView {
        DeviceView {
            mac: ov(self.mac),
            ip: ov(self.ip),
            name: ov(self.name),
            hostname: ov(self.hostname),
            oui: ov(self.oui),
            kind: ov(self.kind),
            model: ov(self.model),
            version: ov(self.version),
            wan1_ifname: ov(self.wan1_ifname),
            wan1_ip: ov(self.wan1_ip),
            wan2_ifname: ov(self.wan2_ifname),
            wan2_ip: ov(self.wan2_ip),
        }
    }
}

/// The name shown for a client or device: the name given to it before the
/// host name it reports before its maker.
pub open spec fn shown_name(name: Option<Seq<char>>, hostname: Option<Seq<char>>, oui: Option<Seq<char>>) -> Option<
    Seq<char>,
> {
    match text_of(name) {
        Some(n) => Some(n),
        None => match text_of(hostname) {
            Some(h) => Some(h),
            None => text_of(oui),
        },
    }
}

/// The name shown for a client or device.
pub fn display_name(name: &Option<String>, hostname: &Option<String>, oui: &Option<String>) -> (r: Option<
    String,
>)
    ensures
        ov(r) == shown_name(ov(*name), ov(*hostname), ov(*oui)),
{
    match present(name) {
        Some(n) => Some(n),
        None => match present(hostname) {
            Some(h) => Some(h),
            None => present(oui),
        },
    }
}

// ---------------------------------------------------------------------------
// Networks and their interfaces
// ---------------------------------------------------------------------------

pub open spec fn lan_purpose(p: Seq<char>) -> bool {
    p == "corporate"@ || p == "guest"@ || p == "vlan-only"@
}

/// The interface a network appears on in the log. VLAN `n` lies on bridge
/// `brn`, the default network without a VLAN of its own on `br0`. Only LAN
/// segments that are switched on have one. Without `vlan_enabled` the VLAN
/// number decides by itself.
pub open spec fn bridge_of(net: NetworkView) -> Option<Seq<char>> {
    let purpose = match text_of(net.purpose) {
        Some(p) => p,
        None => Seq::empty(),
    };
    if !lan_purpose(purpose) {
        None
    } else if net.enabled == Some(false) {
        None
    } else {
        let vlan = number_of(net.vlan);
        let enabled = match net.vlan_enabled {
            Some(b) => b,
            None => vlan matches Some(v) && v > 1,
        };
        let v = if enabled && vlan is Some {
            vlan.unwrap()
        } else {
            1
        };
        Some(
            if v == 1 {
                "br0"@
            } else {
                "br"@ + decimal(v)
            },
        )
    }
}

/// The interface a network appears on in the log.
pub fn bridge_for(net: &NetworkConf) -> (r: Option<String>)
    ensures
        ov(r) == bridge_of(net@),
{
    let purpose = match present(&net.purpose) {
        Some(p) => p,
        None => String::new(),
    };
    let pc = chars_of(purpose.as_str());
    if !(same_str(pc.as_slice(), "corporate") || same_str(pc.as_slice(), "guest") || same_str(
        pc.as_slice(),
        "vlan-only",
    )) {
        return None;
    }
    if net.enabled == Some(false) {
        return None;
    }
    let vlan = number(&net.vlan);
    let enabled = match net.vlan_enabled {
        Some(b) => b,
        None => match vlan {
            Some(v) => v > 1,
            None => false,
        },
    };
    let v: i64 = match vlan {
        Some(n) => if enabled {
            n
        } else {
            1
        },
        None => 1,
    };
    if v == 1 {
        Some("br0".to_string())
    } else {
        let mut out = chars_of("br");
        let d = chars_of(decimal_text(v).as_str());
        append_chars(&mut out, d.as_slice());
        Some(string_from(out.as_slice()))
    }
}

/// The first WAN network of a group, at or after `i`.
pub open spec fn wan_network_from(nets: Seq<NetworkView>, group: Seq<char>, i: int) -> Option<int>
    decreases nets.len() - i,
{
    if i < 0 || i >= nets.len() {
        None
    } else if text_of(nets[i].purpose) == Some("wan"@) && text_of(nets[i].wan_networkgroup) == Some(
        group,
    ) {
        Some(i)
    } else {
        wan_network_from(nets, group, i + 1)
    }
}

/// The name of a WAN group: that of its first network where it has one,
/// else the group itself — rather no label than an invented one.
pub open spec fn wan_name(nets: Seq<NetworkView>, group: Seq<char>) -> Seq<char> {
    match wan_network_from(nets, group, 0) {
        Some(i) => match text_of(nets[i].name) {
            Some(n) => n,
            None => group,
        },
        None => group,
    }
}

/// The uplinks of one device: its first uplink in group `WAN`, its second
/// in group `WAN2`, each where it names an interface.
pub open spec fn device_wans(d: DeviceView, nets: Seq<NetworkView>) -> Seq<(Seq<char>, Seq<char>)> {
    (match text_of(d.wan1_ifname) {
        Some(i) => seq![(i, wan_name(nets, "WAN"@))],
        None => Seq::empty(),
    }) + match text_of(d.wan2_ifname) {
        Some(i) => seq![(i, wan_name(nets, "WAN2"@))],
        None => Seq::empty(),
    }
}

/// The WAN interfaces as the devices report them, with their names.
pub open spec fn wan_pairs(devs: Seq<DeviceView>, nets: Seq<NetworkView>) -> Seq<(Seq<char>, Seq<char>)>
    decreases devs.len(),
{
    if devs.len() == 0 {
        Seq::empty()
    } else {
        wan_pairs(devs.drop_last(), nets) + device_wans(devs.last(), nets)
    }
}

pub open spec fn nets_view(v: Seq<NetworkConf>) -> Seq<NetworkView> {
    v.map_values(|n: NetworkConf| n@)
}

pub open spec fn devs_view(v: Seq<DeviceConf>) -> Seq<DeviceView> {
    v.map_values(|d: DeviceConf| d@)
}

pub open spec fn pairs_view(v: Seq<(String, String)>) -> Seq<(Seq<char>, Seq<char>)> {
    v.map_values(|p: (String, String)| (p.0@, p.1@))
}

fn wan_name_exec(nets: &[NetworkConf], group: &str) -> (r: String)
    ensures
        r@ == wan_name(nets_view(nets@), group@),
{
    let ghost nv = nets_view(nets@);
    let g = chars_of(group);
    let mut i: usize = 0;
    while i < nets.len()
        invariant
            0 <= i <= nets@.len(),
            nv == nets_view(nets@),
            g@ == group@,
            wan_network_from(nv, group@, 0) == wan_network_from(nv, group@, i as int),
        decreases nets.len() - i,
    {
        assert(nv[i as int] == nets@[i as int]@);
        let p = present(&nets[i].purpose);
        let wg = present(&nets[i].wan_networkgroup);
        let is_wan = match &p {
            Some(s) => same_str(chars_of(s.as_str()).as_slice(), "wan"),
            None => false,
        };
        let in_group = match &wg {
            Some(s) => same(chars_of(s.as_str()).as_slice(), g.as_slice()),
            None => false,
        };
        if is_wan && in_group {
            return match present(&nets[i].name) {
                Some(n) => n,
                None => string_from(g.as_slice()),
            };
        }
        i = i + 1;
    }
    string_from(g.as_slice())
}

/// The WAN interfaces as the devices report them, each with the name of
/// its network.
pub fn wan_interfaces(devices: &[DeviceConf], networks: &[NetworkConf]) -> (r: Vec<(String, String)>)
    ensures
        pairs_view(r@) == wan_pairs(devs_view(devices@), nets_view(networks@)),
{
    let ghost dv = devs_view(devices@);
    let ghost nv = nets_view(networks@);
    let mut out: Vec<(String, String)> = Vec::new();
    let mut i: usize = 0;
    while i < devices.len()
        invariant
            0 <= i <= devices@.len(),
            dv == devs_view(devices@),
            nv == nets_view(networks@),
            pairs_view(out@) == wan_pairs(dv.take(i as int), nv),
        decreases devices.len() - i,
    {
        assert(dv.take(i + 1).drop_last() =~= dv.take(i as int));
        assert(dv[i as int] == devices@[i as int]@);
        let ghost before = pairs_view(out@);
        let d = &devices[i];
        match present(&d.wan1_ifname) {
            Some(ifn) => {
                let name = wan_name_exec(networks, "WAN");
                out.push((ifn, name));
            },
            None => {},
        }
        let ghost mid = pairs_view(out@);
        match present(&d.wan2_ifname) {
            Some(ifn) => {
                let name = wan_name_exec(networks, "WAN2");
                out.push((ifn, name));
            },
            None => {},
        }
        assert(pairs_view(out@) =~= before + device_wans(dv[i as int], nv));
        i = i + 1;
    }
    assert(dv.take(dv.len() as int) =~= dv);
    out
}

// ---------------------------------------------------------------------------
// Zones and firewall policies
// ---------------------------------------------------------------------------

/// A zone of the zone firewall (`firewall/zone`).
#[derive(Debug, Clone)]
pub struct ZoneConf {
    pub id: Option<String>,
    pub name: Option<String>,
    /// Set on the predefined zones only.
    pub zone_key: Option<String>,
}

pub struct ZoneView {
    pub id: Option<Seq<char>>,
    pub name: Option<Seq<char>>,
    pub zone_key: Option<Seq<char>>,
}

impl View for ZoneConf {
    type V = ZoneView;

    open spec fn view(&self) -> ZoneView {
        ZoneView { id: ov(self.id), name: ov(self.name), zone_key: ov(self.zone_key) }
    }
}

/// A zone's id, the token that stands for it in a rule name, and its name.
#[derive(Debug, Clone, PartialEq)]
pub struct ZoneToken {
    pub id: String,
    pub token: String,
    pub name: String,
}

pub type TokenView = (Seq<char>, Seq<char>, Seq<char>);

pub open spec fn tokens_view(v: Seq<ZoneToken>) -> Seq<TokenView> {
    v.map_values(|z: ZoneToken| (z.id@, z.token@, z.name@))
}

pub open spec fn zones_view(v: Seq<ZoneConf>) -> Seq<ZoneView> {
    v.map_values(|z: ZoneConf| z@)
}

/// The token of a predefined zone: three of them read otherwise in the log
/// than in the controller, the rest are their key upper-cased.
pub open spec fn known_token(key: Seq<char>) -> Seq<char> {
    if key == "internal"@ {
        "LAN"@
    } else if key == "external"@ {
        "WAN"@
    } else if key == "gateway"@ {
        "LOCAL"@
    } else {
        uppercase(key)
    }
}

/// The predefined zones (with id, name and key), in order.
pub open spec fn keyed_tokens(zs: Seq<ZoneView>) -> Seq<TokenView>
    decreases zs.len(),
{
    if zs.len() == 0 {
        Seq::empty()
    } else {
        let rest = keyed_tokens(zs.drop_last());
        let z = zs.last();
        match (text_of(z.id), text_of(z.name), text_of(z.zone_key)) {
            (Some(id), Some(name), Some(k)) => rest.push((id, known_token(k), name)),
            _ => rest,
        }
    }
}

/// The zones made by hand (with id and name, no key), in order.
pub open spec fn custom_zones(zs: Seq<ZoneView>) -> Seq<(Seq<char>, Seq<char>)>
    decreases zs.len(),
{
    if zs.len() == 0 {
        Seq::empty()
    } else {
        let rest = custom_zones(zs.drop_last());
        let z = zs.last();
        match (text_of(z.id), text_of(z.name), text_of(z.zone_key)) {
            (Some(id), Some(name), None) => rest.push((id, name)),
            _ => rest,
        }
    }
}

pub open spec fn custom_keys(c: Seq<(Seq<char>, Seq<char>)>) -> Seq<(int, Seq<char>)> {
    c.map_values(|x: (Seq<char>, Seq<char>)| (0int, x.0))
}

/// The zones made by hand, numbered `CUSTOM1`, `CUSTOM2`, … in the order
/// given (that of their ids, which begin with their creation time).
pub open spec fn numbered(c: Seq<(Seq<char>, Seq<char>)>, order: Seq<usize>) -> Seq<TokenView> {
    Seq::new(
        c.len(),
        |i: int| (c[order[i] as int].0, "CUSTOM"@ + decimal(i + 1), c[order[i] as int].1),
    )
}

fn known_token_exec(key: &String) -> (r: String)
    ensures
        r@ == known_token(key@),
{
    let k = chars_of(key.as_str());
    if same_str(k.as_slice(), "internal") {
        "LAN".to_string()
    } else if same_str(k.as_slice(), "external") {
        "WAN".to_string()
    } else if same_str(k.as_slice(), "gateway") {
        "LOCAL".to_string()
    } else {
        to_uppercase(key.as_str())
    }
}

/// The tokens of the zones: those of the predefined zones, in order, then
/// the zones made by hand numbered in the order of their ids.
pub fn zone_tokens(zones: &[ZoneConf]) -> (r: Vec<ZoneToken>)
    ensures
        tokens_view(r@) == keyed_tokens(zones_view(zones@)) + numbered(
            custom_zones(zones_view(zones@)),
            stable_sorted(custom_keys(custom_zones(zones_view(zones@)))),
        ),
{
    let ghost zv = zones_view(zones@);
    let mut out: Vec<ZoneToken> = Vec::new();
    let mut customs: Vec<(String, String)> = Vec::new();
    let mut i: usize = 0;
    while i < zones.len()
        invariant
            0 <= i <= zones@.len(),
            zv == zones_view(zones@),
            tokens_view(out@) == keyed_tokens(zv.take(i as int)),
            pairs_view(customs@) == custom_zones(zv.take(i as int)),
        decreases zones.len() - i,
    {
        assert(zv.take(i + 1).drop_last() =~= zv.take(i as int));
        assert(zv[i as int] == zones@[i as int]@);
        let z = &zones[i];
        match (present(&z.id), present(&z.name)) {
            (Some(id), Some(name)) => match present(&z.zone_key) {
                Some(k) => {
                    let ghost before = tokens_view(out@);
                    let token = known_token_exec(&k);
                    let ghost t = (id@, token@, name@);
                    out.push(ZoneToken { id, token, name });
                    assert(tokens_view(out@) =~= before.push(t));
                },
                None => {
                    let ghost before = pairs_view(customs@);
                    let ghost c = (id@, name@);
                    customs.push((id, name));
                    assert(pairs_view(customs@) =~= before.push(c));
                },
            },
            _ => {},
        }
        i = i + 1;
    }
    assert(zv.take(zv.len() as int) =~= zv);
    let ghost cv = pairs_view(customs@);
    let mut keys: Vec<(i128, Vec<char>)> = Vec::new();
    let mut j: usize = 0;
    while j < customs.len()
        invariant
            0 <= j <= customs@.len(),
            cv == pairs_view(customs@),
            keys_view(keys@) == custom_keys(cv).take(j as int),
        decreases customs.len() - j,
    {
        let ghost before = keys@;
        keys.push((0, chars_of(customs[j].0.as_str())));
        assert(keys_view(keys@) =~= keys_view(before).push((0int, customs@[j as int].0@)));
        j = j + 1;
        assert(keys_view(keys@) =~= custom_keys(cv).take(j as int));
    }
    assert(custom_keys(cv).take(cv.len() as int) =~= custom_keys(cv));
    let order = sort_order(&keys);
    let ghost start = tokens_view(out@);
    let mut k: usize = 0;
    while k < order.len()
        invariant
            0 <= k <= order@.len(),
            cv == pairs_view(customs@),
            stable_order(custom_keys(cv), order@),
            order@ == stable_sorted(custom_keys(cv)),
            order@.len() == cv.len(),
            tokens_view(out@) == start + numbered(cv, order@).take(k as int),
        decreases order.len() - k,
    {
        let o = order[k];
        assert(o < customs@.len());
        let n: u64 = k as u64 + 1;
        let mut token = chars_of("CUSTOM");
        let d = digits_exec(n);
        assert(d@ == decimal(k + 1));
        append_chars(&mut token, d.as_slice());
        let ghost before = tokens_view(out@);
        let z = ZoneToken {
            id: customs[o].0.clone(),
            token: string_from(token.as_slice()),
            name: customs[o].1.clone(),
        };
        assert((z.id@, z.token@, z.name@) == numbered(cv, order@)[k as int]);
        out.push(z);
        assert(tokens_view(out@) =~= before.push(numbered(cv, order@)[k as int]));
        k = k + 1;
        assert(tokens_view(out@) =~= start + numbered(cv, order@).take(k as int));
    }
    assert(numbered(cv, order@).take(order@.len() as int) =~= numbered(cv, order@));
    out
}

/// The token and name of a zone id: the last entry for it, as a later
/// entry replaces an earlier one.
pub open spec fn token_of(toks: Seq<TokenView>, id: Seq<char>) -> Option<(Seq<char>, Seq<char>)>
    decreases toks.len(),
{
    if toks.len() == 0 {
        None
    } else if toks.last().0 == id {
        Some((toks.last().1, toks.last().2))
    } else {
        token_of(toks.drop_last(), id)
    }
}

/// The token and name of a zone id.
pub fn lookup_zone(tokens: &Vec<ZoneToken>, id: &String) -> (r: Option<(String, String)>)
    ensures
        match r {
            Some((t, n)) => token_of(tokens_view(tokens@), id@) == Some((t@, n@)),
            None => token_of(tokens_view(tokens@), id@) is None,
        },
{
    let ghost tv = tokens_view(tokens@);
    let ic = chars_of(id.as_str());
    let mut i: usize = tokens.len();
    assert(tv.take(i as int) =~= tv);
    while i > 0
        invariant
            i <= tokens@.len(),
            tv == tokens_view(tokens@),
            ic@ == id@,
            token_of(tv, id@) == token_of(tv.take(i as int), id@),
        decreases i,
    {
        let t = &tokens[i - 1];
        assert(tv.take(i as int).last() == (t.id@, t.token@, t.name@));
        assert(tv.take(i as int).drop_last() =~= tv.take(i - 1));
        if same(chars_of(t.id.as_str()).as_slice(), ic.as_slice()) {
            return Some((t.token.clone(), t.name.clone()));
        }
        i = i - 1;
    }
    None
}

/// A policy of the zone firewall (`firewall-policies`).
#[derive(Debug, Clone)]
pub struct PolicyConf {
    pub name: Option<String>,
    /// The zone id of its source.
    pub source_zone: Option<String>,
    /// The zone id of its destination.
    pub destination_zone: Option<String>,
    pub index: Option<NumberField>,
    pub action: Option<String>,
    pub predefined: Option<bool>,
}

pub struct PolicyView {
    pub name: Option<Seq<char>>,
    pub source_zone: Option<Seq<char>>,
    pub destination_zone: Option<Seq<char>>,
    pub index: Option<NumberView>,
    pub action: Option<Seq<char>>,
    pub predefined: Option<bool>,
}

impl View for PolicyConf {
    type V = PolicyView;

    open spec fn view(&self) -> PolicyView {
        PolicyView {
            name: ov(self.name),
            source_zone: ov(self.source_zone),
            destination_zone: ov(self.destination_zone),
            index: onv(self.index),
            action: ov(self.action),
            predefined: self.predefined,
        }
    }
}

/// The letter the firewall writes into a rule name for an action.
pub open spec fn action_letter_of(action: Seq<char>) -> Seq<char> {
    let u = ascii_upper(action);
    if u == "ALLOW"@ || u == "ACCEPT"@ {
        "A"@
    } else if u == "BLOCK"@ || u == "DROP"@ || u == "REJECT"@ {
        "D"@
    } else {
        "R"@
    }
}

/// The letter the firewall writes into a rule name for an action.
pub fn action_letter(action: &str) -> (r: &'static str)
    ensures
        r@ == action_letter_of(action@),
{
    let c = chars_of(action);
    let u = upper_ascii(c.as_slice());
    let u = u.as_slice();
    if same_str(u, "ALLOW") || same_str(u, "ACCEPT") {
        "A"
    } else if same_str(u, "BLOCK") || same_str(u, "DROP") || same_str(u, "REJECT") {
        "D"
    } else {
        "R"
    }
}

/// The rule name a policy logs under, `SRC_DST-L-index`: the tokens of its
/// zones, the letter of its action and its index. A policy on a zone that
/// no longer exists, or without an index, has none.
pub open spec fn policy_key_of(p: PolicyView, toks: Seq<TokenView>) -> Option<Seq<char>> {
    match (text_of(p.source_zone), text_of(p.destination_zone), number_of(p.index)) {
        (Some(s), Some(d), Some(index)) => match (token_of(toks, s), token_of(toks, d)) {
            (Some(src), Some(dst)) => Some(
                src.0 + seq!['_'] + dst.0 + seq!['-'] + action_letter_of(
                    match text_of(p.action) {
                        Some(a) => a,
                        None => Seq::empty(),
                    },
                ) + seq!['-'] + decimal(index),
            ),
            _ => None,
        },
        _ => None,
    }
}

/// The rule name a policy logs under.
pub fn policy_key(policy: &PolicyConf, tokens: &Vec<ZoneToken>) -> (r: Option<String>)
    ensures
        ov(r) == policy_key_of(policy@, tokens_view(tokens@)),
{
    let s = match present(&policy.source_zone) {
        Some(s) => s,
        None => return None,
    };
    let d = match present(&policy.destination_zone) {
        Some(d) => d,
        None => return None,
    };
    let index = match number(&policy.index) {
        Some(n) => n,
        None => return None,
    };
    let src = match lookup_zone(tokens, &s) {
        Some(x) => x,
        None => return None,
    };
    let dst = match lookup_zone(tokens, &d) {
        Some(x) => x,
        None => return None,
    };
    let action = match present(&policy.action) {
        Some(a) => a,
        None => String::new(),
    };
    let mut out = chars_of(src.0.as_str());
    out.push('_');
    append_chars(&mut out, chars_of(dst.0.as_str()).as_slice());
    out.push('-');
    append_chars(&mut out, chars_of(action_letter(action.as_str())).as_slice());
    out.push('-');
    append_chars(&mut out, chars_of(decimal_text(index).as_str()).as_slice());
    Some(string_from(out.as_slice()))
}

/// A policy as it is stored: its rule name, its name, the names of its
/// zones and whether it is predefined.
#[derive(Debug, Clone, PartialEq)]
pub struct PolicyRow {
    pub key: String,
    pub name: String,
    pub src_zone: Option<String>,
    pub dst_zone: Option<String>,
    pub predefined: bool,
}

pub struct PolicyRowView {
    pub key: Seq<char>,
    pub name: Seq<char>,
    pub src_zone: Option<Seq<char>>,
    pub dst_zone: Option<Seq<char>>,
    pub predefined: bool,
}

impl View for PolicyRow {
    type V = PolicyRowView;

    open spec fn view(&self) -> PolicyRowView {
        PolicyRowView {
            key: self.key@,
            name: self.name@,
            src_zone: ov(self.src_zone),
            dst_zone: ov(self.dst_zone),
            predefined: self.predefined,
        }
    }
}

pub open spec fn zone_name_of(toks: Seq<TokenView>, id: Option<Seq<char>>) -> Option<Seq<char>> {
    match id {
        Some(i) => match token_of(toks, i) {
            Some(t) => Some(t.1),
            None => None,
        },
        None => None,
    }
}

/// The row of a policy that has a rule name and a name of its own.
pub open spec fn policy_row_of(p: PolicyView, toks: Seq<TokenView>) -> Option<PolicyRowView> {
    match (policy_key_of(p, toks), text_of(p.name)) {
        (Some(k), Some(n)) => Some(
            PolicyRowView {
                key: k,
                name: n,
                src_zone: zone_name_of(toks, text_of(p.source_zone)),
                dst_zone: zone_name_of(toks, text_of(p.destination_zone)),
                predefined: p.predefined == Some(true),
            },
        ),
        _ => None,
    }
}

fn zone_name(tokens: &Vec<ZoneToken>, id: &Option<String>) -> (r: Option<String>)
    ensures
        ov(r) == zone_name_of(tokens_view(tokens@), text_of(ov(*id))),
{
    match present(id) {
        Some(i) => match lookup_zone(tokens, &i) {
            Some((_, n)) => Some(n),
            None => None,
        },
        None => None,
    }
}

/// The row of a policy.
pub fn policy_row(policy: &PolicyConf, tokens: &Vec<ZoneToken>) -> (r: Option<PolicyRow>)
    ensures
        match r {
            Some(row) => policy_row_of(policy@, tokens_view(tokens@)) == Some(row@),
            None => policy_row_of(policy@, tokens_view(tokens@)) is None,
        },
{
    let key = match policy_key(policy, tokens) {
        Some(k) => k,
        None => return None,
    };
    let name = match present(&policy.name) {
        Some(n) => n,
        None => return None,
    };
    Some(
        PolicyRow {
            key,
            name,
            src_zone: zone_name(tokens, &policy.source_zone),
            dst_zone: zone_name(tokens, &policy.destination_zone),
            predefined: policy.predefined == Some(true),
        },
    )
}

// ---------------------------------------------------------------------------
// Clients and devices
// ---------------------------------------------------------------------------

/// A client of the controller (`stat/sta`, or `stat/alluser` for every
/// client ever seen, which names its address `last_ip`).
#[derive(Debug, Clone)]
pub struct ClientConf {
    pub mac: Option<String>,
    pub ip: Option<String>,
    pub last_ip: Option<String>,
    pub name: Option<String>,
    pub hostname: Option<String>,
    pub oui: Option<String>,
    pub network: Option<String>,
    pub is_wired: Option<bool>,
    /// Seconds since the epoch.
    pub last_seen: Option<i64>,
}

pub struct ClientView {
    pub mac: Option<Seq<char>>,
    pub ip: Option<Seq<char>>,
    pub last_ip: Option<Seq<char>>,
    pub name: Option<Seq<char>>,
    pub hostname: Option<Seq<char>>,
    pub oui: Option<Seq<char>>,
    pub network: Option<Seq<char>>,
    pub is_wired: Option<bool>,
    pub last_seen: Option<i64>,
}

impl View for ClientConf {
    type V = ClientView;

    open spec fn view(&self) -> ClientView {
        ClientView {
            mac: ov(self.mac),
            ip: ov(self.ip),
            last_ip: ov(self.last_ip),
            name: ov(self.name),
            hostname: ov(self.hostname),
            oui: ov(self.oui),
            network: ov(self.network),
            is_wired: self.is_wired,
            last_seen: self.last_seen,
        }
    }
}

/// The sort keys of clients by when they were last seen, unknown as 0.
pub open spec fn seen_keys(cs: Seq<ClientConf>) -> Seq<(int, Seq<char>)> {
    cs.map_values(
        |c: ClientConf|
            (
                match c.last_seen {
                    Some(t) => t as int,
                    None => 0int,
                },
                Seq::<char>::empty(),
            ),
    )
}

/// The clients in the order they are written, oldest first: whoever had
/// an address last is written last and keeps it.
pub fn by_last_seen(clients: &[ClientConf]) -> (r: Vec<usize>)
    ensures
        stable_order(seen_keys(clients@), r@),
        r@ == stable_sorted(seen_keys(clients@)),
{
    let mut keys: Vec<(i128, Vec<char>)> = Vec::new();
    let mut i: usize = 0;
    while i < clients.len()
        invariant
            0 <= i <= clients@.len(),
            keys_view(keys@) == seen_keys(clients@).take(i as int),
        decreases clients.len() - i,
    {
        let t: i64 = match clients[i].last_seen {
            Some(t) => t,
            None => 0,
        };
        let ghost before = keys@;
        let e: Vec<char> = Vec::new();
        assert(e@ =~= Seq::<char>::empty());
        keys.push((t as i128, e));
        assert(keys_view(keys@) =~= keys_view(before).push((t as int, Seq::<char>::empty())));
        i = i + 1;
        assert(keys_view(keys@) =~= seen_keys(clients@).take(i as int));
    }
    assert(seen_keys(clients@).take(clients@.len() as int) =~= seen_keys(clients@));
    sort_order(&keys)
}

/// A client as it is stored.
#[derive(Debug, Clone, PartialEq)]
pub struct ClientRow {
    /// Lower-cased.
    pub mac: String,
    pub ip: Option<String>,
    pub name: Option<String>,
    pub hostname: Option<String>,
    pub oui: Option<String>,
    pub network: Option<String>,
    pub is_wired: Option<bool>,
    pub last_seen: i64,
}

pub struct ClientRowView {
    pub mac: Seq<char>,
    pub ip: Option<Seq<char>>,
    pub name: Option<Seq<char>>,
    pub hostname: Option<Seq<char>>,
    pub oui: Option<Seq<char>>,
    pub network: Option<Seq<char>>,
    pub is_wired: Option<bool>,
    pub last_seen: i64,
}

impl View for ClientRow {
    type V = ClientRowView;

    open spec fn view(&self) -> ClientRowView {
        ClientRowView {
            mac: self.mac@,
            ip: ov(self.ip),
            name: ov(self.name),
            hostname: ov(self.hostname),
            oui: ov(self.oui),
            network: ov(self.network),
            is_wired: self.is_wired,
            last_seen: self.last_seen,
        }
    }
}

/// The row of a client with a MAC address: under its current address, or
/// the last one it had.
pub open spec fn client_row_of(c: ClientView) -> Option<ClientRowView> {
    match text_of(c.mac) {
        Some(mac) => Some(
            ClientRowView {
                mac: lowercase(mac),
                ip: match text_of(c.ip) {
                    Some(ip) => Some(ip),
                    None => text_of(c.last_ip),
                },
                name: text_of(c.name),
                hostname: text_of(c.hostname),
                oui: text_of(c.oui),
                network: text_of(c.network),
                is_wired: c.is_wired,
                last_seen: match c.last_seen {
                    Some(t) => t,
                    None => 0,
                },
            },
        ),
        None => None,
    }
}

/// The row of a client.
pub fn client_row(c: &ClientConf) -> (r: Option<ClientRow>)
    ensures
        match r {
            Some(row) => client_row_of(c@) == Some(row@),
            None => client_row_of(c@) is None,
        },
{
    let mac = match present(&c.mac) {
        Some(m) => m,
        None => return None,
    };
    let ip = match present(&c.ip) {
        Some(ip) => Some(ip),
        None => present(&c.last_ip),
    };
    Some(
        ClientRow {
            mac: to_lowercase(mac.as_str()),
            ip,
            name: present(&c.name),
            hostname: present(&c.hostname),
            oui: present(&c.oui),
            network: present(&c.network),
            is_wired: c.is_wired,
            last_seen: match c.last_seen {
                Some(t) => t,
                None => 0,
            },
        },
    )
}

/// A device as it is stored.
#[derive(Debug, Clone, PartialEq)]
pub struct DeviceRow {
    /// Lower-cased.
    pub mac: String,
    pub ip: Option<String>,
    pub name: Option<String>,
    pub model: Option<String>,
    pub kind: Option<String>,
    pub version: Option<String>,
}

/// The row of a device with a MAC address.
pub fn device_row(d: &DeviceConf) -> (r: Option<DeviceRow>)
    ensures
        match r {
            Some(row) => text_of(d@.mac) matches Some(m) && row.mac@ == lowercase(m) && ov(row.ip)
                == text_of(d@.ip) && ov(row.name) == shown_name(d@.name, d@.hostname, d@.oui)
                && ov(row.model) == text_of(d@.model) && ov(row.kind) == text_of(d@.kind)
                && ov(row.version) == text_of(d@.version),
            None => text_of(d@.mac) is None,
        },
{
    let mac = match present(&d.mac) {
        Some(m) => m,
        None => return None,
    };
    Some(
        DeviceRow {
            mac: to_lowercase(mac.as_str()),
            ip: present(&d.ip),
            name: display_name(&d.name, &d.hostname, &d.oui),
            model: present(&d.model),
            kind: present(&d.kind),
            version: present(&d.version),
        },
    )
}

/// The first gateway among the devices (type `udm` or `ugw`), at or after
/// `i`.
pub open spec fn gateway_from(devs: Seq<DeviceView>, i: int) -> Option<int>
    decreases devs.len() - i,
{
    if i < 0 || i >= devs.len() {
        None
    } else if text_of(devs[i].kind) == Some("udm"@) || text_of(devs[i].kind) == Some("ugw"@) {
        Some(i)
    } else {
        gateway_from(devs, i + 1)
    }
}

/// The name of the gateway: that of the first gateway device.
pub open spec fn gateway_name_of(devs: Seq<DeviceView>) -> Option<Seq<char>> {
    match gateway_from(devs, 0) {
        Some(i) => shown_name(devs[i].name, devs[i].hostname, devs[i].oui),
        None => None,
    }
}

fn gateway_name(devices: &[DeviceConf]) -> (r: Option<String>)
    ensures
        ov(r) == gateway_name_of(devs_view(devices@)),
{
    let ghost dv = devs_view(devices@);
    let mut i: usize = 0;
    while i < devices.len()
        invariant
            0 <= i <= devices@.len(),
            dv == devs_view(devices@),
            gateway_from(dv, 0) == gateway_from(dv, i as int),
        decreases devices.len() - i,
    {
        assert(dv[i as int] == devices@[i as int]@);
        let d = &devices[i];
        let is_gw = match present(&d.kind) {
            Some(k) => {
                let kc = chars_of(k.as_str());
                same_str(kc.as_slice(), "udm") || same_str(kc.as_slice(), "ugw")
            },
            None => false,
        };
        if is_gw {
            return display_name(&d.name, &d.hostname, &d.oui);
        }
        i = i + 1;
    }
    None
}

/// The address of the gateway in a network: the address part of its
/// `ip_subnet` (`10.10.15.1/24` — the gateway is the .1), written as an
/// address is written. VPN networks for remote users have one too.
pub open spec fn gateway_ip_of(net: NetworkView) -> Option<Seq<char>> {
    let purpose = match text_of(net.purpose) {
        Some(p) => p,
        None => Seq::empty(),
    };
    if !(lan_purpose(purpose) || purpose == "remote-user-vpn"@) {
        None
    } else {
        match text_of(net.ip_subnet) {
            Some(s) => {
                let addr = trim(
                    match find_char(s, '/') {
                        Some(i) => s.take(i),
                        None => s,
                    },
                );
                match parsed_ip(addr) {
                    Some(ip) => Some(ip_text(ip)),
                    None => None,
                }
            },
            None => None,
        }
    }
}

/// The address of the gateway in a network.
pub fn gateway_ip(net: &NetworkConf) -> (r: Option<String>)
    ensures
        ov(r) == gateway_ip_of(net@),
{
    let purpose = match present(&net.purpose) {
        Some(p) => p,
        None => String::new(),
    };
    let pc = chars_of(purpose.as_str());
    let p = pc.as_slice();
    if !(same_str(p, "corporate") || same_str(p, "guest") || same_str(p, "vlan-only") || same_str(
        p,
        "remote-user-vpn",
    )) {
        return None;
    }
    let s = match present(&net.ip_subnet) {
        Some(s) => chars_of(s.as_str()),
        None => return None,
    };
    proof {
        lemma_find_char_from_bounds(s@, '/', 0);
    }
    let head = match find_char_exec(s.as_slice(), '/') {
        Some(i) => slice(s.as_slice(), 0, i),
        None => slice(s.as_slice(), 0, s.len()),
    };
    assert(s@.subrange(0, s@.len() as int) =~= s@);
    let addr = trim_exec(head.as_slice());
    match parse_ip_chars(addr.as_slice()) {
        Some(ip) => Some(crate::net::ip_to_string(ip)),
        None => None,
    }
}

/// An address with the name of what holds it and the kind of holder.
pub type AddressView = (Seq<char>, Seq<char>, Seq<char>);

pub open spec fn names_view(v: Seq<(String, String, &'static str)>) -> Seq<AddressView> {
    v.map_values(|e: (String, String, &'static str)| (e.0@, e.1@, e.2@))
}

/// The gateway's addresses in the networks, under its name.
pub open spec fn gateway_entries(nets: Seq<NetworkView>, name: Seq<char>) -> Seq<AddressView>
    decreases nets.len(),
{
    if nets.len() == 0 {
        Seq::empty()
    } else {
        let rest = gateway_entries(nets.drop_last(), name);
        match gateway_ip_of(nets.last()) {
            Some(ip) => rest.push((ip, name, "gateway"@)),
            None => rest,
        }
    }
}

/// The devices' own addresses under their names.
pub open spec fn device_entries(devs: Seq<DeviceView>) -> Seq<AddressView>
    decreases devs.len(),
{
    if devs.len() == 0 {
        Seq::empty()
    } else {
        let rest = device_entries(devs.drop_last());
        let d = devs.last();
        match (text_of(d.ip), shown_name(d.name, d.hostname, d.oui)) {
            (Some(ip), Some(n)) => rest.push((ip, n, "device"@)),
            _ => rest,
        }
    }
}

pub open spec fn client_entries(cs: Seq<(Seq<char>, Seq<char>)>) -> Seq<AddressView> {
    cs.map_values(|c: (Seq<char>, Seq<char>)| (c.0, c.1, "client"@))
}

/// Which name each address carries, in the order they are written: the
/// clients, then the gateway in each of its networks, then the devices.
/// The last one written wins: a device of the controller knows better who
/// it is than a DHCP entry for the same address.
pub open spec fn address_names_of(
    clients: Seq<(Seq<char>, Seq<char>)>,
    devs: Seq<DeviceView>,
    nets: Seq<NetworkView>,
) -> Seq<AddressView> {
    client_entries(clients) + (match gateway_name_of(devs) {
        Some(n) => gateway_entries(nets, n),
        None => Seq::empty(),
    }) + device_entries(devs)
}

/// Which name each address carries; `clients` are the known clients'
/// addresses with their names.
pub fn address_names(clients: &[(String, String)], devices: &[DeviceConf], networks: &[NetworkConf]) -> (r:
    Vec<(String, String, &'static str)>)
    ensures
        names_view(r@) == address_names_of(pairs_view(clients@), devs_view(devices@), nets_view(networks@)),
{
    let mut out: Vec<(String, String, &'static str)> = Vec::new();
    let ghost cv = pairs_view(clients@);
    let mut i: usize = 0;
    while i < clients.len()
        invariant
            0 <= i <= clients@.len(),
            cv == pairs_view(clients@),
            names_view(out@) == client_entries(cv).take(i as int),
        decreases clients.len() - i,
    {
        let ghost before = names_view(out@);
        let a = clients[i].0.clone();
        let b = clients[i].1.clone();
        assert(a@ == cv[i as int].0 && b@ == cv[i as int].1);
        out.push((a, b, "client"));
        assert(names_view(out@) =~= before.push((cv[i as int].0, cv[i as int].1, "client"@)));
        i = i + 1;
        assert(names_view(out@) =~= client_entries(cv).take(i as int));
    }
    assert(client_entries(cv).take(cv.len() as int) =~= client_entries(cv));
    let ghost after_clients = names_view(out@);
    let ghost nv = nets_view(networks@);
    match gateway_name(devices) {
        Some(name) => {
            let mut j: usize = 0;
            while j < networks.len()
                invariant
                    0 <= j <= networks@.len(),
                    nv == nets_view(networks@),
                    names_view(out@) == after_clients + gateway_entries(nv.take(j as int), name@),
                decreases networks.len() - j,
            {
                assert(nv.take(j + 1).drop_last() =~= nv.take(j as int));
                assert(nv[j as int] == networks@[j as int]@);
                let ghost before = names_view(out@);
                match gateway_ip(&networks[j]) {
                    Some(ip) => {
                        let ghost e = (ip@, name@, "gateway"@);
                        out.push((ip, name.clone(), "gateway"));
                        assert(names_view(out@) =~= before.push(e));
                    },
                    None => {},
                }
                j = j + 1;
            }
            assert(nv.take(nv.len() as int) =~= nv);
        },
        None => {},
    }
    let ghost after_gateway = names_view(out@);
    let ghost dv = devs_view(devices@);
    let mut k: usize = 0;
    while k < devices.len()
        invariant
            0 <= k <= devices@.len(),
            dv == devs_view(devices@),
            names_view(out@) == after_gateway + device_entries(dv.take(k as int)),
        decreases devices.len() - k,
    {
        assert(dv.take(k + 1).drop_last() =~= dv.take(k as int));
        assert(dv[k as int] == devices@[k as int]@);
        let d = &devices[k];
        let ghost before = names_view(out@);
        match (present(&d.ip), display_name(&d.name, &d.hostname, &d.oui)) {
            (Some(ip), Some(n)) => {
                let ghost e = (ip@, n@, "device"@);
                out.push((ip, n, "device"));
                assert(names_view(out@) =~= before.push(e));
            },
            _ => {},
        }
        k = k + 1;
    }
    assert(dv.take(dv.len() as int) =~= dv);
    out
}

// ---------------------------------------------------------------------------
// The WAN side and the networks as stored
// ---------------------------------------------------------------------------

/// The texts the devices' uplinks give in one field, in order: the first
/// uplink's, then the second's, device by device.
pub open spec fn uplink_texts(devs: Seq<DeviceView>, ip: bool) -> Seq<Seq<char>>
    decreases devs.len(),
{
    if devs.len() == 0 {
        Seq::empty()
    } else {
        let d = devs.last();
        let (a, b) = if ip {
            (d.wan1_ip, d.wan2_ip)
        } else {
            (d.wan1_ifname, d.wan2_ifname)
        };
        uplink_texts(devs.drop_last(), ip) + (match text_of(a) {
            Some(x) => seq![x],
            None => Seq::empty(),
        }) + match text_of(b) {
            Some(x) => seq![x],
            None => Seq::empty(),
        }
    }
}

/// Those texts that are addresses, each once, in the order first seen.
pub open spec fn distinct_addresses(s: Seq<Seq<char>>) -> Seq<Seq<char>>
    decreases s.len(),
{
    if s.len() == 0 {
        Seq::empty()
    } else {
        let rest = distinct_addresses(s.drop_last());
        if parsed_ip(s.last()) is Some && !rest.contains(s.last()) {
            rest.push(s.last())
        } else {
            rest
        }
    }
}

fn uplinks(devices: &[DeviceConf], ip: bool) -> (r: Vec<String>)
    ensures
        crate::sql::strs(r@) == uplink_texts(devs_view(devices@), ip),
{
    let ghost dv = devs_view(devices@);
    let mut out: Vec<String> = Vec::new();
    let mut i: usize = 0;
    while i < devices.len()
        invariant
            0 <= i <= devices@.len(),
            dv == devs_view(devices@),
            crate::sql::strs(out@) == uplink_texts(dv.take(i as int), ip),
        decreases devices.len() - i,
    {
        assert(dv.take(i + 1).drop_last() =~= dv.take(i as int));
        assert(dv[i as int] == devices@[i as int]@);
        let d = &devices[i];
        let (a, b) = if ip {
            (present(&d.wan1_ip), present(&d.wan2_ip))
        } else {
            (present(&d.wan1_ifname), present(&d.wan2_ifname))
        };
        let ghost before = crate::sql::strs(out@);
        match a {
            Some(x) => {
                let ghost xv = x@;
                out.push(x);
                assert(crate::sql::strs(out@) =~= before.push(xv));
            },
            None => {},
        }
        let ghost mid = crate::sql::strs(out@);
        match b {
            Some(x) => {
                let ghost xv = x@;
                out.push(x);
                assert(crate::sql::strs(out@) =~= mid.push(xv));
            },
            None => {},
        }
        i = i + 1;
        assert(crate::sql::strs(out@) =~= uplink_texts(dv.take(i as int), ip));
    }
    assert(dv.take(dv.len() as int) =~= dv);
    out
}

fn listed(v: &Vec<String>, x: &Vec<char>) -> (r: bool)
    ensures
        r == crate::sql::strs(v@).contains(x@),
{
    let mut i: usize = 0;
    while i < v.len()
        invariant
            0 <= i <= v@.len(),
            forall|m: int| 0 <= m < i ==> crate::sql::strs(v@)[m] != x@,
        decreases v.len() - i,
    {
        if same(chars_of(v[i].as_str()).as_slice(), x.as_slice()) {
            assert(crate::sql::strs(v@)[i as int] == x@);
            return true;
        }
        i = i + 1;
    }
    false
}

/// The WAN addresses as the gateway reports them: each uplink address that
/// is an address, once.
pub fn wan_addresses(devices: &[DeviceConf]) -> (r: Vec<String>)
    ensures
        crate::sql::strs(r@) == distinct_addresses(uplink_texts(devs_view(devices@), true)),
{
    let all = uplinks(devices, true);
    let ghost av = crate::sql::strs(all@);
    let mut out: Vec<String> = Vec::new();
    let mut i: usize = 0;
    while i < all.len()
        invariant
            0 <= i <= all@.len(),
            av == crate::sql::strs(all@),
            crate::sql::strs(out@) == distinct_addresses(av.take(i as int)),
        decreases all.len() - i,
    {
        assert(av.take(i + 1).drop_last() =~= av.take(i as int));
        assert(av[i as int] == all@[i as int]@);
        let c = chars_of(all[i].as_str());
        let valid = parse_ip_chars(c.as_slice()).is_some();
        if valid && !listed(&out, &c) {
            let ghost before = crate::sql::strs(out@);
            out.push(all[i].clone());
            assert(crate::sql::strs(out@) =~= before.push(av[i as int]));
        }
        i = i + 1;
    }
    assert(av.take(av.len() as int) =~= av);
    out
}

/// The WAN interface names as the gateway reports them, in order: only the
/// device knows which interface points to the provider.
pub fn wan_ifnames(devices: &[DeviceConf]) -> (r: Vec<String>)
    ensures
        crate::sql::strs(r@) == uplink_texts(devs_view(devices@), false),
{
    uplinks(devices, false)
}

/// A network as it is stored: the interface it appears on, its name, its
/// VLAN and its purpose.
#[derive(Debug, Clone, PartialEq)]
pub struct NetworkEntry {
    pub iface: String,
    pub name: String,
    pub vlan: Option<i32>,
    pub purpose: Option<String>,
}

pub struct EntryView {
    pub iface: Seq<char>,
    pub name: Seq<char>,
    pub vlan: Option<i32>,
    pub purpose: Option<Seq<char>>,
}

impl View for NetworkEntry {
    type V = EntryView;

    open spec fn view(&self) -> EntryView {
        EntryView { iface: self.iface@, name: self.name@, vlan: self.vlan, purpose: ov(self.purpose) }
    }
}

pub open spec fn entries_view(v: Seq<NetworkEntry>) -> Seq<EntryView> {
    v.map_values(|e: NetworkEntry| e@)
}

/// The LAN segments with a bridge and a name; the VLAN is cut to 32 bits
/// as `as i32` does.
pub open spec fn lan_entries(nets: Seq<NetworkView>) -> Seq<EntryView>
    decreases nets.len(),
{
    if nets.len() == 0 {
        Seq::empty()
    } else {
        let rest = lan_entries(nets.drop_last());
        let n = nets.last();
        match (bridge_of(n), text_of(n.name)) {
            (Some(iface), Some(name)) => rest.push(
                EntryView {
                    iface,
                    name,
                    vlan: match number_of(n.vlan) {
                        Some(v) => Some(v as i32),
                        None => None,
                    },
                    purpose: text_of(n.purpose),
                },
            ),
            _ => rest,
        }
    }
}

pub open spec fn wan_entries(p: Seq<(Seq<char>, Seq<char>)>) -> Seq<EntryView> {
    p.map_values(
        |x: (Seq<char>, Seq<char>)| EntryView { iface: x.0, name: x.1, vlan: None, purpose: Some("wan"@) },
    )
}

/// The networks as stored: the LAN segments, then the WAN interfaces.
pub open spec fn network_entries_of(nets: Seq<NetworkView>, devs: Seq<DeviceView>) -> Seq<EntryView> {
    lan_entries(nets) + wan_entries(wan_pairs(devs, nets))
}

/// The networks as stored.
pub fn network_entries(networks: &[NetworkConf], devices: &[DeviceConf]) -> (r: Vec<NetworkEntry>)
    ensures
        entries_view(r@) == network_entries_of(nets_view(networks@), devs_view(devices@)),
{
    let ghost nv = nets_view(networks@);
    let mut out: Vec<NetworkEntry> = Vec::new();
    let mut i: usize = 0;
    while i < networks.len()
        invariant
            0 <= i <= networks@.len(),
            nv == nets_view(networks@),
            entries_view(out@) == lan_entries(nv.take(i as int)),
        decreases networks.len() - i,
    {
        assert(nv.take(i + 1).drop_last() =~= nv.take(i as int));
        assert(nv[i as int] == networks@[i as int]@);
        let n = &networks[i];
        match (bridge_for(n), present(&n.name)) {
            (Some(iface), Some(name)) => {
                let vlan = match number(&n.vlan) {
                    Some(v) => Some(v as i32),
                    None => None,
                };
                let e = NetworkEntry { iface, name, vlan, purpose: present(&n.purpose) };
                let ghost before = entries_view(out@);
                let ghost ev = e@;
                out.push(e);
                assert(entries_view(out@) =~= before.push(ev));
            },
            _ => {},
        }
        i = i + 1;
    }
    assert(nv.take(nv.len() as int) =~= nv);
    let wans = wan_interfaces(devices, networks);
    let ghost start = entries_view(out@);
    let ghost wv = pairs_view(wans@);
    let mut j: usize = 0;
    while j < wans.len()
        invariant
            0 <= j <= wans@.len(),
            wv == pairs_view(wans@),
            entries_view(out@) == start + wan_entries(wv).take(j as int),
        decreases wans.len() - j,
    {
        let e = NetworkEntry {
            iface: wans[j].0.clone(),
            name: wans[j].1.clone(),
            vlan: None,
            purpose: Some("wan".to_string()),
        };
        let ghost before = entries_view(out@);
        assert(e@ == wan_entries(wv)[j as int]);
        out.push(e);
        assert(entries_view(out@) =~= before.push(wan_entries(wv)[j as int]));
        assert(wan_entries(wv).take(j + 1) =~= wan_entries(wv).take(j as int).push(wan_entries(wv)[j as int]));
        j = j + 1;
        assert(entries_view(out@) =~= start + wan_entries(wv).take(j as int));
    }
    assert(wan_entries(wv).take(wv.len() as int) =~= wan_entries(wv));
    out
}

// ---------------------------------------------------------------------------
// Talking to the controller
// ---------------------------------------------------------------------------

/// A text setting that counts: a non-empty one.
pub open spec fn set_text(v: Option<Seq<char>>) -> Seq<char> {
    match v {
        Some(t) if t.len() > 0 => t,
        _ => Seq::empty(),
    }
}

/// Controller, key and site as set, or nothing while the controller is
/// switched off or has no address.
pub open spec fn unifi_config_of(
    enabled: Option<bool>,
    url: Option<Seq<char>>,
    key: Option<Seq<char>>,
    site: Option<Seq<char>>,
) -> Option<(Seq<char>, Seq<char>, Seq<char>)> {
    if enabled != Some(true) {
        None
    } else {
        match url {
            Some(u) if u.len() > 0 => Some((u, set_text(key), set_text(site))),
            _ => None,
        }
    }
}

fn set_text_exec(v: Option<String>) -> (r: String)
    ensures
        r@ == set_text(ov(v)),
{
    match v {
        Some(t) => if chars_of(t.as_str()).len() > 0 {
            t
        } else {
            String::new()
        },
        None => String::new(),
    }
}

/// Controller, key and site as set.
pub fn unifi_config(enabled: Option<bool>, url: Option<String>, key: Option<String>, site: Option<String>) -> (r:
    Option<(String, String, String)>)
    ensures
        match r {
            Some((u, k, s)) => unifi_config_of(enabled, ov(url), ov(key), ov(site)) == Some((u@, k@, s@)),
            None => unifi_config_of(enabled, ov(url), ov(key), ov(site)) is None,
        },
{
    if enabled != Some(true) {
        return None;
    }
    let u = match url {
        Some(u) => if chars_of(u.as_str()).len() > 0 {
            u
        } else {
            return None;
        },
        None => return None,
    };
    Some((u, set_text_exec(key), set_text_exec(site)))
}

/// The site asked for: `default` where none is set.
pub fn unifi_site(site: String) -> (r: String)
    ensures
        r@ == if site@.len() == 0 {
            "default"@
        } else {
            site@
        },
{
    if chars_of(site.as_str()).len() == 0 {
        "default".to_string()
    } else {
        site
    }
}

fn join(parts: &[&str]) -> (r: String)
    ensures
        r@ == parts@.fold_left(Seq::<char>::empty(), |acc: Seq<char>, p: &str| acc + p@),
{
    let mut out: Vec<char> = Vec::new();
    let mut i: usize = 0;
    while i < parts.len()
        invariant
            0 <= i <= parts@.len(),
            out@ == parts@.take(i as int).fold_left(Seq::<char>::empty(), |acc: Seq<char>, p: &str| acc + p@),
        decreases parts.len() - i,
    {
        let c = chars_of(parts[i]);
        append_chars(&mut out, c.as_slice());
        assert(parts@.take(i + 1).drop_last() =~= parts@.take(i as int));
        i = i + 1;
    }
    assert(parts@.take(parts@.len() as int) =~= parts@);
    string_from(out.as_slice())
}

/// The two addresses of an API path: UniFi OS puts the network API behind
/// `/proxy/network`, a controller of its own does not; the first is tried
/// first. The zone firewall speaks the `v2` API under other paths.
pub open spec fn api_urls_of(base: Seq<char>, site: Seq<char>, path: Seq<char>, v2: bool) -> (Seq<char>, Seq<char>) {
    if v2 {
        (
            base + "/proxy/network/v2/api/site/"@ + site + "/"@ + path,
            base + "/v2/api/site/"@ + site + "/"@ + path,
        )
    } else {
        (base + "/proxy/network/api/s/"@ + site + "/"@ + path, base + "/api/s/"@ + site + "/"@ + path)
    }
}

/// The two addresses of an API path.
pub fn api_urls(base: &str, site: &str, path: &str, v2: bool) -> (r: (String, String))
    ensures
        (r.0@, r.1@) == api_urls_of(base@, site@, path@, v2),
{
    let (a, b) = if v2 {
        ("/proxy/network/v2/api/site/", "/v2/api/site/")
    } else {
        ("/proxy/network/api/s/", "/api/s/")
    };
    let first = join(&[base, a, site, "/", path]);
    let second = join(&[base, b, site, "/", path]);
    proof {
        reveal_with_fuel(Seq::fold_left, 6);
    }
    assert(first@ =~= base@ + a@ + site@ + "/"@ + path@);
    assert(second@ =~= base@ + b@ + site@ + "/"@ + path@);
    (first, second)
}

/// How a test of the controller settings went.
#[derive(Debug, Clone, PartialEq)]
pub enum UnifiTest {
    Connected { clients: usize, devices: usize },
    BadCredentials,
    Unreachable(String),
}

/// How a test went, from the two lists asked for: a refused key in either
/// is a credentials problem; any other failure an unreachable controller,
/// the first failure told.
pub fn unifi_test_outcome(clients: Result<usize, String>, devices: Result<usize, String>) -> (r: UnifiTest)
    ensures
        match (clients, devices) {
            (Ok(c), Ok(d)) => r == UnifiTest::Connected { clients: c, devices: d },
            _ => {
                let refused = (clients matches Err(e) && e@ == "unauthorized"@) || (devices matches Err(e)
                    && e@ == "unauthorized"@);
                if refused {
                    r is BadCredentials
                } else {
                    r matches UnifiTest::Unreachable(m) && m@ == match clients {
                        Err(e) => e@,
                        Ok(_) => match devices {
                            Err(e) => e@,
                            Ok(_) => Seq::empty(),
                        },
                    }
                }
            },
        },
{
    match (clients, devices) {
        (Ok(c), Ok(d)) => UnifiTest::Connected { clients: c, devices: d },
        (c, d) => {
            let refused_c = match &c {
                Err(e) => same_str(chars_of(e.as_str()).as_slice(), "unauthorized"),
                Ok(_) => false,
            };
            let refused_d = match &d {
                Err(e) => same_str(chars_of(e.as_str()).as_slice(), "unauthorized"),
                Ok(_) => false,
            };
            if refused_c || refused_d {
                UnifiTest::BadCredentials
            } else {
                match c {
                    Err(e) => UnifiTest::Unreachable(e),
                    Ok(_) => match d {
                        Err(e) => UnifiTest::Unreachable(e),
                        Ok(_) => UnifiTest::Unreachable(String::new()),
                    },
                }
            }
        },
    }
}

} // verus!
