//! The kinds of log lines, what the firewall did, which way traffic went,
//! and the parsed line itself.
use vstd::prelude::*;
use crate::net::IpAddress;
use crate::text::chars_of;
use crate::filters::{name_id, IdTable};

verus! {

/// What kind of line this is. The numbers are the ids stored in the
/// database: firewall 1, dns 2, dhcp 3, wifi 4, system 5.
#[derive(Debug, Clone, Copy, PartialEq, Eq, Structural)]
pub enum LogType {
    Firewall,
    Dns,
    Dhcp,
    Wifi,
    System,
}

/// What the firewall did: allow 1, block 2, redirect 3.
#[derive(Debug, Clone, Copy, PartialEq, Eq, Structural)]
pub enum RuleAction {
    Allow,
    Block,
    Redirect,
}

/// Which way the traffic went: inbound 1, outbound 2, local 3, inter_vlan 4,
/// vpn 5, nat 6.
#[derive(Debug, Clone, Copy, PartialEq, Eq, Structural)]
pub enum Direction {
    Inbound,
    Outbound,
    Local,
    InterVlan,
    Vpn,
    Nat,
}

pub open spec fn log_type_id_of(t: LogType) -> i16 {
    match t {
        LogType::Firewall => 1,
        LogType::Dns => 2,
        LogType::Dhcp => 3,
        LogType::Wifi => 4,
        LogType::System => 5,
    }
}

pub open spec fn log_type_text(t: LogType) -> Seq<char> {
    match t {
        LogType::Firewall => "firewall"@,
        LogType::Dns => "dns"@,
        LogType::Dhcp => "dhcp"@,
        LogType::Wifi => "wifi"@,
        LogType::System => "system"@,
    }
}

pub open spec fn rule_action_id_of(a: RuleAction) -> i16 {
    match a {
        RuleAction::Allow => 1,
        RuleAction::Block => 2,
        RuleAction::Redirect => 3,
    }
}

pub open spec fn rule_action_text(a: RuleAction) -> Seq<char> {
    match a {
        RuleAction::Allow => "allow"@,
        RuleAction::Block => "block"@,
        RuleAction::Redirect => "redirect"@,
    }
}

pub open spec fn direction_id_of(d: Direction) -> i16 {
    match d {
        Direction::Inbound => 1,
        Direction::Outbound => 2,
        Direction::Local => 3,
        Direction::InterVlan => 4,
        Direction::Vpn => 5,
        Direction::Nat => 6,
    }
}

pub open spec fn direction_text(d: Direction) -> Seq<char> {
    match d {
        Direction::Inbound => "inbound"@,
        Direction::Outbound => "outbound"@,
        Direction::Local => "local"@,
        Direction::InterVlan => "inter_vlan"@,
        Direction::Vpn => "vpn"@,
        Direction::Nat => "nat"@,
    }
}

impl LogType {
    /// The id stored in the database.
    pub fn id(self) -> (r: i16)
        ensures
            r == log_type_id_of(self),
    {
        match self {
            LogType::Firewall => 1,
            LogType::Dns => 2,
            LogType::Dhcp => 3,
            LogType::Wifi => 4,
            LogType::System => 5,
        }
    }

    /// The kind for a stored id, if there is one.
    pub fn from_id(id: i16) -> (r: Option<LogType>)
        ensures
            r matches Some(t) ==> log_type_id_of(t) == id,
            r is None <==> !(1 <= id <= 5),
    {
        match id {
            1 => Some(LogType::Firewall),
            2 => Some(LogType::Dns),
            3 => Some(LogType::Dhcp),
            4 => Some(LogType::Wifi),
            5 => Some(LogType::System),
            _ => None,
        }
    }

    /// The name used in the API and in filters.
    pub fn as_str(self) -> (r: &'static str)
        ensures
            r@ == log_type_text(self),
    {
        match self {
            LogType::Firewall => "firewall",
            LogType::Dns => "dns",
            LogType::Dhcp => "dhcp",
            LogType::Wifi => "wifi",
            LogType::System => "system",
        }
    }
}

impl RuleAction {
    /// The id stored in the database.
    pub fn id(self) -> (r: i16)
        ensures
            r == rule_action_id_of(self),
    {
        match self {
            RuleAction::Allow => 1,
            RuleAction::Block => 2,
            RuleAction::Redirect => 3,
        }
    }

    /// The name used in the API and in filters.
    pub fn as_str(self) -> (r: &'static str)
        ensures
            r@ == rule_action_text(self),
    {
        match self {
            RuleAction::Allow => "allow",
            RuleAction::Block => "block",
            RuleAction::Redirect => "redirect",
        }
    }
}

impl Direction {
    /// The id stored in the database.
    pub fn id(self) -> (r: i16)
        ensures
            r == direction_id_of(self),
    {
        match self {
            Direction::Inbound => 1,
            Direction::Outbound => 2,
            Direction::Local => 3,
            Direction::InterVlan => 4,
            Direction::Vpn => 5,
            Direction::Nat => 6,
        }
    }

    /// The name used in the API and in filters.
    pub fn as_str(self) -> (r: &'static str)
        ensures
            r@ == direction_text(self),
    {
        match self {
            Direction::Inbound => "inbound",
            Direction::Outbound => "outbound",
            Direction::Local => "local",
            Direction::InterVlan => "inter_vlan",
            Direction::Vpn => "vpn",
            Direction::Nat => "nat",
        }
    }
}

/// The value of one detail of a line.
#[derive(Debug, Clone, PartialEq)]
pub enum Detail {
    /// A piece of text.
    Text(String),
    /// A JSON value, written out as JSON.
    Json(String),
}

#[verifier::ext_equal]
pub enum DetailView {
    Text(Seq<char>),
    Json(Seq<char>),
}

impl View for Detail {
    type V = DetailView;

    open spec fn view(&self) -> DetailView {
        match self {
            Detail::Text(s) => DetailView::Text(s@),
            Detail::Json(s) => DetailView::Json(s@),
        }
    }
}

/// Named details of a line, each name at most once.
#[derive(Debug, Clone, PartialEq)]
pub struct FieldMap {
    pub entries: Vec<(String, Detail)>,
}

pub open spec fn entries_view(e: Seq<(String, Detail)>) -> Seq<(Seq<char>, DetailView)> {
    e.map_values(|p: (String, Detail)| (p.0@, p.1@))
}

/// The first position holding `key`.
pub open spec fn key_index_from(m: Seq<(Seq<char>, DetailView)>, key: Seq<char>, i: int) -> Option<int>
    decreases m.len() - i,
{
    if i < 0 || i >= m.len() {
        None
    } else if m[i].0 == key {
        Some(i)
    } else {
        key_index_from(m, key, i + 1)
    }
}

/// The detail stored under `key`.
pub open spec fn field_get(m: Seq<(Seq<char>, DetailView)>, key: Seq<char>) -> Option<DetailView> {
    match key_index_from(m, key, 0) {
        Some(i) => Some(m[i].1),
        None => None,
    }
}

/// The entries after `key` is set to `value`: in place where the key is
/// present, at the end where it is not.
pub open spec fn field_insert(
    m: Seq<(Seq<char>, DetailView)>,
    key: Seq<char>,
    value: DetailView,
) -> Seq<(Seq<char>, DetailView)> {
    match key_index_from(m, key, 0) {
        Some(i) => m.update(i, (key, value)),
        None => m.push((key, value)),
    }
}

proof fn lemma_key_index_bounds(m: Seq<(Seq<char>, DetailView)>, key: Seq<char>, i: int)
    requires
        0 <= i,
    ensures
        key_index_from(m, key, i) matches Some(j) ==> i <= j < m.len() && m[j].0 == key,
        key_index_from(m, key, i) is None ==> forall|k: int| i <= k < m.len() ==> m[k].0 != key,
    decreases m.len() - i,
{
    if i >= m.len() {
    } else if m[i].0 == key {
    } else {
        lemma_key_index_bounds(m, key, i + 1);
    }
}

impl View for FieldMap {
    type V = Seq<(Seq<char>, DetailView)>;

    open spec fn view(&self) -> Seq<(Seq<char>, DetailView)> {
        entries_view(self.entries@)
    }
}

impl FieldMap {
    /// No details.
    pub fn new() -> (r: FieldMap)
        ensures
            r@ == Seq::<(Seq<char>, DetailView)>::empty(),
    {
        let r = FieldMap { entries: Vec::new() };
        assert(r@ =~= Seq::<(Seq<char>, DetailView)>::empty());
        r
    }

    /// Where `key` is stored.
    fn position(&self, key: &str) -> (r: Option<usize>)
        ensures
            opt_pos(r) == key_index_from(self@, key@, 0),
            r matches Some(i) ==> i < self.entries@.len(),
    {
        proof {
            lemma_key_index_bounds(self@, key@, 0);
        }
        let mut i: usize = 0;
        while i < self.entries.len()
            invariant
                0 <= i <= self.entries@.len(),
                self@.len() == self.entries@.len(),
                key_index_from(self@, key@, 0) == key_index_from(self@, key@, i as int),
            decreases self.entries.len() - i,
        {
            let k = chars_of(self.entries[i].0.as_str());
            let w = chars_of(key);
            if crate::text::same(k.as_slice(), w.as_slice()) {
                return Some(i);
            }
            i = i + 1;
        }
        None
    }

    /// Sets `key` to `value`, replacing what was stored under it.
    pub fn insert(&mut self, key: String, value: Detail)
        ensures
            final(self)@ == field_insert(old(self)@, key@, value@),
    {
        let ghost before = self@;
        match self.position(key.as_str()) {
            Some(i) => {
                self.entries.set(i, (key, value));
                assert(self@ =~= before.update(i as int, (key@, value@)));
            },
            None => {
                self.entries.push((key, value));
                assert(self@ =~= before.push((key@, value@)));
            },
        }
    }

    /// The detail stored under `key`.
    pub fn get(&self, key: &str) -> (r: Option<&Detail>)
        ensures
            match r {
                Some(d) => field_get(self@, key@) == Some(d@),
                None => field_get(self@, key@) is None,
            },
    {
        match self.position(key) {
            Some(i) => Some(&self.entries[i].1),
            None => None,
        }
    }

    /// The text stored under `key`, if it is text.
    pub fn text(&self, key: &str) -> (r: Option<String>)
        ensures
            match r {
                Some(s) => field_get(self@, key@) == Some(DetailView::Text(s@)),
                None => !(field_get(self@, key@) matches Some(DetailView::Text(_))),
            },
    {
        match self.get(key) {
            Some(Detail::Text(s)) => Some(s.clone()),
            _ => None,
        }
    }
}

pub open spec fn opt_pos(r: Option<usize>) -> Option<int> {
    match r {
        Some(i) => Some(i as int),
        None => None,
    }
}

/// What a parser found out beyond the columns: either named details, or a
/// whole JSON document.
#[derive(Debug, Clone, PartialEq)]
pub enum Details {
    Fields(FieldMap),
    Document(String),
}

pub enum DetailsView {
    Fields(Seq<(Seq<char>, DetailView)>),
    Document(Seq<char>),
}

impl View for Details {
    type V = DetailsView;

    open spec fn view(&self) -> DetailsView {
        match self {
            Details::Fields(m) => DetailsView::Fields(m@),
            Details::Document(s) => DetailsView::Document(s@),
        }
    }
}

/// The result of a parser: plain values, no database ids yet.
#[derive(Debug, Clone, PartialEq)]
pub struct ParsedLog {
    /// Seconds since the epoch, UTC.
    pub timestamp: Option<i64>,
    pub log_type: Option<LogType>,
    pub rule_name: Option<String>,
    pub rule_desc: Option<String>,
    pub rule_action: Option<RuleAction>,
    pub direction: Option<Direction>,
    pub interface_in: Option<String>,
    pub interface_out: Option<String>,
    pub src_ip: Option<IpAddress>,
    pub dst_ip: Option<IpAddress>,
    pub src_port: Option<i32>,
    pub dst_port: Option<i32>,
    pub protocol: Option<String>,
    pub mac_address: Option<String>,
    pub hostname: Option<String>,
    pub dns_query: Option<String>,
    pub dns_type: Option<String>,
    pub dns_answer: Option<String>,
    pub dhcp_event: Option<String>,
    pub wifi_event: Option<String>,
    /// The program that wrote the line.
    pub program: Option<String>,
    /// 0 = emergency … 7 = debug.
    pub severity: Option<i16>,
    pub details: Option<Details>,
    pub raw_log: String,
}

pub open spec fn ov(o: Option<String>) -> Option<Seq<char>> {
    match o {
        Some(s) => Some(s@),
        None => None,
    }
}

pub open spec fn odv(o: Option<Details>) -> Option<DetailsView> {
    match o {
        Some(d) => Some(d@),
        None => None,
    }
}

/// A parsed line as plain values.
pub struct LogView {
    pub timestamp: Option<i64>,
    pub log_type: Option<LogType>,
    pub rule_name: Option<Seq<char>>,
    pub rule_desc: Option<Seq<char>>,
    pub rule_action: Option<RuleAction>,
    pub direction: Option<Direction>,
    pub interface_in: Option<Seq<char>>,
    pub interface_out: Option<Seq<char>>,
    pub src_ip: Option<IpAddress>,
    pub dst_ip: Option<IpAddress>,
    pub src_port: Option<i32>,
    pub dst_port: Option<i32>,
    pub protocol: Option<Seq<char>>,
    pub mac_address: Option<Seq<char>>,
    pub hostname: Option<Seq<char>>,
    pub dns_query: Option<Seq<char>>,
    pub dns_type: Option<Seq<char>>,
    pub dns_answer: Option<Seq<char>>,
    pub dhcp_event: Option<Seq<char>>,
    pub wifi_event: Option<Seq<char>>,
    pub program: Option<Seq<char>>,
    pub severity: Option<i16>,
    pub details: Option<DetailsView>,
    pub raw_log: Seq<char>,
}

impl View for ParsedLog {
    type V = LogView;

    open spec fn view(&self) -> LogView {
        LogView {
            timestamp: self.timestamp,
            log_type: self.log_type,
            rule_name: ov(self.rule_name),
            rule_desc: ov(self.rule_desc),
            rule_action: self.rule_action,
            direction: self.direction,
            interface_in: ov(self.interface_in),
            interface_out: ov(self.interface_out),
            src_ip: self.src_ip,
            dst_ip: self.dst_ip,
            src_port: self.src_port,
            dst_port: self.dst_port,
            protocol: ov(self.protocol),
            mac_address: ov(self.mac_address),
            hostname: ov(self.hostname),
            dns_query: ov(self.dns_query),
            dns_type: ov(self.dns_type),
            dns_answer: ov(self.dns_answer),
            dhcp_event: ov(self.dhcp_event),
            wifi_event: ov(self.wifi_event),
            program: ov(self.program),
            severity: self.severity,
            details: odv(self.details),
            raw_log: self.raw_log@,
        }
    }
}

/// A line of the given kind about which nothing else is known yet.
pub open spec fn blank_view(t: Option<LogType>) -> LogView {
    LogView {
        timestamp: None,
        log_type: t,
        rule_name: None,
        rule_desc: None,
        rule_action: None,
        direction: None,
        interface_in: None,
        interface_out: None,
        src_ip: None,
        dst_ip: None,
        src_port: None,
        dst_port: None,
        protocol: None,
        mac_address: None,
        hostname: None,
        dns_query: None,
        dns_type: None,
        dns_answer: None,
        dhcp_event: None,
        wifi_event: None,
        program: None,
        severity: None,
        details: None,
        raw_log: Seq::empty(),
    }
}

impl ParsedLog {
    /// A line of the given kind about which nothing else is known yet.
    pub fn blank(log_type: Option<LogType>) -> (r: ParsedLog)
        ensures
            r@ == blank_view(log_type),
    {
        let r = ParsedLog {
            timestamp: None,
            log_type,
            rule_name: None,
            rule_desc: None,
            rule_action: None,
            direction: None,
            interface_in: None,
            interface_out: None,
            src_ip: None,
            dst_ip: None,
            src_port: None,
            dst_port: None,
            protocol: None,
            mac_address: None,
            hostname: None,
            dns_query: None,
            dns_type: None,
            dns_answer: None,
            dhcp_event: None,
            wifi_event: None,
            program: None,
            severity: None,
            details: None,
            raw_log: String::new(),
        };
        assert(r@.raw_log =~= Seq::<char>::empty());
        r
    }
}

/// The names of the id tables are exactly the names the rows are shown
/// with: each log type, action and direction finds its own id by its name,
/// and a name finds an id only if it is one of those names — spelt exactly
/// so, in lower case.
pub proof fn lemma_names_and_ids_agree()
    ensures
        forall|t: LogType| #[trigger] name_id(IdTable::LogType, log_type_text(t)) == Some(log_type_id_of(t)),
        forall|a: RuleAction| #[trigger] name_id(IdTable::Action, rule_action_text(a)) == Some(rule_action_id_of(a)),
        forall|d: Direction| #[trigger] name_id(IdTable::Direction, direction_text(d)) == Some(direction_id_of(d)),
        forall|s: Seq<char>|
            #[trigger] name_id(IdTable::LogType, s) is Some ==> exists|t: LogType| s == log_type_text(t),
        forall|s: Seq<char>|
            #[trigger] name_id(IdTable::Action, s) is Some ==> exists|a: RuleAction| s == rule_action_text(a),
        forall|s: Seq<char>|
            #[trigger] name_id(IdTable::Direction, s) is Some ==> exists|d: Direction| s == direction_text(d),
{
    reveal_strlit("firewall");
    reveal_strlit("dns");
    reveal_strlit("dhcp");
    reveal_strlit("wifi");
    reveal_strlit("system");
    reveal_strlit("allow");
    reveal_strlit("block");
    reveal_strlit("redirect");
    reveal_strlit("inbound");
    reveal_strlit("outbound");
    reveal_strlit("local");
    reveal_strlit("inter_vlan");
    reveal_strlit("vpn");
    reveal_strlit("nat");
    assert forall|t: LogType| #[trigger] name_id(IdTable::LogType, log_type_text(t)) == Some(log_type_id_of(t)) by {
        match t {
            LogType::Firewall => {},
            LogType::Dns => {
                assert("dns"@[0] != "firewall"@[0]);
            },
            LogType::Dhcp => {
                assert("dhcp"@[0] != "firewall"@[0]);
                assert("dhcp"@[1] != "dns"@[1]);
            },
            LogType::Wifi => {
                assert("wifi"@[0] != "firewall"@[0]);
                assert("wifi"@[0] != "dns"@[0]);
                assert("wifi"@[0] != "dhcp"@[0]);
            },
            LogType::System => {
                assert("system"@[0] != "firewall"@[0]);
                assert("system"@[0] != "dns"@[0]);
                assert("system"@[0] != "dhcp"@[0]);
                assert("system"@[0] != "wifi"@[0]);
            },
        }
    }
    assert forall|a: RuleAction| #[trigger] name_id(IdTable::Action, rule_action_text(a)) == Some(rule_action_id_of(a)) by {
        match a {
            RuleAction::Allow => {},
            RuleAction::Block => {
                assert("block"@[0] != "allow"@[0]);
            },
            RuleAction::Redirect => {
                assert("redirect"@[0] != "allow"@[0]);
                assert("redirect"@[0] != "block"@[0]);
            },
        }
    }
    assert forall|d: Direction| #[trigger] name_id(IdTable::Direction, direction_text(d)) == Some(direction_id_of(d)) by {
        match d {
            Direction::Inbound => {},
            Direction::Outbound => {
                assert("outbound"@[0] != "inbound"@[0]);
            },
            Direction::Local => {
                assert("local"@[0] != "inbound"@[0]);
                assert("local"@[0] != "outbound"@[0]);
            },
            Direction::InterVlan => {
                assert("inter_vlan"@[2] != "inbound"@[2]);
                assert("inter_vlan"@[0] != "outbound"@[0]);
                assert("inter_vlan"@[0] != "local"@[0]);
            },
            Direction::Vpn => {
                assert("vpn"@[0] != "inbound"@[0]);
                assert("vpn"@[0] != "outbound"@[0]);
                assert("vpn"@[0] != "local"@[0]);
                assert("vpn"@[0] != "inter_vlan"@[0]);
            },
            Direction::Nat => {
                assert("nat"@[0] != "inbound"@[0]);
                assert("nat"@[0] != "outbound"@[0]);
                assert("nat"@[0] != "local"@[0]);
                assert("nat"@[0] != "inter_vlan"@[0]);
                assert("nat"@[0] != "vpn"@[0]);
            },
        }
    }
    assert forall|s: Seq<char>| #[trigger] name_id(IdTable::LogType, s) is Some implies exists|t: LogType|
        s == log_type_text(t) by {
        if s == "firewall"@ {
            assert(s == log_type_text(LogType::Firewall));
        } else if s == "dns"@ {
            assert(s == log_type_text(LogType::Dns));
        } else if s == "dhcp"@ {
            assert(s == log_type_text(LogType::Dhcp));
        } else if s == "wifi"@ {
            assert(s == log_type_text(LogType::Wifi));
        } else {
            assert(s == log_type_text(LogType::System));
        }
    }
    assert forall|s: Seq<char>| #[trigger] name_id(IdTable::Action, s) is Some implies exists|a: RuleAction|
        s == rule_action_text(a) by {
        if s == "allow"@ {
            assert(s == rule_action_text(RuleAction::Allow));
        } else if s == "block"@ {
            assert(s == rule_action_text(RuleAction::Block));
        } else {
            assert(s == rule_action_text(RuleAction::Redirect));
        }
    }
    assert forall|s: Seq<char>| #[trigger] name_id(IdTable::Direction, s) is Some implies exists|d: Direction|
        s == direction_text(d) by {
        if s == "inbound"@ {
            assert(s == direction_text(Direction::Inbound));
        } else if s == "outbound"@ {
            assert(s == direction_text(Direction::Outbound));
        } else if s == "local"@ {
            assert(s == direction_text(Direction::Local));
        } else if s == "inter_vlan"@ {
            assert(s == direction_text(Direction::InterVlan));
        } else if s == "vpn"@ {
            assert(s == direction_text(Direction::Vpn));
        } else {
            assert(s == direction_text(Direction::Nat));
        }
    }
}

} // verus!
