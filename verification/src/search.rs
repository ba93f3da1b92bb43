//! The search box: it takes whatever one knows — an address, a network, a
//! port, a MAC, a word — and works out what it is, so that an address is
//! compared exactly rather than as text.
use vstd::prelude::*;
use crate::net::{
    network_new, network_wf, parse_ip_chars, parse_network_chars, parsed_ip, parsed_network,
    IpAddress, Network,
};
use crate::text::{
    chars_of, find_char, find_char_exec, is_hex, is_hex_exec, is_white, is_white_exec,
    lemma_find_char_from_bounds, lemma_nth_char_from, lemma_nth_pos_ordered, lowercase,
    nth_char_from, nth_char_from_exec, parse_i32, parse_int, parse_u32, parse_u8, same_str,
    slice, string_from, to_lowercase, trim, trim_bounds,
};

verus! {

/// The field a search term is scoped to.
#[derive(Debug, Clone, Copy, PartialEq, Eq, Structural)]
pub enum Field {
    SrcIp,
    DstIp,
    AnyIp,
    Port,
    SrcPort,
    DstPort,
    Rule,
    Country,
    Asn,
    Protocol,
    Interface,
    Host,
    Action,
    LogType,
    Program,
    Severity,
}

/// What a search term turned out to be.
#[derive(Debug, Clone, PartialEq)]
pub enum Value {
    Ip(IpAddress),
    Cidr(Network),
    Port(i32),
    Mac(String),
    /// An autonomous system number, from `asn:<number>`.
    Asn(u32),
    Text(String),
}

pub enum ValueView {
    Ip(IpAddress),
    Cidr(Network),
    Port(i32),
    Mac(Seq<char>),
    Asn(u32),
    Text(Seq<char>),
}

impl View for Value {
    type V = ValueView;

    open spec fn view(&self) -> ValueView {
        match self {
            Value::Ip(a) => ValueView::Ip(*a),
            Value::Cidr(n) => ValueView::Cidr(*n),
            Value::Port(p) => ValueView::Port(*p),
            Value::Mac(m) => ValueView::Mac(m@),
            Value::Asn(n) => ValueView::Asn(*n),
            Value::Text(t) => ValueView::Text(t@),
        }
    }
}

/// One term of a search.
#[derive(Debug, Clone, PartialEq)]
pub struct Term {
    pub value: Value,
    pub field: Option<Field>,
    pub negated: bool,
    /// The text holds `*` and is compared as a pattern.
    pub glob: bool,
}

pub struct TermView {
    pub value: ValueView,
    pub field: Option<Field>,
    pub negated: bool,
    pub glob: bool,
}

impl View for Term {
    type V = TermView;

    open spec fn view(&self) -> TermView {
        TermView { value: self.value@, field: self.field, negated: self.negated, glob: self.glob }
    }
}

/// A network in a term has a prefix that fits its family.
pub open spec fn term_wf(t: TermView) -> bool {
    t.value matches ValueView::Cidr(n) ==> network_wf(n)
}

/// The field a prefix names.
pub open spec fn field_of(p: Seq<char>) -> Option<Field> {
    if p == "src"@ || p == "source"@ {
        Some(Field::SrcIp)
    } else if p == "dst"@ || p == "dest"@ {
        Some(Field::DstIp)
    } else if p == "ip"@ {
        Some(Field::AnyIp)
    } else if p == "port"@ {
        Some(Field::Port)
    } else if p == "sport"@ {
        Some(Field::SrcPort)
    } else if p == "dport"@ {
        Some(Field::DstPort)
    } else if p == "rule"@ {
        Some(Field::Rule)
    } else if p == "country"@ {
        Some(Field::Country)
    } else if p == "asn"@ {
        Some(Field::Asn)
    } else if p == "proto"@ || p == "protocol"@ {
        Some(Field::Protocol)
    } else if p == "iface"@ || p == "interface"@ {
        Some(Field::Interface)
    } else if p == "host"@ || p == "hostname"@ {
        Some(Field::Host)
    } else if p == "action"@ {
        Some(Field::Action)
    } else if p == "type"@ {
        Some(Field::LogType)
    } else if p == "prog"@ || p == "program"@ {
        Some(Field::Program)
    } else if p == "sev"@ || p == "severity"@ {
        Some(Field::Severity)
    } else {
        None
    }
}

proof fn lemma_prefixes_differ()
    ensures
        "src"@ != "source"@,
        "src"@ != "dst"@,
        "src"@ != "dest"@,
        "src"@ != "ip"@,
        "src"@ != "port"@,
        "src"@ != "sport"@,
        "src"@ != "dport"@,
        "src"@ != "rule"@,
        "src"@ != "country"@,
        "src"@ != "asn"@,
        "src"@ != "proto"@,
        "src"@ != "protocol"@,
        "src"@ != "iface"@,
        "src"@ != "interface"@,
        "src"@ != "host"@,
        "src"@ != "hostname"@,
        "src"@ != "action"@,
        "src"@ != "type"@,
        "src"@ != "prog"@,
        "src"@ != "program"@,
        "src"@ != "sev"@,
        "src"@ != "severity"@,
        "source"@ != "dst"@,
        "source"@ != "dest"@,
        "source"@ != "ip"@,
        "source"@ != "port"@,
        "source"@ != "sport"@,
        "source"@ != "dport"@,
        "source"@ != "rule"@,
        "source"@ != "country"@,
        "source"@ != "asn"@,
        "source"@ != "proto"@,
        "source"@ != "protocol"@,
        "source"@ != "iface"@,
        "source"@ != "interface"@,
        "source"@ != "host"@,
        "source"@ != "hostname"@,
        "source"@ != "action"@,
        "source"@ != "type"@,
        "source"@ != "prog"@,
        "source"@ != "program"@,
        "source"@ != "sev"@,
        "source"@ != "severity"@,
        "dst"@ != "dest"@,
        "dst"@ != "ip"@,
        "dst"@ != "port"@,
        "dst"@ != "sport"@,
        "dst"@ != "dport"@,
        "dst"@ != "rule"@,
        "dst"@ != "country"@,
        "dst"@ != "asn"@,
        "dst"@ != "proto"@,
        "dst"@ != "protocol"@,
        "dst"@ != "iface"@,
        "dst"@ != "interface"@,
        "dst"@ != "host"@,
        "dst"@ != "hostname"@,
        "dst"@ != "action"@,
        "dst"@ != "type"@,
        "dst"@ != "prog"@,
        "dst"@ != "program"@,
        "dst"@ != "sev"@,
        "dst"@ != "severity"@,
        "dest"@ != "ip"@,
        "dest"@ != "port"@,
        "dest"@ != "sport"@,
        "dest"@ != "dport"@,
        "dest"@ != "rule"@,
        "dest"@ != "country"@,
        "dest"@ != "asn"@,
        "dest"@ != "proto"@,
        "dest"@ != "protocol"@,
        "dest"@ != "iface"@,
        "dest"@ != "interface"@,
        "dest"@ != "host"@,
        "dest"@ != "hostname"@,
        "dest"@ != "action"@,
        "dest"@ != "type"@,
        "dest"@ != "prog"@,
        "dest"@ != "program"@,
        "dest"@ != "sev"@,
        "dest"@ != "severity"@,
        "ip"@ != "port"@,
        "ip"@ != "sport"@,
        "ip"@ != "dport"@,
        "ip"@ != "rule"@,
        "ip"@ != "country"@,
        "ip"@ != "asn"@,
        "ip"@ != "proto"@,
        "ip"@ != "protocol"@,
        "ip"@ != "iface"@,
        "ip"@ != "interface"@,
        "ip"@ != "host"@,
        "ip"@ != "hostname"@,
        "ip"@ != "action"@,
        "ip"@ != "type"@,
        "ip"@ != "prog"@,
        "ip"@ != "program"@,
        "ip"@ != "sev"@,
        "ip"@ != "severity"@,
        "port"@ != "sport"@,
        "port"@ != "dport"@,
        "port"@ != "rule"@,
        "port"@ != "country"@,
        "port"@ != "asn"@,
        "port"@ != "proto"@,
        "port"@ != "protocol"@,
        "port"@ != "iface"@,
        "port"@ != "interface"@,
        "port"@ != "host"@,
        "port"@ != "hostname"@,
        "port"@ != "action"@,
        "port"@ != "type"@,
        "port"@ != "prog"@,
        "port"@ != "program"@,
        "port"@ != "sev"@,
        "port"@ != "severity"@,
        "sport"@ != "dport"@,
        "sport"@ != "rule"@,
        "sport"@ != "country"@,
        "sport"@ != "asn"@,
        "sport"@ != "proto"@,
        "sport"@ != "protocol"@,
        "sport"@ != "iface"@,
        "sport"@ != "interface"@,
        "sport"@ != "host"@,
        "sport"@ != "hostname"@,
        "sport"@ != "action"@,
        "sport"@ != "type"@,
        "sport"@ != "prog"@,
        "sport"@ != "program"@,
        "sport"@ != "sev"@,
        "sport"@ != "severity"@,
        "dport"@ != "rule"@,
        "dport"@ != "country"@,
        "dport"@ != "asn"@,
        "dport"@ != "proto"@,
        "dport"@ != "protocol"@,
        "dport"@ != "iface"@,
        "dport"@ != "interface"@,
        "dport"@ != "host"@,
        "dport"@ != "hostname"@,
        "dport"@ != "action"@,
        "dport"@ != "type"@,
        "dport"@ != "prog"@,
        "dport"@ != "program"@,
        "dport"@ != "sev"@,
        "dport"@ != "severity"@,
        "rule"@ != "country"@,
        "rule"@ != "asn"@,
        "rule"@ != "proto"@,
        "rule"@ != "protocol"@,
        "rule"@ != "iface"@,
        "rule"@ != "interface"@,
        "rule"@ != "host"@,
        "rule"@ != "hostname"@,
        "rule"@ != "action"@,
        "rule"@ != "type"@,
        "rule"@ != "prog"@,
        "rule"@ != "program"@,
        "rule"@ != "sev"@,
        "rule"@ != "severity"@,
        "country"@ != "asn"@,
        "country"@ != "proto"@,
        "country"@ != "protocol"@,
        "country"@ != "iface"@,
        "country"@ != "interface"@,
        "country"@ != "host"@,
        "country"@ != "hostname"@,
        "country"@ != "action"@,
        "country"@ != "type"@,
        "country"@ != "prog"@,
        "country"@ != "program"@,
        "country"@ != "sev"@,
        "country"@ != "severity"@,
        "asn"@ != "proto"@,
        "asn"@ != "protocol"@,
        "asn"@ != "iface"@,
        "asn"@ != "interface"@,
        "asn"@ != "host"@,
        "asn"@ != "hostname"@,
        "asn"@ != "action"@,
        "asn"@ != "type"@,
        "asn"@ != "prog"@,
        "asn"@ != "program"@,
        "asn"@ != "sev"@,
        "asn"@ != "severity"@,
        "proto"@ != "protocol"@,
        "proto"@ != "iface"@,
        "proto"@ != "interface"@,
        "proto"@ != "host"@,
        "proto"@ != "hostname"@,
        "proto"@ != "action"@,
        "proto"@ != "type"@,
        "proto"@ != "prog"@,
        "proto"@ != "program"@,
        "proto"@ != "sev"@,
        "proto"@ != "severity"@,
        "protocol"@ != "iface"@,
        "protocol"@ != "interface"@,
        "protocol"@ != "host"@,
        "protocol"@ != "hostname"@,
        "protocol"@ != "action"@,
        "protocol"@ != "type"@,
        "protocol"@ != "prog"@,
        "protocol"@ != "program"@,
        "protocol"@ != "sev"@,
        "protocol"@ != "severity"@,
        "iface"@ != "interface"@,
        "iface"@ != "host"@,
        "iface"@ != "hostname"@,
        "iface"@ != "action"@,
        "iface"@ != "type"@,
        "iface"@ != "prog"@,
        "iface"@ != "program"@,
        "iface"@ != "sev"@,
        "iface"@ != "severity"@,
        "interface"@ != "host"@,
        "interface"@ != "hostname"@,
        "interface"@ != "action"@,
        "interface"@ != "type"@,
        "interface"@ != "prog"@,
        "interface"@ != "program"@,
        "interface"@ != "sev"@,
        "interface"@ != "severity"@,
        "host"@ != "hostname"@,
        "host"@ != "action"@,
        "host"@ != "type"@,
        "host"@ != "prog"@,
        "host"@ != "program"@,
        "host"@ != "sev"@,
        "host"@ != "severity"@,
        "hostname"@ != "action"@,
        "hostname"@ != "type"@,
        "hostname"@ != "prog"@,
        "hostname"@ != "program"@,
        "hostname"@ != "sev"@,
        "hostname"@ != "severity"@,
        "action"@ != "type"@,
        "action"@ != "prog"@,
        "action"@ != "program"@,
        "action"@ != "sev"@,
        "action"@ != "severity"@,
        "type"@ != "prog"@,
        "type"@ != "program"@,
        "type"@ != "sev"@,
        "type"@ != "severity"@,
        "prog"@ != "program"@,
        "prog"@ != "sev"@,
        "prog"@ != "severity"@,
        "program"@ != "sev"@,
        "program"@ != "severity"@,
        "sev"@ != "severity"@,
{
    reveal_strlit("src");
    reveal_strlit("source");
    reveal_strlit("dst");
    reveal_strlit("dest");
    reveal_strlit("ip");
    reveal_strlit("port");
    reveal_strlit("sport");
    reveal_strlit("dport");
    reveal_strlit("rule");
    reveal_strlit("country");
    reveal_strlit("asn");
    reveal_strlit("proto");
    reveal_strlit("protocol");
    reveal_strlit("iface");
    reveal_strlit("interface");
    reveal_strlit("host");
    reveal_strlit("hostname");
    reveal_strlit("action");
    reveal_strlit("type");
    reveal_strlit("prog");
    reveal_strlit("program");
    reveal_strlit("sev");
    reveal_strlit("severity");
    assert("src"@.len() != "source"@.len());
    assert("src"@[0] != "dst"@[0]);
    assert("src"@.len() != "dest"@.len());
    assert("src"@.len() != "ip"@.len());
    assert("src"@.len() != "port"@.len());
    assert("src"@.len() != "sport"@.len());
    assert("src"@.len() != "dport"@.len());
    assert("src"@.len() != "rule"@.len());
    assert("src"@.len() != "country"@.len());
    assert("src"@[0] != "asn"@[0]);
    assert("src"@.len() != "proto"@.len());
    assert("src"@.len() != "protocol"@.len());
    assert("src"@.len() != "iface"@.len());
    assert("src"@.len() != "interface"@.len());
    assert("src"@.len() != "host"@.len());
    assert("src"@.len() != "hostname"@.len());
    assert("src"@.len() != "action"@.len());
    assert("src"@.len() != "type"@.len());
    assert("src"@.len() != "prog"@.len());
    assert("src"@.len() != "program"@.len());
    assert("src"@[1] != "sev"@[1]);
    assert("src"@.len() != "severity"@.len());
    assert("source"@.len() != "dst"@.len());
    assert("source"@.len() != "dest"@.len());
    assert("source"@.len() != "ip"@.len());
    assert("source"@.len() != "port"@.len());
    assert("source"@.len() != "sport"@.len());
    assert("source"@.len() != "dport"@.len());
    assert("source"@.len() != "rule"@.len());
    assert("source"@.len() != "country"@.len());
    assert("source"@.len() != "asn"@.len());
    assert("source"@.len() != "proto"@.len());
    assert("source"@.len() != "protocol"@.len());
    assert("source"@.len() != "iface"@.len());
    assert("source"@.len() != "interface"@.len());
    assert("source"@.len() != "host"@.len());
    assert("source"@.len() != "hostname"@.len());
    assert("source"@[0] != "action"@[0]);
    assert("source"@.len() != "type"@.len());
    assert("source"@.len() != "prog"@.len());
    assert("source"@.len() != "program"@.len());
    assert("source"@.len() != "sev"@.len());
    assert("source"@.len() != "severity"@.len());
    assert("dst"@.len() != "dest"@.len());
    assert("dst"@.len() != "ip"@.len());
    assert("dst"@.len() != "port"@.len());
    assert("dst"@.len() != "sport"@.len());
    assert("dst"@.len() != "dport"@.len());
    assert("dst"@.len() != "rule"@.len());
    assert("dst"@.len() != "country"@.len());
    assert("dst"@[0] != "asn"@[0]);
    assert("dst"@.len() != "proto"@.len());
    assert("dst"@.len() != "protocol"@.len());
    assert("dst"@.len() != "iface"@.len());
    assert("dst"@.len() != "interface"@.len());
    assert("dst"@.len() != "host"@.len());
    assert("dst"@.len() != "hostname"@.len());
    assert("dst"@.len() != "action"@.len());
    assert("dst"@.len() != "type"@.len());
    assert("dst"@.len() != "prog"@.len());
    assert("dst"@.len() != "program"@.len());
    assert("dst"@[0] != "sev"@[0]);
    assert("dst"@.len() != "severity"@.len());
    assert("dest"@.len() != "ip"@.len());
    assert("dest"@[0] != "port"@[0]);
    assert("dest"@.len() != "sport"@.len());
    assert("dest"@.len() != "dport"@.len());
    assert("dest"@[0] != "rule"@[0]);
    assert("dest"@.len() != "country"@.len());
    assert("dest"@.len() != "asn"@.len());
    assert("dest"@.len() != "proto"@.len());
    assert("dest"@.len() != "protocol"@.len());
    assert("dest"@.len() != "iface"@.len());
    assert("dest"@.len() != "interface"@.len());
    assert("dest"@[0] != "host"@[0]);
    assert("dest"@.len() != "hostname"@.len());
    assert("dest"@.len() != "action"@.len());
    assert("dest"@[0] != "type"@[0]);
    assert("dest"@[0] != "prog"@[0]);
    assert("dest"@.len() != "program"@.len());
    assert("dest"@.len() != "sev"@.len());
    assert("dest"@.len() != "severity"@.len());
    assert("ip"@.len() != "port"@.len());
    assert("ip"@.len() != "sport"@.len());
    assert("ip"@.len() != "dport"@.len());
    assert("ip"@.len() != "rule"@.len());
    assert("ip"@.len() != "country"@.len());
    assert("ip"@.len() != "asn"@.len());
    assert("ip"@.len() != "proto"@.len());
    assert("ip"@.len() != "protocol"@.len());
    assert("ip"@.len() != "iface"@.len());
    assert("ip"@.len() != "interface"@.len());
    assert("ip"@.len() != "host"@.len());
    assert("ip"@.len() != "hostname"@.len());
    assert("ip"@.len() != "action"@.len());
    assert("ip"@.len() != "type"@.len());
    assert("ip"@.len() != "prog"@.len());
    assert("ip"@.len() != "program"@.len());
    assert("ip"@.len() != "sev"@.len());
    assert("ip"@.len() != "severity"@.len());
    assert("port"@.len() != "sport"@.len());
    assert("port"@.len() != "dport"@.len());
    assert("port"@[0] != "rule"@[0]);
    assert("port"@.len() != "country"@.len());
    assert("port"@.len() != "asn"@.len());
    assert("port"@.len() != "proto"@.len());
    assert("port"@.len() != "protocol"@.len());
    assert("port"@.len() != "iface"@.len());
    assert("port"@.len() != "interface"@.len());
    assert("port"@[0] != "host"@[0]);
    assert("port"@.len() != "hostname"@.len());
    assert("port"@.len() != "action"@.len());
    assert("port"@[0] != "type"@[0]);
    assert("port"@[1] != "prog"@[1]);
    assert("port"@.len() != "program"@.len());
    assert("port"@.len() != "sev"@.len());
    assert("port"@.len() != "severity"@.len());
    assert("sport"@[0] != "dport"@[0]);
    assert("sport"@.len() != "rule"@.len());
    assert("sport"@.len() != "country"@.len());
    assert("sport"@.len() != "asn"@.len());
    assert("sport"@[0] != "proto"@[0]);
    assert("sport"@.len() != "protocol"@.len());
    assert("sport"@[0] != "iface"@[0]);
    assert("sport"@.len() != "interface"@.len());
    assert("sport"@.len() != "host"@.len());
    assert("sport"@.len() != "hostname"@.len());
    assert("sport"@.len() != "action"@.len());
    assert("sport"@.len() != "type"@.len());
    assert("sport"@.len() != "prog"@.len());
    assert("sport"@.len() != "program"@.len());
    assert("sport"@.len() != "sev"@.len());
    assert("sport"@.len() != "severity"@.len());
    assert("dport"@.len() != "rule"@.len());
    assert("dport"@.len() != "country"@.len());
    assert("dport"@.len() != "asn"@.len());
    assert("dport"@[0] != "proto"@[0]);
    assert("dport"@.len() != "protocol"@.len());
    assert("dport"@[0] != "iface"@[0]);
    assert("dport"@.len() != "interface"@.len());
    assert("dport"@.len() != "host"@.len());
    assert("dport"@.len() != "hostname"@.len());
    assert("dport"@.len() != "action"@.len());
    assert("dport"@.len() != "type"@.len());
    assert("dport"@.len() != "prog"@.len());
    assert("dport"@.len() != "program"@.len());
    assert("dport"@.len() != "sev"@.len());
    assert("dport"@.len() != "severity"@.len());
    assert("rule"@.len() != "country"@.len());
    assert("rule"@.len() != "asn"@.len());
    assert("rule"@.len() != "proto"@.len());
    assert("rule"@.len() != "protocol"@.len());
    assert("rule"@.len() != "iface"@.len());
    assert("rule"@.len() != "interface"@.len());
    assert("rule"@[0] != "host"@[0]);
    assert("rule"@.len() != "hostname"@.len());
    assert("rule"@.len() != "action"@.len());
    assert("rule"@[0] != "type"@[0]);
    assert("rule"@[0] != "prog"@[0]);
    assert("rule"@.len() != "program"@.len());
    assert("rule"@.len() != "sev"@.len());
    assert("rule"@.len() != "severity"@.len());
    assert("country"@.len() != "asn"@.len());
    assert("country"@.len() != "proto"@.len());
    assert("country"@.len() != "protocol"@.len());
    assert("country"@.len() != "iface"@.len());
    assert("country"@.len() != "interface"@.len());
    assert("country"@.len() != "host"@.len());
    assert("country"@.len() != "hostname"@.len());
    assert("country"@.len() != "action"@.len());
    assert("country"@.len() != "type"@.len());
    assert("country"@.len() != "prog"@.len());
    assert("country"@[0] != "program"@[0]);
    assert("country"@.len() != "sev"@.len());
    assert("country"@.len() != "severity"@.len());
    assert("asn"@.len() != "proto"@.len());
    assert("asn"@.len() != "protocol"@.len());
    assert("asn"@.len() != "iface"@.len());
    assert("asn"@.len() != "interface"@.len());
    assert("asn"@.len() != "host"@.len());
    assert("asn"@.len() != "hostname"@.len());
    assert("asn"@.len() != "action"@.len());
    assert("asn"@.len() != "type"@.len());
    assert("asn"@.len() != "prog"@.len());
    assert("asn"@.len() != "program"@.len());
    assert("asn"@[0] != "sev"@[0]);
    assert("asn"@.len() != "severity"@.len());
    assert("proto"@.len() != "protocol"@.len());
    assert("proto"@[0] != "iface"@[0]);
    assert("proto"@.len() != "interface"@.len());
    assert("proto"@.len() != "host"@.len());
    assert("proto"@.len() != "hostname"@.len());
    assert("proto"@.len() != "action"@.len());
    assert("proto"@.len() != "type"@.len());
    assert("proto"@.len() != "prog"@.len());
    assert("proto"@.len() != "program"@.len());
    assert("proto"@.len() != "sev"@.len());
    assert("proto"@.len() != "severity"@.len());
    assert("protocol"@.len() != "iface"@.len());
    assert("protocol"@.len() != "interface"@.len());
    assert("protocol"@.len() != "host"@.len());
    assert("protocol"@[0] != "hostname"@[0]);
    assert("protocol"@.len() != "action"@.len());
    assert("protocol"@.len() != "type"@.len());
    assert("protocol"@.len() != "prog"@.len());
    assert("protocol"@.len() != "program"@.len());
    assert("protocol"@.len() != "sev"@.len());
    assert("protocol"@[0] != "severity"@[0]);
    assert("iface"@.len() != "interface"@.len());
    assert("iface"@.len() != "host"@.len());
    assert("iface"@.len() != "hostname"@.len());
    assert("iface"@.len() != "action"@.len());
    assert("iface"@.len() != "type"@.len());
    assert("iface"@.len() != "prog"@.len());
    assert("iface"@.len() != "program"@.len());
    assert("iface"@.len() != "sev"@.len());
    assert("iface"@.len() != "severity"@.len());
    assert("interface"@.len() != "host"@.len());
    assert("interface"@.len() != "hostname"@.len());
    assert("interface"@.len() != "action"@.len());
    assert("interface"@.len() != "type"@.len());
    assert("interface"@.len() != "prog"@.len());
    assert("interface"@.len() != "program"@.len());
    assert("interface"@.len() != "sev"@.len());
    assert("interface"@.len() != "severity"@.len());
    assert("host"@.len() != "hostname"@.len());
    assert("host"@.len() != "action"@.len());
    assert("host"@[0] != "type"@[0]);
    assert("host"@[0] != "prog"@[0]);
    assert("host"@.len() != "program"@.len());
    assert("host"@.len() != "sev"@.len());
    assert("host"@.len() != "severity"@.len());
    assert("hostname"@.len() != "action"@.len());
    assert("hostname"@.len() != "type"@.len());
    assert("hostname"@.len() != "prog"@.len());
    assert("hostname"@.len() != "program"@.len());
    assert("hostname"@.len() != "sev"@.len());
    assert("hostname"@[0] != "severity"@[0]);
    assert("action"@.len() != "type"@.len());
    assert("action"@.len() != "prog"@.len());
    assert("action"@.len() != "program"@.len());
    assert("action"@.len() != "sev"@.len());
    assert("action"@.len() != "severity"@.len());
    assert("type"@[0] != "prog"@[0]);
    assert("type"@.len() != "program"@.len());
    assert("type"@.len() != "sev"@.len());
    assert("type"@.len() != "severity"@.len());
    assert("prog"@.len() != "program"@.len());
    assert("prog"@.len() != "sev"@.len());
    assert("prog"@.len() != "severity"@.len());
    assert("program"@.len() != "sev"@.len());
    assert("program"@.len() != "severity"@.len());
    assert("sev"@.len() != "severity"@.len());
}

/// The address and port prefixes name their own fields, and only they do:
/// `src`/`source` the source address, `dst`/`dest` the destination address,
/// `ip` either address, `port` either port, `sport` the source port, `dport`
/// the destination port. Source and destination prefixes never name the
/// same field.
pub proof fn lemma_address_and_port_prefixes(p: Seq<char>)
    ensures
        field_of(p) == Some(Field::SrcIp) <==> (p == "src"@ || p == "source"@),
        field_of(p) == Some(Field::DstIp) <==> (p == "dst"@ || p == "dest"@),
        field_of(p) == Some(Field::AnyIp) <==> (p == "ip"@),
        field_of(p) == Some(Field::Port) <==> (p == "port"@),
        field_of(p) == Some(Field::SrcPort) <==> (p == "sport"@),
        field_of(p) == Some(Field::DstPort) <==> (p == "dport"@),
        field_of(p) == Some(Field::Rule) <==> (p == "rule"@),
        field_of(p) == Some(Field::Country) <==> (p == "country"@),
{
    lemma_prefixes_differ();
}

/// The other prefixes name their own fields, and only they do; a prefix
/// outside the list names no field.
pub proof fn lemma_other_prefixes(p: Seq<char>)
    ensures
        field_of(p) == Some(Field::Asn) <==> (p == "asn"@),
        field_of(p) == Some(Field::Protocol) <==> (p == "proto"@ || p == "protocol"@),
        field_of(p) == Some(Field::Interface) <==> (p == "iface"@ || p == "interface"@),
        field_of(p) == Some(Field::Host) <==> (p == "host"@ || p == "hostname"@),
        field_of(p) == Some(Field::Action) <==> (p == "action"@),
        field_of(p) == Some(Field::LogType) <==> (p == "type"@),
        field_of(p) == Some(Field::Program) <==> (p == "prog"@ || p == "program"@),
        field_of(p) == Some(Field::Severity) <==> (p == "sev"@ || p == "severity"@),
        field_of(p) is Some <==> (p == "src"@ || p == "source"@ || p == "dst"@ || p == "dest"@ || p == "ip"@ || p == "port"@ || p == "sport"@ || p == "dport"@ || p == "rule"@ || p == "country"@ || p == "asn"@ || p == "proto"@ || p == "protocol"@ || p == "iface"@ || p == "interface"@ || p == "host"@ || p == "hostname"@ || p == "action"@ || p == "type"@ || p == "prog"@ || p == "program"@ || p == "sev"@ || p == "severity"@),
{
    lemma_prefixes_differ();
}

/// The field a prefix names.
pub fn field_from_prefix(p: &[char]) -> (r: Option<Field>)
    ensures
        r == field_of(p@),
{
    if same_str(p, "src") || same_str(p, "source") {
        Some(Field::SrcIp)
    } else if same_str(p, "dst") || same_str(p, "dest") {
        Some(Field::DstIp)
    } else if same_str(p, "ip") {
        Some(Field::AnyIp)
    } else if same_str(p, "port") {
        Some(Field::Port)
    } else if same_str(p, "sport") {
        Some(Field::SrcPort)
    } else if same_str(p, "dport") {
        Some(Field::DstPort)
    } else if same_str(p, "rule") {
        Some(Field::Rule)
    } else if same_str(p, "country") {
        Some(Field::Country)
    } else if same_str(p, "asn") {
        Some(Field::Asn)
    } else if same_str(p, "proto") || same_str(p, "protocol") {
        Some(Field::Protocol)
    } else if same_str(p, "iface") || same_str(p, "interface") {
        Some(Field::Interface)
    } else if same_str(p, "host") || same_str(p, "hostname") {
        Some(Field::Host)
    } else if same_str(p, "action") {
        Some(Field::Action)
    } else if same_str(p, "type") {
        Some(Field::LogType)
    } else if same_str(p, "prog") || same_str(p, "program") {
        Some(Field::Program)
    } else if same_str(p, "sev") || same_str(p, "severity") {
        Some(Field::Severity)
    } else {
        None
    }
}

// ---------------------------------------------------------------------------
// Tokens
// ---------------------------------------------------------------------------

/// Splitting state after some characters: the finished tokens, the token
/// being read, and whether a quote is open.
pub open spec fn split_step(
    st: (Seq<Seq<char>>, Seq<char>, bool),
    c: char,
) -> (Seq<Seq<char>>, Seq<char>, bool) {
    let (out, cur, q) = st;
    if c == '"' {
        (out, cur, !q)
    } else if is_white(c) && !q {
        if cur.len() > 0 {
            (out.push(cur), Seq::empty(), q)
        } else {
            (out, cur, q)
        }
    } else {
        (out, cur.push(c), q)
    }
}

/// The splitting state after the first `n` characters.
pub open spec fn split_upto(s: Seq<char>, n: int) -> (Seq<Seq<char>>, Seq<char>, bool)
    decreases n,
{
    if n <= 0 {
        (Seq::empty(), Seq::empty(), false)
    } else {
        split_step(split_upto(s, n - 1), s[n - 1])
    }
}

/// The tokens of a query: split at white space, except inside `"…"`; the
/// quotes themselves go. An open quote is no error — someone is still
/// typing.
pub open spec fn tokens_of(s: Seq<char>) -> Seq<Seq<char>> {
    let (out, cur, _) = split_upto(s, s.len() as int);
    if cur.len() > 0 {
        out.push(cur)
    } else {
        out
    }
}

/// The tokens of a query.
pub fn split_tokens(s: &[char]) -> (r: Vec<Vec<char>>)
    ensures
        r@.len() == tokens_of(s@).len(),
        forall|k: int| 0 <= k < r@.len() ==> #[trigger] r@[k]@ == tokens_of(s@)[k],
{
    let mut out: Vec<Vec<char>> = Vec::new();
    let mut cur: Vec<char> = Vec::new();
    let mut in_quotes = false;
    let mut i: usize = 0;
    while i < s.len()
        invariant
            0 <= i <= s@.len(),
            split_upto(s@, i as int).0.len() == out@.len(),
            forall|k: int| 0 <= k < out@.len() ==> #[trigger] out@[k]@ == split_upto(s@, i as int).0[k],
            split_upto(s@, i as int).1 == cur@,
            split_upto(s@, i as int).2 == in_quotes,
        decreases s.len() - i,
    {
        let c = s[i];
        let ghost before = split_upto(s@, i as int);
        if c == '"' {
            in_quotes = !in_quotes;
        } else if is_white_exec(c) && !in_quotes {
            if cur.len() > 0 {
                let done = cur;
                out.push(done);
                cur = Vec::new();
                assert(cur@ =~= Seq::<char>::empty());
            }
        } else {
            cur.push(c);
        }
        i = i + 1;
        assert(split_upto(s@, i as int) == split_step(before, c));
    }
    if cur.len() > 0 {
        out.push(cur);
    }
    out
}

// ---------------------------------------------------------------------------
// What a token is
// ---------------------------------------------------------------------------

/// Two hex digits per group, six groups, separated by `:` or `-`.
pub open spec fn mac_like(t: Seq<char>) -> bool {
    &&& t.len() == 17
    &&& forall|i: int| 0 <= i < 17 ==> if i % 3 == 2 {
        t[i] == ':' || t[i] == '-'
    } else {
        is_hex(#[trigger] t[i])
    }
}

/// Whether the token is a MAC address.
pub fn is_mac(t: &[char]) -> (r: bool)
    ensures
        r == mac_like(t@),
{
    if t.len() != 17 {
        return false;
    }
    let mut i: usize = 0;
    while i < 17
        invariant
            t@.len() == 17,
            0 <= i <= 17,
            forall|j: int| 0 <= j < i ==> if j % 3 == 2 {
                t@[j] == ':' || t@[j] == '-'
            } else {
                is_hex(#[trigger] t@[j])
            },
        decreases 17 - i,
    {
        if i % 3 == 2 {
            if t[i] != ':' && t[i] != '-' {
                return false;
            }
        } else if !is_hex_exec(t[i]) {
            return false;
        }
        i = i + 1;
    }
    true
}

/// The text without trailing copies of `c`.
pub open spec fn strip_end(s: Seq<char>, c: char) -> Seq<char>
    decreases s.len(),
{
    if s.len() > 0 && s.last() == c {
        strip_end(s.drop_last(), c)
    } else {
        s
    }
}

fn strip_end_exec(s: &[char], c: char) -> (r: Vec<char>)
    ensures
        r@ == strip_end(s@, c),
{
    let mut e = s.len();
    assert(s@.take(s@.len() as int) =~= s@);
    while e > 0 && s[e - 1] == c
        invariant
            e <= s@.len(),
            strip_end(s@, c) == strip_end(s@.take(e as int), c),
        decreases e,
    {
        assert(s@.take(e as int).drop_last() =~= s@.take(e - 1));
        e = e - 1;
    }
    assert(s@.take(s@.len() as int) =~= s@);
    assert(s@.subrange(0, e as int) =~= s@.take(e as int));
    slice(s, 0, e)
}

pub open spec fn octet_of(s: Seq<char>) -> Option<int> {
    parse_int(s, false, 0, 255)
}

/// A partial IPv4 address — `10.10.30.*`, `10.10.30.` or `10.10.30` — as
/// the network it names: two or three octets, the rest zero, eight prefix
/// bits per octet given.
pub open spec fn partial_network(token: Seq<char>) -> Option<Network> {
    let t = strip_end(strip_end(token, '*'), '.');
    match (nth_char_from(t, '.', 0, 1), nth_char_from(t, '.', 0, 2), nth_char_from(t, '.', 0, 3)) {
        (Some(d1), None, None) => match (octet_of(t.subrange(0, d1)), octet_of(t.subrange(d1 + 1, t.len() as int))) {
            (Some(a), Some(b)) => Some(
                Network { addr: IpAddress::V4((a * 0x100_0000 + b * 0x1_0000) as u32), prefix: 16 },
            ),
            _ => None,
        },
        (Some(d1), Some(d2), None) => match (
            octet_of(t.subrange(0, d1)),
            octet_of(t.subrange(d1 + 1, d2)),
            octet_of(t.subrange(d2 + 1, t.len() as int)),
        ) {
            (Some(a), Some(b), Some(c)) => Some(
                Network {
                    addr: IpAddress::V4((a * 0x100_0000 + b * 0x1_0000 + c * 0x100) as u32),
                    prefix: 24,
                },
            ),
            _ => None,
        },
        _ => None,
    }
}

fn octet_exec(s: &[char]) -> (r: Option<u32>)
    ensures
        match r {
            Some(v) => octet_of(s@) == Some(v as int) && v < 256,
            None => octet_of(s@) is None,
        },
{
    match parse_u8(s) {
        Some(v) => Some(v as u32),
        None => None,
    }
}

/// A partial IPv4 address as the network it names.
pub fn prefix_to_network(token: &[char]) -> (r: Option<Network>)
    ensures
        r == partial_network(token@),
        r matches Some(n) ==> network_wf(n),
{
    let a1 = strip_end_exec(token, '*');
    let t = strip_end_exec(a1.as_slice(), '.');
    let ts = t.as_slice();
    proof {
        lemma_nth_char_from(t@, '.', 0, 1);
        lemma_nth_char_from(t@, '.', 0, 2);
        lemma_nth_char_from(t@, '.', 0, 3);
    }
    let d1 = nth_char_from_exec(ts, '.', 0, 1);
    let d2 = nth_char_from_exec(ts, '.', 0, 2);
    let d3 = nth_char_from_exec(ts, '.', 0, 3);
    match (d1, d2, d3) {
        (Some(d1), None, None) => {
            assert(d1 < ts.len());
            match (octet_exec(slice(ts, 0, d1).as_slice()), octet_exec(slice(ts, d1 + 1, ts.len()).as_slice())) {
                (Some(a), Some(b)) => network_new(crate::net::IpAddress::V4(a * 0x100_0000 + b * 0x1_0000), 16),
                _ => None,
            }
        },
        (Some(d1), Some(d2), None) => {
            proof {
                lemma_nth_pos_ordered(t@, '.', 1, 2);
            }
            assert(d2 < ts.len());
            match (
                octet_exec(slice(ts, 0, d1).as_slice()),
                octet_exec(slice(ts, d1 + 1, d2).as_slice()),
                octet_exec(slice(ts, d2 + 1, ts.len()).as_slice()),
            ) {
                (Some(a), Some(b), Some(c)) => network_new(
                    crate::net::IpAddress::V4(a * 0x100_0000 + b * 0x1_0000 + c * 0x100),
                    24,
                ),
                _ => None,
            }
        },
        _ => None,
    }
}

/// What a token is: a network (when it holds `/`), an address, a partial
/// address, a MAC (lower-cased), a port (a whole number 1..=65535), or text.
pub open spec fn typed_value(t: Seq<char>) -> ValueView {
    if find_char(t, '/') is Some && parsed_network(t) is Some {
        ValueView::Cidr(parsed_network(t).unwrap())
    } else if parsed_ip(t) is Some {
        ValueView::Ip(parsed_ip(t).unwrap())
    } else if partial_network(t) is Some {
        ValueView::Cidr(partial_network(t).unwrap())
    } else if mac_like(t) {
        ValueView::Mac(lowercase(t))
    } else {
        match parse_int(t, true, i32::MIN as int, i32::MAX as int) {
            Some(p) if 1 <= p <= 65535 => ValueView::Port(p as i32),
            _ => ValueView::Text(t),
        }
    }
}

/// What a token is.
pub fn typed(t: &[char]) -> (r: Value)
    ensures
        r@ == typed_value(t@),
        r@ matches ValueView::Cidr(n) ==> network_wf(n),
{
    if find_char_exec(t, '/').is_some() {
        if let Some(net) = parse_network_chars(t) {
            return Value::Cidr(net);
        }
    }
    if let Some(ip) = parse_ip_chars(t) {
        return Value::Ip(ip);
    }
    if let Some(net) = prefix_to_network(t) {
        return Value::Cidr(net);
    }
    if is_mac(t) {
        let s = string_from(t);
        return Value::Mac(to_lowercase(s.as_str()));
    }
    if let Some(p) = parse_i32(t) {
        if 1 <= p && p <= 65535 {
            return Value::Port(p);
        }
    }
    Value::Text(string_from(t))
}

/// A token as a search term: a leading `!` or `-` negates, a known prefix
/// before `:` scopes it to a field, `*` makes it a pattern. A bare `!` or
/// `-` is no term. Under `asn:` a whole number is the AS number.
pub open spec fn classify_spec(token: Seq<char>) -> Option<TermView> {
    let neg = token.len() > 0 && (token[0] == '!' || token[0] == '-');
    let t1 = if neg {
        token.skip(1)
    } else {
        token
    };
    if neg && t1.len() == 0 {
        None
    } else {
        let (field, t2) = match find_char(t1, ':') {
            Some(c) => {
                let f = field_of(lowercase(trim(t1.subrange(0, c))));
                let rest = t1.subrange(c + 1, t1.len() as int);
                if f is Some && rest.len() > 0 {
                    (f, rest)
                } else {
                    (None, t1)
                }
            },
            None => (None, t1),
        };
        if t2.len() == 0 {
            None
        } else {
            let value = if field == Some(Field::Asn) && parse_int(t2, false, 0, u32::MAX as int)
                is Some {
                ValueView::Asn(parse_int(t2, false, 0, u32::MAX as int).unwrap() as u32)
            } else {
                typed_value(t2)
            };
            Some(
                TermView {
                    value,
                    field,
                    negated: neg,
                    glob: find_char(t2, '*') is Some,
                },
            )
        }
    }
}

/// A token as a search term.
pub fn classify(token: &[char]) -> (r: Option<Term>)
    ensures
        match r {
            Some(t) => classify_spec(token@) == Some(t@) && term_wf(t@),
            None => classify_spec(token@) is None,
        },
{
    let neg = token.len() > 0 && (token[0] == '!' || token[0] == '-');
    let t1 = if neg {
        slice(token, 1, token.len())
    } else {
        slice(token, 0, token.len())
    };
    assert(token@.subrange(1, token@.len() as int) =~= token@.skip(1));
    assert(token@.subrange(0, token@.len() as int) =~= token@);
    if neg && t1.len() == 0 {
        return None;
    }
    proof {
        lemma_find_char_from_bounds(t1@, ':', 0);
    }
    let (field, t2) = match find_char_exec(t1.as_slice(), ':') {
        Some(c) => {
            let pre = slice(t1.as_slice(), 0, c);
            let (a, b) = trim_bounds(pre.as_slice());
            let trimmed = string_from(slice(pre.as_slice(), a, b).as_slice());
            let low = to_lowercase(trimmed.as_str());
            let lc = chars_of(low.as_str());
            let f = field_from_prefix(lc.as_slice());
            let rest = slice(t1.as_slice(), c + 1, t1.len());
            if f.is_some() && rest.len() > 0 {
                (f, rest)
            } else {
                (None, t1)
            }
        },
        None => (None, t1),
    };
    if t2.len() == 0 {
        return None;
    }
    let value = match (field, parse_u32(t2.as_slice())) {
        (Some(Field::Asn), Some(n)) => Value::Asn(n),
        _ => typed(t2.as_slice()),
    };
    let glob = find_char_exec(t2.as_slice(), '*').is_some();
    Some(Term { value, field, negated: neg, glob })
}

/// The terms of the first `n` tokens.
pub open spec fn terms_upto(toks: Seq<Seq<char>>, n: int) -> Seq<TermView>
    decreases n,
{
    if n <= 0 {
        Seq::empty()
    } else {
        match classify_spec(toks[n - 1]) {
            Some(t) => terms_upto(toks, n - 1).push(t),
            None => terms_upto(toks, n - 1),
        }
    }
}

/// The terms of a search. Blank text has none.
pub open spec fn search_terms(q: Seq<char>) -> Seq<TermView> {
    if trim(q).len() == 0 {
        Seq::empty()
    } else {
        let toks = tokens_of(q);
        terms_upto(toks, toks.len() as int)
    }
}

/// A token that is only a sign of negation, with nothing to negate.
pub open spec fn lone_sign(t: Seq<char>) -> bool {
    t == seq!['!'] || t == seq!['-']
}

/// The tokens that make a term: all but the lone signs, in order.
pub open spec fn kept_tokens(toks: Seq<Seq<char>>) -> Seq<Seq<char>>
    decreases toks.len(),
{
    if toks.len() == 0 {
        Seq::empty()
    } else if lone_sign(toks.last()) {
        kept_tokens(toks.drop_last())
    } else {
        kept_tokens(toks.drop_last()).push(toks.last())
    }
}

proof fn lemma_split_parts_nonempty(s: Seq<char>, n: int)
    requires
        0 <= n <= s.len(),
    ensures
        forall|k: int| 0 <= k < split_upto(s, n).0.len() ==> (#[trigger] split_upto(s, n).0[k]).len() > 0,
    decreases n,
{
    if n > 0 {
        lemma_split_parts_nonempty(s, n - 1);
        let before = split_upto(s, n - 1);
        assert forall|k: int| 0 <= k < split_upto(s, n).0.len() implies (#[trigger] split_upto(s, n).0[k]).len()
            > 0 by {
            if k < before.0.len() {
                assert(split_upto(s, n).0[k] == before.0[k]);
            }
        }
    }
}

/// Every token holds at least one character.
proof fn lemma_tokens_nonempty(s: Seq<char>)
    ensures
        forall|k: int| 0 <= k < tokens_of(s).len() ==> (#[trigger] tokens_of(s)[k]).len() > 0,
{
    lemma_split_parts_nonempty(s, s.len() as int);
    let (out, cur, _) = split_upto(s, s.len() as int);
    assert forall|k: int| 0 <= k < tokens_of(s).len() implies (#[trigger] tokens_of(s)[k]).len() > 0 by {
        if k < out.len() {
            assert(tokens_of(s)[k] == out[k]);
        }
    }
}

/// A token makes a term unless it is a lone sign, and the term is negated
/// exactly when the token starts with `!` or `-`.
proof fn lemma_classify_token(tok: Seq<char>)
    requires
        tok.len() > 0,
    ensures
        (classify_spec(tok) is None) == lone_sign(tok),
        classify_spec(tok) matches Some(t) ==> t.negated == (tok[0] == '!' || tok[0] == '-'),
{
    if tok.len() == 1 && (tok[0] == '!' || tok[0] == '-') {
        assert(tok =~= seq![tok[0]]);
    }
    if lone_sign(tok) {
        assert(tok.len() == 1);
    }
}

proof fn lemma_terms_upto(toks: Seq<Seq<char>>, n: int)
    requires
        0 <= n <= toks.len(),
        forall|k: int| 0 <= k < toks.len() ==> (#[trigger] toks[k]).len() > 0,
    ensures
        terms_upto(toks, n).len() == kept_tokens(toks.take(n)).len(),
        forall|i: int|
            0 <= i < terms_upto(toks, n).len() ==> classify_spec(#[trigger] kept_tokens(toks.take(n))[i]) == Some(
                terms_upto(toks, n)[i],
            ),
    decreases n,
{
    if n > 0 {
        lemma_terms_upto(toks, n - 1);
        assert(toks.take(n).drop_last() =~= toks.take(n - 1));
        assert(toks.take(n).last() == toks[n - 1]);
        lemma_classify_token(toks[n - 1]);
        let before = terms_upto(toks, n - 1);
        let kb = kept_tokens(toks.take(n - 1));
        assert forall|i: int| 0 <= i < terms_upto(toks, n).len() implies classify_spec(
            #[trigger] kept_tokens(toks.take(n))[i],
        ) == Some(terms_upto(toks, n)[i]) by {
            if i < before.len() {
                assert(kept_tokens(toks.take(n))[i] == kb[i]);
                assert(terms_upto(toks, n)[i] == before[i]);
            }
        }
    }
}

/// A search keeps one term per token, in order, but for the lone signs:
/// the terms are the tokens' terms one for one, each negated exactly when
/// its token starts with `!` or `-`; blank text has none.
pub proof fn lemma_one_term_per_token(q: Seq<char>)
    ensures
        trim(q).len() == 0 ==> search_terms(q).len() == 0,
        trim(q).len() > 0 ==> search_terms(q).len() == kept_tokens(tokens_of(q)).len(),
        trim(q).len() > 0 ==> forall|i: int|
            0 <= i < search_terms(q).len() ==> {
                let tok = #[trigger] kept_tokens(tokens_of(q))[i];
                &&& classify_spec(tok) == Some(search_terms(q)[i])
                &&& search_terms(q)[i].negated == (tok[0] == '!' || tok[0] == '-')
            },
{
    if trim(q).len() > 0 {
        let toks = tokens_of(q);
        lemma_tokens_nonempty(q);
        lemma_terms_upto(toks, toks.len() as int);
        assert(toks.take(toks.len() as int) =~= toks);
        lemma_kept_tokens_nonempty(toks);
        assert forall|i: int| 0 <= i < search_terms(q).len() implies {
            let tok = #[trigger] kept_tokens(tokens_of(q))[i];
            &&& classify_spec(tok) == Some(search_terms(q)[i])
            &&& search_terms(q)[i].negated == (tok[0] == '!' || tok[0] == '-')
        } by {
            lemma_classify_token(kept_tokens(toks)[i]);
        }
    }
}

proof fn lemma_kept_tokens_nonempty(toks: Seq<Seq<char>>)
    requires
        forall|k: int| 0 <= k < toks.len() ==> (#[trigger] toks[k]).len() > 0,
    ensures
        forall|k: int| 0 <= k < kept_tokens(toks).len() ==> (#[trigger] kept_tokens(toks)[k]).len() > 0,
    decreases toks.len(),
{
    if toks.len() > 0 {
        let d = toks.drop_last();
        assert forall|k: int| 0 <= k < d.len() implies (#[trigger] d[k]).len() > 0 by {
            assert(d[k] == toks[k]);
        }
        lemma_kept_tokens_nonempty(d);
        assert(toks.last() == toks[toks.len() - 1]);
        assert forall|k: int| 0 <= k < kept_tokens(toks).len() implies (#[trigger] kept_tokens(toks)[k]).len() > 0 by {
            if k < kept_tokens(d).len() {
                assert(kept_tokens(toks)[k] == kept_tokens(d)[k]);
            }
        }
    }
}

pub open spec fn terms_view(v: Seq<Term>) -> Seq<TermView> {
    v.map_values(|t: Term| t@)
}

/// Splits a search into its terms. Never fails.
pub fn parse_search_chars(q: &[char]) -> (r: Vec<Term>)
    ensures
        terms_view(r@) == search_terms(q@),
        forall|k: int| 0 <= k < r@.len() ==> term_wf(#[trigger] r@[k]@),
{
    let mut out: Vec<Term> = Vec::new();
    let (a, b) = trim_bounds(q);
    if a == b {
        assert(terms_view(out@) =~= Seq::<TermView>::empty());
        return out;
    }
    let toks = split_tokens(q);
    let ghost ts = tokens_of(q@);
    let mut i: usize = 0;
    while i < toks.len()
        invariant
            0 <= i <= toks@.len(),
            ts == tokens_of(q@),
            toks@.len() == ts.len(),
            forall|k: int| 0 <= k < toks@.len() ==> #[trigger] toks@[k]@ == ts[k],
            terms_view(out@) == terms_upto(ts, i as int),
            forall|k: int| 0 <= k < out@.len() ==> term_wf(#[trigger] out@[k]@),
        decreases toks.len() - i,
    {
        assert(toks@[i as int]@ == ts[i as int]);
        match classify(toks[i].as_slice()) {
            Some(t) => {
                out.push(t);
                assert(terms_view(out@) =~= terms_upto(ts, i as int).push(t@));
            },
            None => {},
        }
        i = i + 1;
    }
    out
}

/// Splits a search into its terms. Never fails.
pub fn parse_search(query: &str) -> (r: Vec<Term>)
    ensures
        terms_view(r@) == search_terms(query@),
        forall|k: int| 0 <= k < r@.len() ==> term_wf(#[trigger] r@[k]@),
{
    let q = chars_of(query);
    parse_search_chars(q.as_slice())
}

} // verus!
