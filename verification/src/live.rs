//! A row as it goes out to open live streams, right after it was written.
use vstd::prelude::*;
use crate::net::IpAddress;
use crate::enrich::{facts_empty, FactsView, IpFacts};
use crate::types::{ov, Direction, LogType, RuleAction};

verus! {

/// A row just written, as it goes out to open streams. The facts are those
/// already known of its counterpart — the rule, since the same addresses
/// come again and again; a new address goes out without, and what the
/// enrichment learns of it follows on its own.
#[derive(Debug, Clone)]
pub struct LiveRow {
    /// Seconds since the epoch, UTC.
    pub timestamp: i64,
    pub log_type: LogType,
    pub direction: Option<Direction>,
    pub rule_action: Option<RuleAction>,
    pub rule_name: Option<String>,
    pub protocol: Option<String>,
    pub iface_in: Option<String>,
    pub iface_out: Option<String>,
    pub src_ip: Option<IpAddress>,
    pub dst_ip: Option<IpAddress>,
    pub src_port: Option<i32>,
    pub dst_port: Option<i32>,
    pub mac_address: Option<String>,
    pub hostname: Option<String>,
    pub dns_query: Option<String>,
    pub dns_type: Option<String>,
    pub dns_answer: Option<String>,
    pub dhcp_event: Option<String>,
    pub wifi_event: Option<String>,
    pub raw_log: Option<String>,
    pub facts: IpFacts,
}

/// A live row as plain values.
pub struct LiveView {
    pub timestamp: i64,
    pub log_type: LogType,
    pub direction: Option<Direction>,
    pub rule_action: Option<RuleAction>,
    pub rule_name: Option<Seq<char>>,
    pub protocol: Option<Seq<char>>,
    pub iface_in: Option<Seq<char>>,
    pub iface_out: Option<Seq<char>>,
    pub src_ip: Option<IpAddress>,
    pub dst_ip: Option<IpAddress>,
    pub src_port: Option<i32>,
    pub dst_port: Option<i32>,
    pub mac_address: Option<Seq<char>>,
    pub hostname: Option<Seq<char>>,
    pub dns_query: Option<Seq<char>>,
    pub dns_type: Option<Seq<char>>,
    pub dns_answer: Option<Seq<char>>,
    pub dhcp_event: Option<Seq<char>>,
    pub wifi_event: Option<Seq<char>>,
    pub raw_log: Option<Seq<char>>,
    pub facts: FactsView,
}

impl View for LiveRow {
    type V = LiveView;

    open spec fn view(&self) -> LiveView {
        LiveView {
            timestamp: self.timestamp,
            log_type: self.log_type,
            direction: self.direction,
            rule_action: self.rule_action,
            rule_name: ov(self.rule_name),
            protocol: ov(self.protocol),
            iface_in: ov(self.iface_in),
            iface_out: ov(self.iface_out),
            src_ip: self.src_ip,
            dst_ip: self.dst_ip,
            src_port: self.src_port,
            dst_port: self.dst_port,
            mac_address: ov(self.mac_address),
            hostname: ov(self.hostname),
            dns_query: ov(self.dns_query),
            dns_type: ov(self.dns_type),
            dns_answer: ov(self.dns_answer),
            dhcp_event: ov(self.dhcp_event),
            wifi_event: ov(self.wifi_event),
            raw_log: ov(self.raw_log),
            facts: self.facts@,
        }
    }
}

/// What goes out on the live stream: a row just written, or what was
/// learnt about an address since. The latter concerns the address, not a
/// row: it holds for every row it appears in, also those already shown.
#[derive(Debug, Clone)]
pub enum LiveEvent {
    Row(LiveRow),
    Enriched(IpAddress, IpFacts),
}

/// What of a pass of the enrichment is announced: each address with the
/// facts found, where anything was found, in the order given.
pub open spec fn announced_of(found: Seq<(IpAddress, FactsView)>) -> Seq<(IpAddress, FactsView)>
    decreases found.len(),
{
    if found.len() == 0 {
        Seq::empty()
    } else if facts_empty(found.last().1) {
        announced_of(found.drop_last())
    } else {
        announced_of(found.drop_last()).push(found.last())
    }
}

pub open spec fn found_view(v: Seq<(IpAddress, IpFacts)>) -> Seq<(IpAddress, FactsView)> {
    v.map_values(|e: (IpAddress, IpFacts)| (e.0, e.1@))
}

/// The events that announce what a pass found.
pub fn announcements(found: &[(IpAddress, IpFacts)]) -> (r: Vec<LiveEvent>)
    ensures
        r@.len() == announced_of(found_view(found@)).len(),
        forall|i: int|
            0 <= i < r@.len() ==> (#[trigger] r@[i] matches LiveEvent::Enriched(ip, f) && (ip, f@)
                == announced_of(found_view(found@))[i]),
{
    let ghost fv = found_view(found@);
    let mut out: Vec<LiveEvent> = Vec::new();
    let mut i: usize = 0;
    while i < found.len()
        invariant
            0 <= i <= found@.len(),
            fv == found_view(found@),
            out@.len() == announced_of(fv.take(i as int)).len(),
            forall|k: int|
                0 <= k < out@.len() ==> (#[trigger] out@[k] matches LiveEvent::Enriched(ip, f) && (ip, f@)
                    == announced_of(fv.take(i as int))[k]),
        decreases found.len() - i,
    {
        let ghost prev = announced_of(fv.take(i as int));
        assert(fv.take(i + 1).drop_last() =~= fv.take(i as int));
        assert(fv[i as int] == (found@[i as int].0, found@[i as int].1@));
        if !found[i].1.is_empty() {
            out.push(LiveEvent::Enriched(found[i].0, found[i].1.copied()));
            assert(announced_of(fv.take(i + 1)) =~= prev.push(fv[i as int]));
        } else {
            assert(announced_of(fv.take(i + 1)) =~= prev);
        }
        i = i + 1;
    }
    assert(fv.take(found@.len() as int) =~= fv);
    out
}

} // verus!
