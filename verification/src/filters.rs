//! The filters of the log view, and the SQL they stand for. An empty field
//! does not filter.
use vstd::prelude::*;
use crate::net::IpAddress;
use crate::search::{parse_search, search_terms, terms_view, Field, Term, TermView, Value, ValueView};
use crate::sql::{bv, pieces, push_all, push_bind, push_sql, sq, strs, Bind, BindView, Piece, PieceView};
use crate::text::{
    ascii_lower, chars_of, is_digit, lower_ascii, lowercase, parse_i16, parse_i64, parse_int, same_str, slice,
    split_parts, split_upto, string_from, to_lowercase, to_uppercase, trim, trim_exec, uppercase,
};
use crate::types::ov;

verus! {

/// All filters of the log view. Empty fields do not filter.
#[derive(Debug, Clone)]
pub struct LogFilter {
    pub log_type: Vec<String>,
    pub action: Vec<String>,
    pub direction: Vec<String>,
    pub iface: Vec<String>,
    pub proto: Vec<String>,
    pub country: Vec<String>,
    /// Exactly the incoming interface. `iface` matches either side and so
    /// cannot describe a pair of zones (from X to Y).
    pub iface_in: Option<String>,
    /// Exactly the outgoing interface.
    pub iface_out: Option<String>,
    pub port: Option<i32>,
    pub threat_min: Option<i32>,
    /// Microseconds since the epoch.
    pub from: Option<i64>,
    /// Microseconds since the epoch.
    pub to: Option<i64>,
    pub range: Option<String>,
    pub q: Option<String>,
}

/// A filter as plain values.
pub struct FilterView {
    pub log_type: Seq<Seq<char>>,
    pub action: Seq<Seq<char>>,
    pub direction: Seq<Seq<char>>,
    pub iface: Seq<Seq<char>>,
    pub proto: Seq<Seq<char>>,
    pub country: Seq<Seq<char>>,
    pub iface_in: Option<Seq<char>>,
    pub iface_out: Option<Seq<char>>,
    pub port: Option<i32>,
    pub threat_min: Option<i32>,
    pub from: Option<i64>,
    pub to: Option<i64>,
    pub range: Option<Seq<char>>,
    pub q: Option<Seq<char>>,
}

impl View for LogFilter {
    type V = FilterView;

    open spec fn view(&self) -> FilterView {
        FilterView {
            log_type: strs(self.log_type@),
            action: strs(self.action@),
            direction: strs(self.direction@),
            iface: strs(self.iface@),
            proto: strs(self.proto@),
            country: strs(self.country@),
            iface_in: ov(self.iface_in),
            iface_out: ov(self.iface_out),
            port: self.port,
            threat_min: self.threat_min,
            from: self.from,
            to: self.to,
            range: ov(self.range),
            q: ov(self.q),
        }
    }
}

/// The filter that filters nothing.
pub open spec fn empty_filter() -> FilterView {
    FilterView {
        log_type: Seq::empty(),
        action: Seq::empty(),
        direction: Seq::empty(),
        iface: Seq::empty(),
        proto: Seq::empty(),
        country: Seq::empty(),
        iface_in: None,
        iface_out: None,
        port: None,
        threat_min: None,
        from: None,
        to: None,
        range: None,
        q: None,
    }
}

impl Default for LogFilter {
    fn default() -> (r: LogFilter)
        ensures
            r@ == empty_filter(),
    {
        let r = LogFilter {
            log_type: Vec::new(),
            action: Vec::new(),
            direction: Vec::new(),
            iface: Vec::new(),
            proto: Vec::new(),
            country: Vec::new(),
            iface_in: None,
            iface_out: None,
            port: None,
            threat_min: None,
            from: None,
            to: None,
            range: None,
            q: None,
        };
        assert(r@.log_type =~= Seq::<Seq<char>>::empty());
        assert(r@.action =~= Seq::<Seq<char>>::empty());
        assert(r@.direction =~= Seq::<Seq<char>>::empty());
        assert(r@.iface =~= Seq::<Seq<char>>::empty());
        assert(r@.proto =~= Seq::<Seq<char>>::empty());
        assert(r@.country =~= Seq::<Seq<char>>::empty());
        r
    }
}

// ---------------------------------------------------------------------------
// Lists given as text
// ---------------------------------------------------------------------------

/// The trimmed parts, without the empty ones.
pub open spec fn trimmed_nonempty(parts: Seq<Seq<char>>) -> Seq<Seq<char>>
    decreases parts.len(),
{
    if parts.len() == 0 {
        Seq::empty()
    } else {
        let rest = trimmed_nonempty(parts.drop_last());
        if trim(parts.last()).len() > 0 {
            rest.push(trim(parts.last()))
        } else {
            rest
        }
    }
}

/// A comma-separated list: each part trimmed, empty parts dropped.
pub open spec fn comma_items(s: Seq<char>) -> Seq<Seq<char>> {
    trimmed_nonempty(split_parts(s, ','))
}

/// A comma-separated list, as it arrives in a query string.
pub fn comma_list(raw: Option<&str>) -> (r: Vec<String>)
    ensures
        strs(r@) == match raw {
            Some(s) => comma_items(s@),
            None => Seq::empty(),
        },
{
    let mut out: Vec<String> = Vec::new();
    match raw {
        None => {
            assert(strs(out@) =~= Seq::<Seq<char>>::empty());
            out
        },
        Some(s) => {
            let cs = chars_of(s);
            let ghost sv = cs@;
            let mut cur: Vec<char> = Vec::new();
            let mut i: usize = 0;
            assert(strs(out@) =~= trimmed_nonempty(split_upto(sv, ',', 0).0));
            while i < cs.len()
                invariant
                    sv == cs@,
                    0 <= i <= sv.len(),
                    cur@ == split_upto(sv, ',', i as int).1,
                    strs(out@) == trimmed_nonempty(split_upto(sv, ',', i as int).0),
                decreases cs.len() - i,
            {
                if cs[i] == ',' {
                    let t = trim_exec(cur.as_slice());
                    let ghost parts = split_upto(sv, ',', i as int).0.push(cur@);
                    assert(parts.drop_last() =~= split_upto(sv, ',', i as int).0);
                    if t.len() > 0 {
                        let ghost before = out@;
                        out.push(string_from(t.as_slice()));
                        assert(strs(out@) =~= strs(before).push(t@));
                    }
                    cur = Vec::new();
                    assert(cur@ =~= Seq::<char>::empty());
                } else {
                    cur.push(cs[i]);
                }
                i = i + 1;
            }
            let t = trim_exec(cur.as_slice());
            let ghost parts = split_upto(sv, ',', sv.len() as int).0.push(cur@);
            assert(parts.drop_last() =~= split_upto(sv, ',', sv.len() as int).0);
            if t.len() > 0 {
                let ghost before = out@;
                out.push(string_from(t.as_slice()));
                assert(strs(out@) =~= strs(before).push(t@));
            }
            out
        },
    }
}

/// A number that may also arrive as text: blank text is no filter,
/// anything else must be a whole number that fits an `i32`.
pub open spec fn number_field(text: Seq<char>) -> Result<Option<i32>, ()> {
    let t = trim(text);
    if t.len() == 0 {
        Ok(None)
    } else {
        match parse_int(t, true, i32::MIN as int, i32::MAX as int) {
            Some(n) => Ok(Some(n as i32)),
            None => Err(()),
        }
    }
}

/// A number field given as text; `Err` where it holds no whole number.
pub fn parse_number_field(text: &str) -> (r: Result<Option<i32>, ()>)
    ensures
        r == number_field(text@),
{
    let cs = chars_of(text);
    let t = trim_exec(cs.as_slice());
    if t.len() == 0 {
        return Ok(None);
    }
    match crate::text::parse_i32(t.as_slice()) {
        Some(n) => Ok(Some(n)),
        None => Err(()),
    }
}

/// A number field given as a number; `Err` where it does not fit an `i32`.
pub fn number_field_value(v: i64) -> (r: Result<Option<i32>, ()>)
    ensures
        r == (if i32::MIN <= v <= i32::MAX {
            Ok(Some(v as i32))
        } else {
            Err(())
        }),
{
    if i32::MIN as i64 <= v && v <= i32::MAX as i64 {
        Ok(Some(v as i32))
    } else {
        Err(())
    }
}

// ---------------------------------------------------------------------------
// Names and ids
// ---------------------------------------------------------------------------

/// Which table of names a list refers to.
#[derive(Debug, Clone, Copy, PartialEq, Eq, Structural)]
pub enum IdTable {
    LogType,
    Action,
    Direction,
}

/// The id a name stands for in a table.
pub open spec fn name_id(t: IdTable, name: Seq<char>) -> Option<i16> {
    match t {
        IdTable::LogType => if name == "firewall"@ {
            Some(1i16)
        } else if name == "dns"@ {
            Some(2i16)
        } else if name == "dhcp"@ {
            Some(3i16)
        } else if name == "wifi"@ {
            Some(4i16)
        } else if name == "system"@ {
            Some(5i16)
        } else {
            None
        },
        IdTable::Action => if name == "allow"@ {
            Some(1i16)
        } else if name == "block"@ {
            Some(2i16)
        } else if name == "redirect"@ {
            Some(3i16)
        } else {
            None
        },
        IdTable::Direction => if name == "inbound"@ {
            Some(1i16)
        } else if name == "outbound"@ {
            Some(2i16)
        } else if name == "local"@ {
            Some(3i16)
        } else if name == "inter_vlan"@ {
            Some(4i16)
        } else if name == "vpn"@ {
            Some(5i16)
        } else if name == "nat"@ {
            Some(6i16)
        } else {
            None
        },
    }
}

fn name_id_chars(t: IdTable, n: &[char]) -> (r: Option<i16>)
    ensures
        r == name_id(t, n@),
{
    match t {
        IdTable::LogType => if same_str(n, "firewall") {
            Some(1)
        } else if same_str(n, "dns") {
            Some(2)
        } else if same_str(n, "dhcp") {
            Some(3)
        } else if same_str(n, "wifi") {
            Some(4)
        } else if same_str(n, "system") {
            Some(5)
        } else {
            None
        },
        IdTable::Action => if same_str(n, "allow") {
            Some(1)
        } else if same_str(n, "block") {
            Some(2)
        } else if same_str(n, "redirect") {
            Some(3)
        } else {
            None
        },
        IdTable::Direction => if same_str(n, "inbound") {
            Some(1)
        } else if same_str(n, "outbound") {
            Some(2)
        } else if same_str(n, "local") {
            Some(3)
        } else if same_str(n, "inter_vlan") {
            Some(4)
        } else if same_str(n, "vpn") {
            Some(5)
        } else if same_str(n, "nat") {
            Some(6)
        } else {
            None
        },
    }
}

/// The id of a table's name.
pub fn table_id(t: IdTable, name: &str) -> (r: Option<i16>)
    ensures
        r == name_id(t, name@),
{
    let cs = chars_of(name);
    name_id_chars(t, cs.as_slice())
}

/// The id of a log type's name.
pub fn log_type_id(name: &str) -> (r: Option<i16>)
    ensures
        r == name_id(IdTable::LogType, name@),
{
    table_id(IdTable::LogType, name)
}

/// The id of an action's name.
pub fn action_id(name: &str) -> (r: Option<i16>)
    ensures
        r == name_id(IdTable::Action, name@),
{
    table_id(IdTable::Action, name)
}

/// The id of a direction's name.
pub fn direction_id(name: &str) -> (r: Option<i16>)
    ensures
        r == name_id(IdTable::Direction, name@),
{
    table_id(IdTable::Direction, name)
}

/// The ids of those names that have one, in order.
pub open spec fn ids_of(names: Seq<Seq<char>>, t: IdTable) -> Seq<i16>
    decreases names.len(),
{
    if names.len() == 0 {
        Seq::empty()
    } else {
        let rest = ids_of(names.drop_last(), t);
        match name_id(t, names.last()) {
            Some(i) => rest.push(i),
            None => rest,
        }
    }
}

/// The ids of those names that have one, in order.
pub fn ids(names: &[String], t: IdTable) -> (r: Vec<i16>)
    ensures
        r@ == ids_of(strs(names@), t),
{
    let mut out: Vec<i16> = Vec::new();
    let mut i: usize = 0;
    while i < names.len()
        invariant
            0 <= i <= names@.len(),
            out@ == ids_of(strs(names@).take(i as int), t),
        decreases names.len() - i,
    {
        assert(strs(names@).take(i + 1).drop_last() =~= strs(names@).take(i as int));
        match table_id(t, names[i].as_str()) {
            Some(id) => out.push(id),
            None => {},
        }
        i = i + 1;
    }
    assert(strs(names@).take(names@.len() as int) =~= strs(names@));
    out
}

/// The ids other than the firewall's (1), in order.
pub open spec fn without_firewall(s: Seq<i16>) -> Seq<i16>
    decreases s.len(),
{
    if s.len() == 0 {
        Seq::empty()
    } else if s.last() == 1 {
        without_firewall(s.drop_last())
    } else {
        without_firewall(s.drop_last()).push(s.last())
    }
}

/// The ids of the chosen log types other than the firewall's, or `None`
/// where that leaves none.
pub open spec fn non_firewall_ids(names: Seq<Seq<char>>) -> Option<Seq<i16>> {
    let chosen = without_firewall(ids_of(names, IdTable::LogType));
    if chosen.len() == 0 {
        None
    } else {
        Some(chosen)
    }
}

fn non_firewall(names: &[String]) -> (r: Option<Vec<i16>>)
    ensures
        match r {
            Some(v) => non_firewall_ids(strs(names@)) == Some(v@),
            None => non_firewall_ids(strs(names@)) is None,
        },
{
    let all = ids(names, IdTable::LogType);
    let ghost src = all@;
    let mut out: Vec<i16> = Vec::new();
    let mut i: usize = 0;
    while i < all.len()
        invariant
            src == all@,
            0 <= i <= src.len(),
            out@ == without_firewall(src.take(i as int)),
        decreases all.len() - i,
    {
        assert(src.take(i + 1).drop_last() =~= src.take(i as int));
        if all[i] != 1 {
            out.push(all[i]);
        }
        i = i + 1;
    }
    assert(src.take(src.len() as int) =~= src);
    if out.len() == 0 {
        None
    } else {
        Some(out)
    }
}

// ---------------------------------------------------------------------------
// Which lookup tables a query needs
// ---------------------------------------------------------------------------

/// Which lookup tables a query joins. A log row holds foreign keys rather
/// than names; whoever selects or compares a name needs the join for it.
#[derive(Debug, Clone, Copy, PartialEq, Eq, Structural)]
pub struct Joins {
    pub rules: bool,
    /// The table of program names.
    pub programs: bool,
    pub interfaces: bool,
    pub protocols: bool,
    pub hostnames: bool,
    /// Device names of the controller; kept for a filter on a device name.
    pub devices: bool,
}

impl Joins {
    /// No table.
    pub fn none() -> (r: Joins)
        ensures
            r == (Joins {
                rules: false,
                programs: false,
                interfaces: false,
                protocols: false,
                hostnames: false,
                devices: false,
            }),
    {
        Joins {
            rules: false,
            programs: false,
            interfaces: false,
            protocols: false,
            hostnames: false,
            devices: false,
        }
    }

    /// Every table.
    pub fn all() -> (r: Joins)
        ensures
            r == (Joins {
                rules: true,
                programs: true,
                interfaces: true,
                protocols: true,
                hostnames: true,
                devices: true,
            }),
    {
        Joins {
            rules: true,
            programs: true,
            interfaces: true,
            protocols: true,
            hostnames: true,
            devices: true,
        }
    }

    /// These tables and the rules.
    pub fn rules(self) -> (r: Joins)
        ensures
            r == (Joins { rules: true, ..self }),
    {
        let mut s = self;
        s.rules = true;
        s
    }

    /// These tables and the program names.
    pub fn programs(self) -> (r: Joins)
        ensures
            r == (Joins { programs: true, ..self }),
    {
        let mut s = self;
        s.programs = true;
        s
    }

    /// These tables and the interfaces.
    pub fn interfaces(self) -> (r: Joins)
        ensures
            r == (Joins { interfaces: true, ..self }),
    {
        let mut s = self;
        s.interfaces = true;
        s
    }

    /// These tables and the protocols.
    pub fn protocols(self) -> (r: Joins)
        ensures
            r == (Joins { protocols: true, ..self }),
    {
        let mut s = self;
        s.protocols = true;
        s
    }

    /// These tables and the host names.
    pub fn hostnames(self) -> (r: Joins)
        ensures
            r == (Joins { hostnames: true, ..self }),
    {
        let mut s = self;
        s.hostnames = true;
        s
    }

    /// The tables either needs.
    pub fn or(self, other: Joins) -> (r: Joins)
        ensures
            r == joins_or(self, other),
    {
        Joins {
            rules: self.rules || other.rules,
            programs: self.programs || other.programs,
            interfaces: self.interfaces || other.interfaces,
            protocols: self.protocols || other.protocols,
            hostnames: self.hostnames || other.hostnames,
            devices: self.devices || other.devices,
        }
    }
}

/// The tables either needs.
pub open spec fn joins_or(a: Joins, b: Joins) -> Joins {
    Joins {
        rules: a.rules || b.rules,
        programs: a.programs || b.programs,
        interfaces: a.interfaces || b.interfaces,
        protocols: a.protocols || b.protocols,
        hostnames: a.hostnames || b.hostnames,
        devices: a.devices || b.devices,
    }
}

pub open spec fn no_joins() -> Joins {
    Joins {
        rules: false,
        programs: false,
        interfaces: false,
        protocols: false,
        hostnames: false,
        devices: false,
    }
}

/// The tables a search term touches: those of the columns its condition
/// reads. A text term without a field of its own — none, or an address or
/// port field, which a text cannot be — searches all text, and some of
/// that lives in the lookup tables.
pub open spec fn term_joins_of(t: TermView) -> Joins {
    match t.value {
        ValueView::Text(_) => match t.field {
            Some(Field::Rule) => Joins { rules: true, ..no_joins() },
            Some(Field::Program) => Joins { programs: true, ..no_joins() },
            Some(Field::Protocol) => Joins { protocols: true, ..no_joins() },
            Some(Field::Interface) => Joins { interfaces: true, ..no_joins() },
            Some(Field::Host) => Joins { hostnames: true, ..no_joins() },
            Some(Field::Action) | Some(Field::LogType) | Some(Field::Severity) | Some(Field::Country) | Some(
                Field::Asn,
            ) => no_joins(),
            _ => Joins {
                rules: true,
                interfaces: true,
                protocols: true,
                hostnames: true,
                programs: true,
                devices: false,
            },
        },
        _ => no_joins(),
    }
}

/// The tables a search term touches.
pub fn term_joins(term: &Term) -> (r: Joins)
    ensures
        r == term_joins_of(term@),
{
    match (&term.value, term.field) {
        (Value::Text(_), Some(Field::Rule)) => Joins::none().rules(),
        (Value::Text(_), Some(Field::Program)) => Joins::none().programs(),
        (Value::Text(_), Some(Field::Protocol)) => Joins::none().protocols(),
        (Value::Text(_), Some(Field::Interface)) => Joins::none().interfaces(),
        (Value::Text(_), Some(Field::Host)) => Joins::none().hostnames(),
        (Value::Text(_), Some(Field::Action))
        | (Value::Text(_), Some(Field::LogType))
        | (Value::Text(_), Some(Field::Severity))
        | (Value::Text(_), Some(Field::Country))
        | (Value::Text(_), Some(Field::Asn)) => Joins::none(),
        (Value::Text(_), _) => Joins::none().rules().interfaces().protocols().hostnames().programs(),
        _ => Joins::none(),
    }
}

/// The tables all terms together touch.
pub open spec fn terms_joins(ts: Seq<TermView>) -> Joins
    decreases ts.len(),
{
    if ts.len() == 0 {
        no_joins()
    } else {
        joins_or(terms_joins(ts.drop_last()), term_joins_of(ts.last()))
    }
}

/// The search of a filter, as terms.
pub open spec fn filter_terms(f: FilterView) -> Seq<TermView> {
    match f.q {
        Some(q) => search_terms(q),
        None => Seq::empty(),
    }
}

/// The tables a filter needs for itself.
pub open spec fn needed_joins_of(f: FilterView) -> Joins {
    let own = Joins {
        interfaces: f.iface.len() > 0 || f.iface_in is Some || f.iface_out is Some,
        protocols: f.proto.len() > 0,
        ..no_joins()
    };
    joins_or(own, terms_joins(filter_terms(f)))
}

/// The table of a column is among the joins: the lookup tables' columns
/// need their join, the row's own (`l.`) need none.
pub open spec fn column_joined(col: Seq<char>, j: Joins) -> bool {
    &&& (col == "r.name"@ || col == "r.descr"@) ==> j.rules
    &&& (col == "ii.name"@ || col == "io.name"@) ==> j.interfaces
    &&& col == "pr.name"@ ==> j.protocols
    &&& col == "dn.name"@ ==> j.hostnames
    &&& col == "pg.name"@ ==> j.programs
}

/// A term that compares its text with columns, rather than by an id or a
/// level.
pub open spec fn reads_text_columns(t: TermView) -> bool {
    &&& t.value is Text
    &&& t.field != Some(Field::Action)
    &&& t.field != Some(Field::LogType)
    &&& t.field != Some(Field::Severity)
}

/// Joins that take in all of `b`.
pub open spec fn covers(a: Joins, b: Joins) -> bool {
    &&& b.rules ==> a.rules
    &&& b.programs ==> a.programs
    &&& b.interfaces ==> a.interfaces
    &&& b.protocols ==> a.protocols
    &&& b.hostnames ==> a.hostnames
    &&& b.devices ==> a.devices
}

proof fn lemma_terms_joins_cover(ts: Seq<TermView>, k: int)
    requires
        0 <= k < ts.len(),
    ensures
        covers(terms_joins(ts), term_joins_of(ts[k])),
    decreases ts.len(),
{
    if k < ts.len() - 1 {
        lemma_terms_joins_cover(ts.drop_last(), k);
        assert(ts.drop_last()[k] == ts[k]);
    }
}

proof fn lemma_term_columns_joined(t: TermView, j: Joins, c: int)
    requires
        reads_text_columns(t),
        covers(j, term_joins_of(t)),
        0 <= c < text_columns(t.field).len(),
    ensures
        column_joined(text_columns(t.field)[c], j),
{
    let col = text_columns(t.field)[c];
    reveal_strlit("r.name");
    reveal_strlit("r.descr");
    reveal_strlit("ii.name");
    reveal_strlit("io.name");
    reveal_strlit("pr.name");
    reveal_strlit("dn.name");
    reveal_strlit("pg.name");
    reveal_strlit("l.geo_country");
    reveal_strlit("l.asn_name");
    reveal_strlit("l.rdns");
    match t.field {
        Some(Field::Rule) => {
            assert(col[0] == 'r');
        },
        Some(Field::Country) | Some(Field::Asn) => {
            assert(col[0] == 'l');
        },
        Some(Field::Protocol) => {
            assert(col[0] == 'p' && col[1] == 'r');
        },
        Some(Field::Interface) => {
            assert(col[0] == 'i');
        },
        Some(Field::Host) => {
            assert(col[0] == 'd' || col[0] == 'l');
        },
        Some(Field::Program) => {
            assert(col[0] == 'p' && col[1] == 'g');
        },
        _ => {},
    }
}

/// Every column that the conditions of a filter read lies in a table that
/// its joins bring in, whatever the output adds: each column a text term
/// compares, and the interface and protocol names of the filter's own
/// fields. So no condition names a table the query did not join.
pub proof fn lemma_where_columns_joined(f: FilterView, extra: Joins)
    ensures
        forall|k: int, c: int|
            0 <= k < filter_terms(f).len() && reads_text_columns(filter_terms(f)[k]) && 0 <= c
                < text_columns(filter_terms(f)[k].field).len() ==> column_joined(
                #[trigger] text_columns(filter_terms(f)[k].field)[c],
                joins_or(needed_joins_of(f), extra),
            ),
        (f.iface.len() > 0 || f.iface_in is Some || f.iface_out is Some) ==> joins_or(
            needed_joins_of(f),
            extra,
        ).interfaces,
        f.proto.len() > 0 ==> joins_or(needed_joins_of(f), extra).protocols,
{
    let j = joins_or(needed_joins_of(f), extra);
    assert forall|k: int, c: int|
        0 <= k < filter_terms(f).len() && reads_text_columns(filter_terms(f)[k]) && 0 <= c < text_columns(
            filter_terms(f)[k].field,
        ).len() implies column_joined(#[trigger] text_columns(filter_terms(f)[k].field)[c], j) by {
        lemma_terms_joins_cover(filter_terms(f), k);
        lemma_term_columns_joined(filter_terms(f)[k], j, c);
    }
}

/// The search of a filter, parsed.
fn filter_search(q: &Option<String>) -> (r: Vec<Term>)
    ensures
        terms_view(r@) == match ov(*q) {
            Some(s) => search_terms(s),
            None => Seq::empty(),
        },
{
    match q {
        Some(s) => parse_search(s.as_str()),
        None => {
            let v: Vec<Term> = Vec::new();
            assert(terms_view(v@) =~= Seq::<TermView>::empty());
            v
        },
    }
}

/// Where a filter touches no field at all.
pub open spec fn unfiltered(f: FilterView) -> bool {
    &&& f.log_type.len() == 0
    &&& f.action.len() == 0
    &&& f.direction.len() == 0
    &&& f.iface.len() == 0
    &&& f.proto.len() == 0
    &&& f.country.len() == 0
    &&& f.iface_in is None
    &&& f.iface_out is None
    &&& f.port is None
    &&& f.threat_min is None
    &&& f.from is None
    &&& f.to is None
    &&& f.range is None
    &&& f.q is None
}

impl LogFilter {
    /// True when no field at all is set: then a count may fall back on an
    /// estimate, since the conditions would be `WHERE TRUE` anyway.
    pub fn is_unfiltered(&self) -> (r: bool)
        ensures
            r == unfiltered(self@),
    {
        let r = self.log_type.len() == 0 && self.action.len() == 0 && self.direction.len() == 0
            && self.iface.len() == 0 && self.proto.len() == 0 && self.country.len() == 0
            && self.iface_in.is_none() && self.iface_out.is_none() && self.port.is_none()
            && self.threat_min.is_none() && self.from.is_none() && self.to.is_none()
            && self.range.is_none() && self.q.is_none();
        r
    }

    /// The lookup tables this filter needs for itself: a filter on a
    /// protocol compares its name, a count by direction needs none.
    pub fn needed_joins(&self) -> (r: Joins)
        ensures
            r == needed_joins_of(self@),
    {
        let mut needs = Joins::none();
        if self.iface.len() > 0 || self.iface_in.is_some() || self.iface_out.is_some() {
            needs.interfaces = true;
        }
        if self.proto.len() > 0 {
            needs.protocols = true;
        }
        let terms = filter_search(&self.q);
        let ghost tv = terms_view(terms@);
        let ghost own = needs;
        let mut i: usize = 0;
        while i < terms.len()
            invariant
                0 <= i <= terms@.len(),
                tv == terms_view(terms@),
                needs == joins_or(own, terms_joins(tv.take(i as int))),
            decreases terms.len() - i,
        {
            assert(tv.take(i + 1).drop_last() =~= tv.take(i as int));
            needs = needs.or(term_joins(&terms[i]));
            i = i + 1;
        }
        assert(tv.take(tv.len() as int) =~= tv);
        needs
    }

    /// The joins for a query: what the filter needs, and what the output
    /// asks for.
    pub fn push_joins(&self, q: &mut Vec<Piece>, extra: Joins)
        ensures
            pieces(final(q)@) == pieces(old(q)@) + join_pieces(joins_or(needed_joins_of(self@), extra)),
    {
        let needs = self.needed_joins().or(extra);
        let mut out: Vec<Piece> = Vec::new();
        if needs.rules {
            push_sql(&mut out, " LEFT JOIN rules r ON r.id = l.rule_id ");
        }
        if needs.programs {
            push_sql(&mut out, " LEFT JOIN programs pg ON pg.id = l.program_id ");
        }
        if needs.interfaces {
            push_sql(
                &mut out,
                " LEFT JOIN interfaces ii ON ii.id = l.iface_in_id LEFT JOIN interfaces io ON io.id = l.iface_out_id ",
            );
        }
        if needs.protocols {
            push_sql(&mut out, " LEFT JOIN protocols pr ON pr.id = l.protocol_id ");
        }
        if needs.hostnames {
            push_sql(&mut out, " LEFT JOIN device_names dn ON dn.id = l.hostname_id ");
        }
        assert(pieces(out@) =~= join_pieces(needs));
        push_all(q, out);
    }
}

/// Text only where a flag is set.
pub open spec fn when(b: bool, s: Seq<PieceView>) -> Seq<PieceView> {
    if b {
        s
    } else {
        Seq::empty()
    }
}

/// The joins of these tables. Device names need no join of their own: the
/// row list joins them itself, and no filter reads them.
pub open spec fn join_pieces(j: Joins) -> Seq<PieceView> {
    when(j.rules, seq![sq(" LEFT JOIN rules r ON r.id = l.rule_id "@)]) + when(
        j.programs,
        seq![sq(" LEFT JOIN programs pg ON pg.id = l.program_id "@)],
    ) + when(
        j.interfaces,
        seq![
            sq(
                " LEFT JOIN interfaces ii ON ii.id = l.iface_in_id LEFT JOIN interfaces io ON io.id = l.iface_out_id "@,
            ),
        ],
    ) + when(j.protocols, seq![sq(" LEFT JOIN protocols pr ON pr.id = l.protocol_id "@)]) + when(
        j.hostnames,
        seq![sq(" LEFT JOIN device_names dn ON dn.id = l.hostname_id "@)],
    )
}

// ---------------------------------------------------------------------------
// Severity
// ---------------------------------------------------------------------------

/// A severity as people write it: a number 0..=7, or a syslog name or its
/// common short form, in any case and with surrounding blanks.
pub open spec fn severity_of_text(s: Seq<char>) -> Option<i16> {
    let t = ascii_lower(trim(s));
    match parse_int(t, true, i16::MIN as int, i16::MAX as int) {
        Some(n) => if 0 <= n <= 7 {
            Some(n as i16)
        } else {
            None
        },
        None => if t == "emerg"@ || t == "emergency"@ || t == "panic"@ {
            Some(0i16)
        } else if t == "alert"@ {
            Some(1i16)
        } else if t == "crit"@ || t == "critical"@ {
            Some(2i16)
        } else if t == "err"@ || t == "error"@ {
            Some(3i16)
        } else if t == "warn"@ || t == "warning"@ {
            Some(4i16)
        } else if t == "notice"@ {
            Some(5i16)
        } else if t == "info"@ {
            Some(6i16)
        } else if t == "debug"@ {
            Some(7i16)
        } else {
            None
        },
    }
}

/// The syslog severity names read as their levels, whatever their case and
/// the blanks around them: emerg/emergency/panic 0, alert 1, crit/critical 2,
/// err/error 3, warn/warning 4, notice 5, info 6, debug 7.
pub proof fn lemma_severity_names(s: Seq<char>)
    ensures
        (ascii_lower(trim(s)) == "emerg"@ || ascii_lower(trim(s)) == "emergency"@ || ascii_lower(trim(s)) == "panic"@) ==> severity_of_text(s) == Some(0i16),
        (ascii_lower(trim(s)) == "alert"@) ==> severity_of_text(s) == Some(1i16),
        (ascii_lower(trim(s)) == "crit"@ || ascii_lower(trim(s)) == "critical"@) ==> severity_of_text(s) == Some(2i16),
        (ascii_lower(trim(s)) == "err"@ || ascii_lower(trim(s)) == "error"@) ==> severity_of_text(s) == Some(3i16),
        (ascii_lower(trim(s)) == "warn"@ || ascii_lower(trim(s)) == "warning"@) ==> severity_of_text(s) == Some(4i16),
        (ascii_lower(trim(s)) == "notice"@) ==> severity_of_text(s) == Some(5i16),
        (ascii_lower(trim(s)) == "info"@) ==> severity_of_text(s) == Some(6i16),
        (ascii_lower(trim(s)) == "debug"@) ==> severity_of_text(s) == Some(7i16),
{
    reveal_strlit("emerg");
    assert(!is_digit("emerg"@[0]) && "emerg"@[0] != '+' && "emerg"@[0] != '-');
    reveal_strlit("emergency");
    assert(!is_digit("emergency"@[0]) && "emergency"@[0] != '+' && "emergency"@[0] != '-');
    reveal_strlit("panic");
    assert(!is_digit("panic"@[0]) && "panic"@[0] != '+' && "panic"@[0] != '-');
    reveal_strlit("alert");
    assert(!is_digit("alert"@[0]) && "alert"@[0] != '+' && "alert"@[0] != '-');
    reveal_strlit("crit");
    assert(!is_digit("crit"@[0]) && "crit"@[0] != '+' && "crit"@[0] != '-');
    reveal_strlit("critical");
    assert(!is_digit("critical"@[0]) && "critical"@[0] != '+' && "critical"@[0] != '-');
    reveal_strlit("err");
    assert(!is_digit("err"@[0]) && "err"@[0] != '+' && "err"@[0] != '-');
    reveal_strlit("error");
    assert(!is_digit("error"@[0]) && "error"@[0] != '+' && "error"@[0] != '-');
    reveal_strlit("warn");
    assert(!is_digit("warn"@[0]) && "warn"@[0] != '+' && "warn"@[0] != '-');
    reveal_strlit("warning");
    assert(!is_digit("warning"@[0]) && "warning"@[0] != '+' && "warning"@[0] != '-');
    reveal_strlit("notice");
    assert(!is_digit("notice"@[0]) && "notice"@[0] != '+' && "notice"@[0] != '-');
    reveal_strlit("info");
    assert(!is_digit("info"@[0]) && "info"@[0] != '+' && "info"@[0] != '-');
    reveal_strlit("debug");
    assert(!is_digit("debug"@[0]) && "debug"@[0] != '+' && "debug"@[0] != '-');
    assert("emerg"@[0] != "panic"@[0]);
    assert("emerg"@[0] != "alert"@[0]);
    assert("emerg"@[1] != "error"@[1]);
    assert("emerg"@[0] != "debug"@[0]);
    assert("panic"@[0] != "alert"@[0]);
    assert("panic"@[0] != "error"@[0]);
    assert("panic"@[0] != "debug"@[0]);
    assert("alert"@[0] != "error"@[0]);
    assert("alert"@[0] != "debug"@[0]);
    assert("crit"@[0] != "warn"@[0]);
    assert("crit"@[0] != "info"@[0]);
    assert("error"@[0] != "debug"@[0]);
    assert("warn"@[0] != "info"@[0]);
}

/// A severity as people write it.
pub fn severity_level(s: &str) -> (r: Option<i16>)
    ensures
        r == severity_of_text(s@),
{
    let cs = chars_of(s);
    let tr = trim_exec(cs.as_slice());
    let t = lower_ascii(tr.as_slice());
    let ts = t.as_slice();
    if let Some(n) = parse_i16(ts) {
        return if 0 <= n && n <= 7 {
            Some(n)
        } else {
            None
        };
    }
    if same_str(ts, "emerg") || same_str(ts, "emergency") || same_str(ts, "panic") {
        Some(0)
    } else if same_str(ts, "alert") {
        Some(1)
    } else if same_str(ts, "crit") || same_str(ts, "critical") {
        Some(2)
    } else if same_str(ts, "err") || same_str(ts, "error") {
        Some(3)
    } else if same_str(ts, "warn") || same_str(ts, "warning") {
        Some(4)
    } else if same_str(ts, "notice") {
        Some(5)
    } else if same_str(ts, "info") {
        Some(6)
    } else if same_str(ts, "debug") {
        Some(7)
    } else {
        None
    }
}

// ---------------------------------------------------------------------------
// Search terms as conditions
// ---------------------------------------------------------------------------

/// `*` is the pattern people type; SQL wants `%`. Without `*` the text may
/// stand anywhere.
pub open spec fn like_pattern(t: Seq<char>, glob: bool) -> Seq<char> {
    if glob {
        t.map_values(|c: char| if c == '*' { '%' } else { c })
    } else {
        seq!['%'] + t + seq!['%']
    }
}

fn like_pattern_exec(t: &str, glob: bool) -> (r: String)
    ensures
        r@ == like_pattern(t@, glob),
{
    let cs = chars_of(t);
    let mut out: Vec<char> = Vec::new();
    if glob {
        let mut i: usize = 0;
        while i < cs.len()
            invariant
                0 <= i <= cs@.len(),
                out@ == cs@.take(i as int).map_values(|c: char| if c == '*' { '%' } else { c }),
            decreases cs.len() - i,
        {
            let c = cs[i];
            out.push(if c == '*' { '%' } else { c });
            i = i + 1;
            assert(out@ =~= cs@.take(i as int).map_values(|c: char| if c == '*' { '%' } else { c }));
        }
        assert(cs@.take(cs@.len() as int) =~= cs@);
    } else {
        out.push('%');
        let mut i: usize = 0;
        while i < cs.len()
            invariant
                0 <= i <= cs@.len(),
                out@ == seq!['%'] + cs@.take(i as int),
            decreases cs.len() - i,
        {
            out.push(cs[i]);
            i = i + 1;
            assert(out@ =~= seq!['%'] + cs@.take(i as int));
        }
        out.push('%');
        assert(cs@.take(cs@.len() as int) =~= cs@);
        assert(out@ =~= seq!['%'] + cs@ + seq!['%']);
    }
    string_from(out.as_slice())
}

/// The text columns a scoped or free text term is compared with.
pub open spec fn text_columns(field: Option<Field>) -> Seq<Seq<char>> {
    match field {
        Some(Field::Rule) => seq!["r.name"@, "r.descr"@],
        Some(Field::Country) => seq!["l.geo_country"@],
        Some(Field::Asn) => seq!["l.asn_name"@],
        Some(Field::Protocol) => seq!["pr.name"@],
        Some(Field::Interface) => seq!["ii.name"@, "io.name"@],
        Some(Field::Host) => seq!["dn.name"@, "l.rdns"@],
        Some(Field::Program) => seq!["pg.name"@],
        _ => seq![
            "r.name"@,
            "r.descr"@,
            "ii.name"@,
            "io.name"@,
            "pr.name"@,
            "dn.name"@,
            "pg.name"@,
            "l.dns_query"@,
            "l.rdns"@,
            "l.asn_name"@,
            "l.geo_country"@,
            "l.geo_city"@,
            "l.dhcp_event"@,
            "l.wifi_event"@,
            "l.raw_log"@,
        ],
    }
}

pub open spec fn col_views(v: Seq<&'static str>) -> Seq<Seq<char>> {
    v.map_values(|s: &'static str| s@)
}

fn text_column_list(field: Option<Field>) -> (r: Vec<&'static str>)
    ensures
        col_views(r@) == text_columns(field),
{
    let r = match field {
        Some(Field::Rule) => vec!["r.name", "r.descr"],
        Some(Field::Country) => vec!["l.geo_country"],
        Some(Field::Asn) => vec!["l.asn_name"],
        Some(Field::Protocol) => vec!["pr.name"],
        Some(Field::Interface) => vec!["ii.name", "io.name"],
        Some(Field::Host) => vec!["dn.name", "l.rdns"],
        Some(Field::Program) => vec!["pg.name"],
        _ => vec![
            "r.name",
            "r.descr",
            "ii.name",
            "io.name",
            "pr.name",
            "dn.name",
            "pg.name",
            "l.dns_query",
            "l.rdns",
            "l.asn_name",
            "l.geo_country",
            "l.geo_city",
            "l.dhcp_event",
            "l.wifi_event",
            "l.raw_log",
        ],
    };
    assert(col_views(r@) =~= text_columns(field));
    r
}

/// The first `n` columns, each compared with the pattern, joined by `OR`.
pub open spec fn ilike_upto(cols: Seq<Seq<char>>, pat: Seq<char>, n: int) -> Seq<PieceView>
    decreases n,
{
    if n <= 0 {
        Seq::empty()
    } else {
        ilike_upto(cols, pat, n - 1) + when(n > 1, seq![sq(" OR "@)]) + seq![
            sq(cols[n - 1]),
            sq(" ILIKE "@),
            bv(BindView::Text(pat)),
        ]
    }
}

/// A comparison by id; a name without an id matches nothing.
pub open spec fn id_clause(col: Seq<char>, id: Option<i16>) -> Seq<PieceView> {
    match id {
        Some(i) => seq![sq(col), sq(" = "@), bv(BindView::Small(i))],
        None => seq![sq("FALSE"@)],
    }
}

/// The condition of a search term, before negation.
pub open spec fn term_body(t: TermView) -> Seq<PieceView> {
    match t.value {
        ValueView::Ip(a) => match t.field {
            Some(Field::SrcIp) => seq![sq("l.src_ip = "@), bv(BindView::Ip(a))],
            Some(Field::DstIp) => seq![sq("l.dst_ip = "@), bv(BindView::Ip(a))],
            _ => seq![
                sq("l.src_ip = "@),
                bv(BindView::Ip(a)),
                sq(" OR l.dst_ip = "@),
                bv(BindView::Ip(a)),
            ],
        },
        ValueView::Cidr(n) => match t.field {
            Some(Field::SrcIp) => seq![sq("l.src_ip <<= "@), bv(BindView::Net(n))],
            Some(Field::DstIp) => seq![sq("l.dst_ip <<= "@), bv(BindView::Net(n))],
            _ => seq![
                sq("l.src_ip <<= "@),
                bv(BindView::Net(n)),
                sq(" OR l.dst_ip <<= "@),
                bv(BindView::Net(n)),
            ],
        },
        ValueView::Port(p) => match t.field {
            Some(Field::SrcPort) => seq![sq("l.src_port = "@), bv(BindView::Int(p))],
            Some(Field::DstPort) => seq![sq("l.dst_port = "@), bv(BindView::Int(p))],
            _ => seq![
                sq("l.src_port = "@),
                bv(BindView::Int(p)),
                sq(" OR l.dst_port = "@),
                bv(BindView::Int(p)),
            ],
        },
        ValueView::Mac(m) => seq![sq("l.mac_address::text = "@), bv(BindView::Text(m))],
        ValueView::Asn(n) => seq![sq("l.asn_number = "@), bv(BindView::Long(n as i64))],
        ValueView::Text(x) => match t.field {
            Some(Field::Action) => id_clause("l.rule_action_id"@, name_id(IdTable::Action, x)),
            Some(Field::LogType) => id_clause("l.log_type_id"@, name_id(IdTable::LogType, x)),
            Some(Field::Severity) => match severity_of_text(x) {
                Some(n) => seq![sq("l.severity <= "@), bv(BindView::Small(n))],
                None => seq![sq("FALSE"@)],
            },
            _ => ilike_upto(
                text_columns(t.field),
                like_pattern(x, t.glob),
                text_columns(t.field).len() as int,
            ),
        },
    }
}

/// Whether a row whose column `col` holds `v` meets the SQL comparison
/// whose text is `col` and an operator (`<=`, `>=`, `<`, `>`, `=`, `<>`),
/// against the bound value `n`.
pub open spec fn sql_comparison_holds(text: Seq<char>, col: Seq<char>, v: int, n: int) -> bool {
    ||| text == col + " <= "@ && v <= n
    ||| text == col + " >= "@ && v >= n
    ||| text == col + " < "@ && v < n
    ||| text == col + " > "@ && v > n
    ||| text == col + " = "@ && v == n
    ||| text == col + " <> "@ && v != n
}

/// Whether a row whose column `col` holds `v` meets a condition of the form
/// `col op $1` with a small integer bound.
pub open spec fn small_comparison_met(p: Seq<PieceView>, col: Seq<char>, v: int) -> bool {
    &&& p.len() == 2
    &&& p[0] matches PieceView::Sql(t)
    &&& p[1] matches PieceView::Arg(BindView::Small(n))
    &&& sql_comparison_holds(t, col, v, n as int)
}

/// Whether a row with these source and destination addresses meets the SQL
/// equality `text` (`l.src_ip = ` or `l.dst_ip = `) against address `b`.
pub open spec fn address_equality_holds(text: Seq<char>, b: IpAddress, src: IpAddress, dst: IpAddress) -> bool {
    ||| text == "l.src_ip = "@ && src == b
    ||| text == "l.dst_ip = "@ && dst == b
}

/// Whether a row with these addresses meets a condition made of one
/// address equality, or of two joined by ` OR `.
pub open spec fn address_condition_met(p: Seq<PieceView>, src: IpAddress, dst: IpAddress) -> bool {
    ||| {
        &&& p.len() == 2
        &&& p[0] matches PieceView::Sql(t)
        &&& p[1] matches PieceView::Arg(BindView::Ip(b))
        &&& address_equality_holds(t, b, src, dst)
    }
    ||| {
        &&& p.len() == 4
        &&& p[0] matches PieceView::Sql(t1)
        &&& p[1] matches PieceView::Arg(BindView::Ip(b1))
        &&& p[2] matches PieceView::Sql(t2)
        &&& p[3] matches PieceView::Arg(BindView::Ip(b2))
        &&& t2.len() >= 4 && t2.take(4) == " OR "@
        &&& (address_equality_holds(t1, b1, src, dst) || address_equality_holds(t2.skip(4), b2, src, dst))
    }
}

/// An address term reads the side its field names: `src:` matches rows
/// from the address, `dst:` rows to it, any other field either.
pub proof fn lemma_address_term_reads_its_side(
    a: IpAddress,
    field: Option<Field>,
    negated: bool,
    glob: bool,
    src: IpAddress,
    dst: IpAddress,
)
    ensures
        ({
            let t = TermView { value: ValueView::Ip(a), field, negated, glob };
            address_condition_met(term_body(t), src, dst) <==> match field {
                Some(Field::SrcIp) => src == a,
                Some(Field::DstIp) => dst == a,
                _ => src == a || dst == a,
            }
        }),
{
    reveal_strlit("l.src_ip = ");
    reveal_strlit("l.dst_ip = ");
    reveal_strlit(" OR l.dst_ip = ");
    reveal_strlit(" OR ");
    assert("l.src_ip = "@[2] != "l.dst_ip = "@[2]);
    assert(" OR l.dst_ip = "@.take(4) =~= " OR "@);
    assert(" OR l.dst_ip = "@.skip(4) =~= "l.dst_ip = "@);
}

/// A severity term with level `n` selects the rows of severity `n` or more
/// urgent: a row of severity `s` meets its condition exactly when
/// `s <= n`. A severity no level reads selects nothing.
pub proof fn lemma_severity_term_selects_as_urgent_or_more(x: Seq<char>, negated: bool, glob: bool, s: int)
    ensures
        ({
            let t = TermView { value: ValueView::Text(x), field: Some(Field::Severity), negated, glob };
            match severity_of_text(x) {
                Some(n) => small_comparison_met(term_body(t), "l.severity"@, s) <==> s <= n,
                None => term_body(t) == seq![sq("FALSE"@)],
            }
        }),
{
    reveal_strlit("l.severity <= ");
    reveal_strlit("l.severity");
    reveal_strlit(" <= ");
    reveal_strlit(" >= ");
    reveal_strlit(" < ");
    reveal_strlit(" > ");
    reveal_strlit(" = ");
    reveal_strlit(" <> ");
    let c = "l.severity"@;
    let le = "l.severity <= "@;
    assert(le =~= c + " <= "@);
    assert(le != c + " >= "@) by {
        assert(le[11] != (c + " >= "@)[11]);
    }
    assert(le != c + " <> "@) by {
        assert(le[12] != (c + " <> "@)[12]);
    }
    assert(le.len() != (c + " < "@).len());
    assert(le.len() != (c + " > "@).len());
    assert(le.len() != (c + " = "@).len());
}

/// The condition of a search term. A negated one reads an unknown column
/// as "does not match" rather than dropping the row: `NOT (a OR b)` is
/// NULL, not TRUE, once `a` or `b` is NULL.
pub open spec fn term_pieces(t: TermView) -> Seq<PieceView> {
    seq![sq(if t.negated { " AND NOT COALESCE(("@ } else { " AND ("@ })] + term_body(t) + seq![
        sq(if t.negated { "), FALSE)"@ } else { ")"@ }),
    ]
}

/// The conditions of all terms, in order.
pub open spec fn terms_pieces(ts: Seq<TermView>) -> Seq<PieceView>
    decreases ts.len(),
{
    if ts.len() == 0 {
        Seq::empty()
    } else {
        terms_pieces(ts.drop_last()) + term_pieces(ts.last())
    }
}

fn push_ilike(q: &mut Vec<Piece>, field: Option<Field>, pat: &String)
    ensures
        pieces(final(q)@) == pieces(old(q)@) + ilike_upto(
            text_columns(field),
            pat@,
            text_columns(field).len() as int,
        ),
{
    let cols = text_column_list(field);
    let ghost cv = col_views(cols@);
    let mut i: usize = 0;
    while i < cols.len()
        invariant
            0 <= i <= cols@.len(),
            cv == col_views(cols@),
            cv == text_columns(field),
            pieces(q@) == pieces(old(q)@) + ilike_upto(cv, pat@, i as int),
        decreases cols.len() - i,
    {
        let ghost before = pieces(q@);
        if i > 0 {
            push_sql(q, " OR ");
        }
        push_sql(q, cols[i]);
        push_sql(q, " ILIKE ");
        push_bind(q, Bind::Text(pat.clone()));
        i = i + 1;
        assert(pieces(q@) =~= pieces(old(q)@) + ilike_upto(cv, pat@, i as int));
    }
}

/// Appends the condition of a search term.
pub fn push_term(q: &mut Vec<Piece>, term: &Term)
    ensures
        pieces(final(q)@) == pieces(old(q)@) + term_pieces(term@),
{
    let ghost start = pieces(q@);
    push_sql(q, if term.negated { " AND NOT COALESCE((" } else { " AND (" });
    let ghost opened = pieces(q@);
    match (&term.value, term.field) {
        (Value::Ip(ip), field) => match field {
            Some(Field::SrcIp) => {
                push_sql(q, "l.src_ip = ");
                push_bind(q, Bind::Ip(*ip));
            },
            Some(Field::DstIp) => {
                push_sql(q, "l.dst_ip = ");
                push_bind(q, Bind::Ip(*ip));
            },
            _ => {
                push_sql(q, "l.src_ip = ");
                push_bind(q, Bind::Ip(*ip));
                push_sql(q, " OR l.dst_ip = ");
                push_bind(q, Bind::Ip(*ip));
            },
        },
        (Value::Cidr(net), field) => match field {
            Some(Field::SrcIp) => {
                push_sql(q, "l.src_ip <<= ");
                push_bind(q, Bind::Net(*net));
            },
            Some(Field::DstIp) => {
                push_sql(q, "l.dst_ip <<= ");
                push_bind(q, Bind::Net(*net));
            },
            _ => {
                push_sql(q, "l.src_ip <<= ");
                push_bind(q, Bind::Net(*net));
                push_sql(q, " OR l.dst_ip <<= ");
                push_bind(q, Bind::Net(*net));
            },
        },
        (Value::Port(p), field) => match field {
            Some(Field::SrcPort) => {
                push_sql(q, "l.src_port = ");
                push_bind(q, Bind::Int(*p));
            },
            Some(Field::DstPort) => {
                push_sql(q, "l.dst_port = ");
                push_bind(q, Bind::Int(*p));
            },
            _ => {
                push_sql(q, "l.src_port = ");
                push_bind(q, Bind::Int(*p));
                push_sql(q, " OR l.dst_port = ");
                push_bind(q, Bind::Int(*p));
            },
        },
        (Value::Mac(m), _) => {
            push_sql(q, "l.mac_address::text = ");
            push_bind(q, Bind::Text(m.clone()));
        },
        (Value::Asn(n), _) => {
            push_sql(q, "l.asn_number = ");
            push_bind(q, Bind::Long(*n as i64));
        },
        (Value::Text(t), Some(Field::Action)) => match action_id(t.as_str()) {
            Some(id) => {
                push_sql(q, "l.rule_action_id");
                push_sql(q, " = ");
                push_bind(q, Bind::Small(id));
            },
            None => {
                push_sql(q, "FALSE");
            },
        },
        (Value::Text(t), Some(Field::LogType)) => match log_type_id(t.as_str()) {
            Some(id) => {
                push_sql(q, "l.log_type_id");
                push_sql(q, " = ");
                push_bind(q, Bind::Small(id));
            },
            None => {
                push_sql(q, "FALSE");
            },
        },
        (Value::Text(t), Some(Field::Severity)) => match severity_level(t.as_str()) {
            Some(n) => {
                push_sql(q, "l.severity <= ");
                push_bind(q, Bind::Small(n));
            },
            None => {
                push_sql(q, "FALSE");
            },
        },
        (Value::Text(t), field) => {
            let pattern = like_pattern_exec(t.as_str(), term.glob);
            push_ilike(q, field, &pattern);
        },
    }
    assert(pieces(q@) =~= opened + term_body(term@));
    push_sql(q, if term.negated { "), FALSE)" } else { ")" });
    assert(pieces(q@) =~= start + term_pieces(term@));
}

// ---------------------------------------------------------------------------
// Time ranges
// ---------------------------------------------------------------------------

/// The first instant a timestamp can hold, in microseconds since the epoch
/// (1 January of the year -262143).
pub const FIRST_INSTANT: i64 = -8_334_601_315_200_000_000;

/// The last instant a timestamp can hold, in microseconds since the epoch
/// (31 December of the year 262142, 23:59:59.999999).
pub const LAST_INSTANT: i64 = 8_210_266_876_799_999_999;

/// The longest span a duration can hold, in whole seconds.
pub const LONGEST_SPAN: i64 = 9_223_372_036_854_775;

/// The seconds a unit of a range stands for: `h`, `d` or `m`.
pub open spec fn unit_seconds(c: char) -> int {
    if c == 'h' {
        3600
    } else if c == 'd' {
        86400
    } else if c == 'm' {
        60
    } else {
        0
    }
}

/// A range such as `7d` as the instant it starts at, counted back from
/// `now` (both in microseconds): a whole number, then `h`, `d` or `m`.
/// Anything else — or a span or start that no timestamp can hold — gives no
/// start.
pub open spec fn range_start_at(range: Seq<char>, now: i64) -> Option<i64> {
    if range.len() == 0 {
        None
    } else {
        match parse_int(range.drop_last(), true, i64::MIN as int, i64::MAX as int) {
            None => None,
            Some(n) => {
                let secs = n * unit_seconds(range.last());
                let start = now - secs * 1_000_000;
                if unit_seconds(range.last()) == 0 || secs < -LONGEST_SPAN || secs > LONGEST_SPAN
                    || start < FIRST_INSTANT || start > LAST_INSTANT {
                    None
                } else {
                    Some(start as i64)
                }
            },
        }
    }
}

/// A range such as `7d` as the instant it starts at, counted back from
/// `now`.
pub fn range_start(range: &str, now: i64) -> (r: Option<i64>)
    ensures
        r == range_start_at(range@, now),
{
    let cs = chars_of(range);
    if cs.len() == 0 {
        return None;
    }
    let last = cs[cs.len() - 1];
    let value = slice(cs.as_slice(), 0, cs.len() - 1);
    assert(value@ =~= cs@.drop_last());
    let n = match parse_i64(value.as_slice()) {
        Some(n) => n,
        None => return None,
    };
    let unit: i64 = if last == 'h' {
        3600
    } else if last == 'd' {
        86400
    } else if last == 'm' {
        60
    } else {
        return None;
    };
    let secs = match n.checked_mul(unit) {
        Some(s) => s,
        None => return None,
    };
    if secs < -LONGEST_SPAN || secs > LONGEST_SPAN {
        return None;
    }
    let start: i128 = now as i128 - (secs as i128) * 1_000_000;
    if start < FIRST_INSTANT as i128 || start > LAST_INSTANT as i128 {
        return None;
    }
    Some(start as i64)
}

// ---------------------------------------------------------------------------
// The conditions of a filter
// ---------------------------------------------------------------------------

/// The log types chosen.
#[verifier::opaque]
pub open spec fn type_clause(f: FilterView) -> Seq<PieceView> {
    let types = ids_of(f.log_type, IdTable::LogType);
    // Redundant for the result, but it is what lets the planner use the
    // partial index over the rare kinds.
    when(
        types.len() > 0,
        when(!types.contains(1i16), seq![sq(" AND l.log_type_id <> 1"@)]) + seq![
            sq(" AND l.log_type_id = ANY("@),
            bv(BindView::Ids(types)),
            sq(")"@),
        ],
    )
}

/// The pill `unknown` asks for rows without a recognised action.
pub open spec fn wants_unknown(f: FilterView) -> bool {
    f.action.contains("unknown"@)
}

/// The actions chosen. Where log types other than the firewall's are
/// chosen too, their rows without an action stay in.
#[verifier::opaque]
pub open spec fn action_clause(f: FilterView) -> Seq<PieceView> {
    let acts = ids_of(f.action, IdTable::Action);
    let unknown = wants_unknown(f);
    when(
        acts.len() > 0 || unknown,
        seq![sq(" AND ("@)] + when(
            acts.len() > 0,
            seq![sq("l.rule_action_id = ANY("@), bv(BindView::Ids(acts)), sq(")"@)] + when(
                unknown,
                seq![sq(" OR "@)],
            ),
        ) + when(unknown, seq![sq("l.rule_action_id IS NULL"@)]) + (match non_firewall_ids(
            f.log_type,
        ) {
            Some(other) => seq![
                sq(" OR (l.rule_action_id IS NULL AND l.log_type_id = ANY("@),
                bv(BindView::Ids(other)),
                sq("))"@),
            ],
            None => Seq::empty(),
        }) + seq![sq(")"@)],
    )
}

/// The directions chosen; only firewall rows have one.
#[verifier::opaque]
pub open spec fn direction_clause(f: FilterView) -> Seq<PieceView> {
    let dirs = ids_of(f.direction, IdTable::Direction);
    when(
        dirs.len() > 0,
        seq![sq(" AND (l.direction_id = ANY("@), bv(BindView::Ids(dirs)), sq(")"@)]
            + (match non_firewall_ids(f.log_type) {
            Some(other) => seq![sq(" OR l.log_type_id = ANY("@), bv(BindView::Ids(other)), sq(")"@)],
            None => Seq::empty(),
        }) + seq![sq(")"@)],
    )
}

pub open spec fn lowered(v: Seq<Seq<char>>) -> Seq<Seq<char>> {
    v.map_values(|s: Seq<char>| lowercase(s))
}

pub open spec fn uppered(v: Seq<Seq<char>>) -> Seq<Seq<char>> {
    v.map_values(|s: Seq<char>| uppercase(s))
}

/// The interfaces chosen, on either side.
#[verifier::opaque]
pub open spec fn iface_clause(f: FilterView) -> Seq<PieceView> {
    when(
        f.iface.len() > 0,
        seq![
            sq(" AND (lower(ii.name) = ANY("@),
            bv(BindView::Names(lowered(f.iface))),
            sq(") OR lower(io.name) = ANY("@),
            bv(BindView::Names(lowered(f.iface))),
            sq("))"@),
        ],
    )
}

/// The protocols chosen.
#[verifier::opaque]
pub open spec fn proto_clause(f: FilterView) -> Seq<PieceView> {
    when(
        f.proto.len() > 0,
        seq![sq(" AND lower(pr.name) = ANY("@), bv(BindView::Names(lowered(f.proto))), sq(")"@)],
    )
}

/// The countries chosen.
#[verifier::opaque]
pub open spec fn country_clause(f: FilterView) -> Seq<PieceView> {
    when(
        f.country.len() > 0,
        seq![sq(" AND l.geo_country = ANY("@), bv(BindView::Names(uppered(f.country))), sq(")"@)],
    )
}

/// Exactly this interface on one side; an empty name does not filter.
#[verifier::opaque]
pub open spec fn side_clause(col: Seq<char>, name: Option<Seq<char>>) -> Seq<PieceView> {
    match name {
        Some(n) => when(n.len() > 0, seq![sq(col), bv(BindView::Text(lowercase(n)))]),
        None => Seq::empty(),
    }
}

/// A port on either side.
#[verifier::opaque]
pub open spec fn port_clause(f: FilterView) -> Seq<PieceView> {
    match f.port {
        Some(p) => seq![
            sq(" AND (l.src_port = "@),
            bv(BindView::Int(p)),
            sq(" OR l.dst_port = "@),
            bv(BindView::Int(p)),
            sq(")"@),
        ],
        None => Seq::empty(),
    }
}

/// A least threat score.
#[verifier::opaque]
pub open spec fn threat_clause(f: FilterView) -> Seq<PieceView> {
    match f.threat_min {
        Some(m) => seq![sq(" AND l.threat_score >= "@), bv(BindView::Int(m))],
        None => Seq::empty(),
    }
}

/// Where the time window starts: `from`, else the start of `range`.
pub open spec fn start_of(f: FilterView, now: i64) -> Option<i64> {
    match f.from {
        Some(t) => Some(t),
        None => match f.range {
            Some(r) => range_start_at(r, now),
            None => None,
        },
    }
}

/// The time window.
#[verifier::opaque]
pub open spec fn time_clause(f: FilterView, now: i64) -> Seq<PieceView> {
    (match start_of(f, now) {
        Some(t) => seq![sq(" AND l.timestamp >= "@), bv(BindView::Time(t))],
        None => Seq::empty(),
    }) + (match f.to {
        Some(t) => seq![sq(" AND l.timestamp <= "@), bv(BindView::Time(t))],
        None => Seq::empty(),
    })
}

/// The `WHERE` clause of a filter at the instant `now`: each set field
/// adds its condition, joined by `AND`, in a fixed order.
pub open spec fn where_pieces(f: FilterView, now: i64) -> Seq<PieceView> {
    where_head(f, now) + terms_pieces(filter_terms(f))
}

/// The conditions of the fields of a filter, before its search.
pub open spec fn where_head(f: FilterView, now: i64) -> Seq<PieceView> {
    seq![sq(" WHERE TRUE"@)] + type_clause(f) + action_clause(f) + direction_clause(f) + (
    iface_clause(f) + proto_clause(f) + country_clause(f) + side_clause(
        " AND lower(ii.name) = "@,
        f.iface_in,
    ) + side_clause(" AND lower(io.name) = "@, f.iface_out)) + (port_clause(f) + threat_clause(f)
        + time_clause(f, now))
}

fn has_id(v: &Vec<i16>, x: i16) -> (r: bool)
    ensures
        r == v@.contains(x),
{
    let mut i: usize = 0;
    while i < v.len()
        invariant
            0 <= i <= v@.len(),
            forall|k: int| 0 <= k < i ==> v@[k] != x,
        decreases v.len() - i,
    {
        if v[i] == x {
            return true;
        }
        i = i + 1;
    }
    false
}

fn has_unknown(v: &Vec<String>) -> (r: bool)
    ensures
        r == strs(v@).contains("unknown"@),
{
    let mut i: usize = 0;
    while i < v.len()
        invariant
            0 <= i <= v@.len(),
            forall|k: int| 0 <= k < i ==> strs(v@)[k] != "unknown"@,
        decreases v.len() - i,
    {
        let cs = chars_of(v[i].as_str());
        if same_str(cs.as_slice(), "unknown") {
            assert(strs(v@)[i as int] == "unknown"@);
            return true;
        }
        i = i + 1;
    }
    false
}

fn lower_all(v: &Vec<String>) -> (r: Vec<String>)
    ensures
        strs(r@) == lowered(strs(v@)),
{
    let mut out: Vec<String> = Vec::new();
    let mut i: usize = 0;
    while i < v.len()
        invariant
            0 <= i <= v@.len(),
            strs(out@) == lowered(strs(v@)).take(i as int),
        decreases v.len() - i,
    {
        assert(strs(v@)[i as int] == v@[i as int]@);
        let ghost before = out@;
        let x = to_lowercase(v[i].as_str());
        out.push(x);
        assert(strs(out@) =~= strs(before).push(lowercase(v@[i as int]@)));
        i = i + 1;
        assert(strs(out@) =~= lowered(strs(v@)).take(i as int));
    }
    assert(lowered(strs(v@)).take(v@.len() as int) =~= lowered(strs(v@)));
    out
}

fn upper_all(v: &Vec<String>) -> (r: Vec<String>)
    ensures
        strs(r@) == uppered(strs(v@)),
{
    let mut out: Vec<String> = Vec::new();
    let mut i: usize = 0;
    while i < v.len()
        invariant
            0 <= i <= v@.len(),
            strs(out@) == uppered(strs(v@)).take(i as int),
        decreases v.len() - i,
    {
        assert(strs(v@)[i as int] == v@[i as int]@);
        let ghost before = out@;
        let x = to_uppercase(v[i].as_str());
        out.push(x);
        assert(strs(out@) =~= strs(before).push(uppercase(v@[i as int]@)));
        i = i + 1;
        assert(strs(out@) =~= uppered(strs(v@)).take(i as int));
    }
    assert(uppered(strs(v@)).take(v@.len() as int) =~= uppered(strs(v@)));
    out
}

impl LogFilter {
    fn type_pieces(&self) -> (r: Vec<Piece>)
        ensures
            pieces(r@) == type_clause(self@),
    {
        let mut q: Vec<Piece> = Vec::new();
        let types = ids(self.log_type.as_slice(), IdTable::LogType);
        if types.len() > 0 {
            if !has_id(&types, 1) {
                push_sql(&mut q, " AND l.log_type_id <> 1");
            }
            push_sql(&mut q, " AND l.log_type_id = ANY(");
            push_bind(&mut q, Bind::Ids(types));
            push_sql(&mut q, ")");
        }
        reveal(type_clause);
        assert(pieces(q@) =~= type_clause(self@));
        q
    }

    fn action_pieces(&self) -> (r: Vec<Piece>)
        ensures
            pieces(r@) == action_clause(self@),
    {
        let mut q: Vec<Piece> = Vec::new();
        let unknown = has_unknown(&self.action);
        let acts = ids(self.action.as_slice(), IdTable::Action);
        if acts.len() > 0 || unknown {
            push_sql(&mut q, " AND (");
            if acts.len() > 0 {
                push_sql(&mut q, "l.rule_action_id = ANY(");
                push_bind(&mut q, Bind::Ids(acts));
                push_sql(&mut q, ")");
                if unknown {
                    push_sql(&mut q, " OR ");
                }
            }
            if unknown {
                push_sql(&mut q, "l.rule_action_id IS NULL");
            }
            match non_firewall(self.log_type.as_slice()) {
                Some(other) => {
                    push_sql(&mut q, " OR (l.rule_action_id IS NULL AND l.log_type_id = ANY(");
                    push_bind(&mut q, Bind::Ids(other));
                    push_sql(&mut q, "))");
                },
                None => {},
            }
            push_sql(&mut q, ")");
        }
        reveal(action_clause);
        assert(pieces(q@) =~= action_clause(self@));
        q
    }

    fn direction_pieces(&self) -> (r: Vec<Piece>)
        ensures
            pieces(r@) == direction_clause(self@),
    {
        let mut q: Vec<Piece> = Vec::new();
        let dirs = ids(self.direction.as_slice(), IdTable::Direction);
        if dirs.len() > 0 {
            push_sql(&mut q, " AND (l.direction_id = ANY(");
            push_bind(&mut q, Bind::Ids(dirs));
            push_sql(&mut q, ")");
            match non_firewall(self.log_type.as_slice()) {
                Some(other) => {
                    push_sql(&mut q, " OR l.log_type_id = ANY(");
                    push_bind(&mut q, Bind::Ids(other));
                    push_sql(&mut q, ")");
                },
                None => {},
            }
            push_sql(&mut q, ")");
        }
        reveal(direction_clause);
        assert(pieces(q@) =~= direction_clause(self@));
        q
    }

    fn name_pieces(&self) -> (r: Vec<Piece>)
        ensures
            pieces(r@) == iface_clause(self@) + proto_clause(self@) + country_clause(self@)
                + side_clause(" AND lower(ii.name) = "@, self@.iface_in) + side_clause(
                " AND lower(io.name) = "@,
                self@.iface_out,
            ),
    {
        let mut q: Vec<Piece> = Vec::new();
        if self.iface.len() > 0 {
            push_sql(&mut q, " AND (lower(ii.name) = ANY(");
            push_bind(&mut q, Bind::Names(lower_all(&self.iface)));
            push_sql(&mut q, ") OR lower(io.name) = ANY(");
            push_bind(&mut q, Bind::Names(lower_all(&self.iface)));
            push_sql(&mut q, "))");
        }
        if self.proto.len() > 0 {
            push_sql(&mut q, " AND lower(pr.name) = ANY(");
            push_bind(&mut q, Bind::Names(lower_all(&self.proto)));
            push_sql(&mut q, ")");
        }
        if self.country.len() > 0 {
            push_sql(&mut q, " AND l.geo_country = ANY(");
            push_bind(&mut q, Bind::Names(upper_all(&self.country)));
            push_sql(&mut q, ")");
        }
        match &self.iface_in {
            Some(name) => if chars_of(name.as_str()).len() > 0 {
                push_sql(&mut q, " AND lower(ii.name) = ");
                push_bind(&mut q, Bind::Text(to_lowercase(name.as_str())));
            },
            None => {},
        }
        match &self.iface_out {
            Some(name) => if chars_of(name.as_str()).len() > 0 {
                push_sql(&mut q, " AND lower(io.name) = ");
                push_bind(&mut q, Bind::Text(to_lowercase(name.as_str())));
            },
            None => {},
        }
        reveal(iface_clause);
        reveal(proto_clause);
        reveal(country_clause);
        reveal(side_clause);
        assert(pieces(q@) =~= iface_clause(self@) + proto_clause(self@) + country_clause(self@)
            + side_clause(" AND lower(ii.name) = "@, self@.iface_in) + side_clause(
            " AND lower(io.name) = "@,
            self@.iface_out,
        ));
        q
    }

    fn value_pieces(&self, now: i64) -> (r: Vec<Piece>)
        ensures
            pieces(r@) == port_clause(self@) + threat_clause(self@) + time_clause(self@, now),
    {
        let mut q: Vec<Piece> = Vec::new();
        match self.port {
            Some(port) => {
                push_sql(&mut q, " AND (l.src_port = ");
                push_bind(&mut q, Bind::Int(port));
                push_sql(&mut q, " OR l.dst_port = ");
                push_bind(&mut q, Bind::Int(port));
                push_sql(&mut q, ")");
            },
            None => {},
        }
        match self.threat_min {
            Some(min) => {
                push_sql(&mut q, " AND l.threat_score >= ");
                push_bind(&mut q, Bind::Int(min));
            },
            None => {},
        }
        let from = match self.from {
            Some(t) => Some(t),
            None => match &self.range {
                Some(r) => range_start(r.as_str(), now),
                None => None,
            },
        };
        match from {
            Some(t) => {
                push_sql(&mut q, " AND l.timestamp >= ");
                push_bind(&mut q, Bind::Time(t));
            },
            None => {},
        }
        match self.to {
            Some(t) => {
                push_sql(&mut q, " AND l.timestamp <= ");
                push_bind(&mut q, Bind::Time(t));
            },
            None => {},
        }
        reveal(port_clause);
        reveal(threat_clause);
        reveal(time_clause);
        assert(pieces(q@) =~= port_clause(self@) + threat_clause(self@) + time_clause(self@, now));
        q
    }

    /// Appends the `WHERE` clause of this filter, with `now` (microseconds
    /// since the epoch) as the end of a `range`.
    pub fn push_where_at(&self, q: &mut Vec<Piece>, now: i64)
        ensures
            pieces(final(q)@) == pieces(old(q)@) + where_pieces(self@, now),
    {
        let ghost start = pieces(q@);
        let mut head: Vec<Piece> = Vec::new();
        push_sql(&mut head, " WHERE TRUE");
        push_all(&mut head, self.type_pieces());
        push_all(&mut head, self.action_pieces());
        push_all(&mut head, self.direction_pieces());
        push_all(&mut head, self.name_pieces());
        push_all(&mut head, self.value_pieces(now));
        assert(pieces(head@) =~= where_head(self@, now));
        push_all(q, head);
        let terms = filter_search(&self.q);
        let ghost tv = terms_view(terms@);
        let ghost mid = pieces(q@);
        let mut i: usize = 0;
        while i < terms.len()
            invariant
                0 <= i <= terms@.len(),
                tv == terms_view(terms@),
                pieces(q@) == mid + terms_pieces(tv.take(i as int)),
            decreases terms.len() - i,
        {
            assert(tv.take(i + 1).drop_last() =~= tv.take(i as int));
            push_term(q, &terms[i]);
            i = i + 1;
            assert(pieces(q@) =~= mid + terms_pieces(tv.take(i as int)));
        }
        assert(tv.take(tv.len() as int) =~= tv);
        assert(pieces(q@) =~= start + where_pieces(self@, now));
    }

    /// Appends the `WHERE` clause of this filter, a `range` counted back
    /// from the current time.
    pub fn push_where(&self, q: &mut Vec<Piece>)
        ensures
            exists|now: i64| pieces(final(q)@) == pieces(old(q)@) + where_pieces(self@, now),
    {
        let now = crate::clock::now_micros();
        self.push_where_at(q, now);
    }
}


// ---------------------------------------------------------------------------
// Filters combine with AND
// ---------------------------------------------------------------------------

/// A field of a filter; the time window (`from`, `to`, `range`) counts as
/// one.
#[derive(Debug, Clone, Copy, PartialEq, Eq, Structural)]
pub enum FilterField {
    LogType,
    Action,
    Direction,
    Iface,
    Proto,
    Country,
    IfaceIn,
    IfaceOut,
    Port,
    ThreatMin,
    Time,
    Search,
}

/// The filter that keeps only what `f` chose in field `g`.
pub open spec fn field_alone(f: FilterView, g: FilterField) -> FilterView {
    let e = empty_filter();
    match g {
        FilterField::LogType => FilterView { log_type: f.log_type, ..e },
        FilterField::Action => FilterView { action: f.action, ..e },
        FilterField::Direction => FilterView { direction: f.direction, ..e },
        FilterField::Iface => FilterView { iface: f.iface, ..e },
        FilterField::Proto => FilterView { proto: f.proto, ..e },
        FilterField::Country => FilterView { country: f.country, ..e },
        FilterField::IfaceIn => FilterView { iface_in: f.iface_in, ..e },
        FilterField::IfaceOut => FilterView { iface_out: f.iface_out, ..e },
        FilterField::Port => FilterView { port: f.port, ..e },
        FilterField::ThreatMin => FilterView { threat_min: f.threat_min, ..e },
        FilterField::Time => FilterView { from: f.from, to: f.to, range: f.range, ..e },
        FilterField::Search => FilterView { q: f.q, ..e },
    }
}

/// What field `g` of `f` adds to the `WHERE` clause when it stands alone:
/// its conditions after `WHERE TRUE`.
pub open spec fn conjunct(f: FilterView, g: FilterField, now: i64) -> Seq<PieceView> {
    where_pieces(field_alone(f, g), now).skip(1)
}

/// The condition of one field, as `where_head` and `where_pieces` place it.
pub open spec fn field_clause(f: FilterView, g: FilterField, now: i64) -> Seq<PieceView> {
    match g {
        FilterField::LogType => type_clause(f),
        FilterField::Action => action_clause(f),
        FilterField::Direction => direction_clause(f),
        FilterField::Iface => iface_clause(f),
        FilterField::Proto => proto_clause(f),
        FilterField::Country => country_clause(f),
        FilterField::IfaceIn => side_clause(" AND lower(ii.name) = "@, f.iface_in),
        FilterField::IfaceOut => side_clause(" AND lower(io.name) = "@, f.iface_out),
        FilterField::Port => port_clause(f),
        FilterField::ThreatMin => threat_clause(f),
        FilterField::Time => time_clause(f, now),
        FilterField::Search => terms_pieces(filter_terms(f)),
    }
}

proof fn lemma_empty_names_no_ids(t: IdTable)
    ensures
        ids_of(Seq::<Seq<char>>::empty(), t) == Seq::<i16>::empty(),
        non_firewall_ids(Seq::<Seq<char>>::empty()) is None,
        !wants_unknown(empty_filter()),
{
    assert(without_firewall(Seq::<i16>::empty()) == Seq::<i16>::empty());
}

proof fn lemma_clauses_alone(f: FilterView, g: FilterField, now: i64)
    requires
        non_firewall_ids(f.log_type) is None || (f.action.len() == 0 && f.direction.len() == 0),
    ensures
        type_clause(field_alone(f, g)) == if g == FilterField::LogType {
            type_clause(f)
        } else {
            Seq::empty()
        },
        action_clause(field_alone(f, g)) == if g == FilterField::Action {
            action_clause(f)
        } else {
            Seq::empty()
        },
        direction_clause(field_alone(f, g)) == if g == FilterField::Direction {
            direction_clause(f)
        } else {
            Seq::empty()
        },
        iface_clause(field_alone(f, g)) == if g == FilterField::Iface {
            iface_clause(f)
        } else {
            Seq::empty()
        },
        proto_clause(field_alone(f, g)) == if g == FilterField::Proto {
            proto_clause(f)
        } else {
            Seq::empty()
        },
        country_clause(field_alone(f, g)) == if g == FilterField::Country {
            country_clause(f)
        } else {
            Seq::empty()
        },
        side_clause(" AND lower(ii.name) = "@, field_alone(f, g).iface_in) == if g == FilterField::IfaceIn {
            side_clause(" AND lower(ii.name) = "@, f.iface_in)
        } else {
            Seq::empty()
        },
        side_clause(" AND lower(io.name) = "@, field_alone(f, g).iface_out) == if g == FilterField::IfaceOut {
            side_clause(" AND lower(io.name) = "@, f.iface_out)
        } else {
            Seq::empty()
        },
        port_clause(field_alone(f, g)) == if g == FilterField::Port {
            port_clause(f)
        } else {
            Seq::empty()
        },
        threat_clause(field_alone(f, g)) == if g == FilterField::ThreatMin {
            threat_clause(f)
        } else {
            Seq::empty()
        },
        time_clause(field_alone(f, g), now) == if g == FilterField::Time {
            time_clause(f, now)
        } else {
            Seq::empty()
        },
        terms_pieces(filter_terms(field_alone(f, g))) == if g == FilterField::Search {
            terms_pieces(filter_terms(f))
        } else {
            Seq::empty()
        },
{
    lemma_empty_names_no_ids(IdTable::LogType);
    lemma_empty_names_no_ids(IdTable::Action);
    lemma_empty_names_no_ids(IdTable::Direction);
    let a = field_alone(f, g);
    let l = Seq::<Seq<char>>::empty();
    assert(a.log_type == l || g == FilterField::LogType);
    assert(a.action == l || g == FilterField::Action);
    assert(a.direction == l || g == FilterField::Direction);
    assert(wants_unknown(a) ==> g == FilterField::Action);
    assert(terms_pieces(Seq::<TermView>::empty()) == Seq::<PieceView>::empty());
    assert(type_clause(a) == if g == FilterField::LogType {
        type_clause(f)
    } else {
        Seq::empty()
    }) by {
        reveal(type_clause);
    }
    assert(action_clause(a) == if g == FilterField::Action {
        action_clause(f)
    } else {
        Seq::empty()
    }) by {
        reveal(action_clause);
    }
    assert(direction_clause(a) == if g == FilterField::Direction {
        direction_clause(f)
    } else {
        Seq::empty()
    }) by {
        reveal(direction_clause);
    }
    assert(iface_clause(a) == if g == FilterField::Iface {
        iface_clause(f)
    } else {
        Seq::empty()
    }) by {
        reveal(iface_clause);
    }
    assert(proto_clause(a) == if g == FilterField::Proto {
        proto_clause(f)
    } else {
        Seq::empty()
    }) by {
        reveal(proto_clause);
    }
    assert(country_clause(a) == if g == FilterField::Country {
        country_clause(f)
    } else {
        Seq::empty()
    }) by {
        reveal(country_clause);
    }
    assert(side_clause(" AND lower(ii.name) = "@, a.iface_in) == if g == FilterField::IfaceIn {
        side_clause(" AND lower(ii.name) = "@, f.iface_in)
    } else {
        Seq::empty()
    }) by {
        reveal(side_clause);
    }
    assert(side_clause(" AND lower(io.name) = "@, a.iface_out) == if g == FilterField::IfaceOut {
        side_clause(" AND lower(io.name) = "@, f.iface_out)
    } else {
        Seq::empty()
    }) by {
        reveal(side_clause);
    }
    assert(port_clause(a) == if g == FilterField::Port {
        port_clause(f)
    } else {
        Seq::empty()
    }) by {
        reveal(port_clause);
    }
    assert(threat_clause(a) == if g == FilterField::ThreatMin {
        threat_clause(f)
    } else {
        Seq::empty()
    }) by {
        reveal(threat_clause);
    }
    assert(time_clause(a, now) == if g == FilterField::Time {
        time_clause(f, now)
    } else {
        Seq::empty()
    }) by {
        reveal(time_clause);
    }
}

/// Nothing, or conditions whose first piece is SQL text that begins with
/// ` AND `.
pub open spec fn and_led(s: Seq<PieceView>) -> bool {
    s.len() == 0 || (s[0] matches PieceView::Sql(t) && t.len() >= 5 && t.take(5) == " AND "@)
}

proof fn lemma_and_text(t: Seq<char>)
    requires
        t.len() >= 5,
        t[0] == ' ' && t[1] == 'A' && t[2] == 'N' && t[3] == 'D' && t[4] == ' ',
    ensures
        and_led(seq![sq(t)]),
        t.take(5) == " AND "@,
{
    reveal_strlit(" AND ");
    assert(t.take(5) =~= " AND "@);
}

proof fn lemma_term_and_led(t: TermView)
    ensures
        and_led(term_pieces(t)),
{
    reveal_strlit(" AND NOT COALESCE((");
    reveal_strlit(" AND (");
    let h = if t.negated { " AND NOT COALESCE(("@ } else { " AND ("@ };
    lemma_and_text(h);
}

proof fn lemma_terms_and_led(ts: Seq<TermView>)
    ensures
        and_led(terms_pieces(ts)),
    decreases ts.len(),
{
    if ts.len() > 0 {
        lemma_terms_and_led(ts.drop_last());
        lemma_term_and_led(ts.last());
        if ts.drop_last().len() == 0 {
            assert(terms_pieces(ts.drop_last()) =~= Seq::<PieceView>::empty());
            assert(terms_pieces(ts) =~= term_pieces(ts.last()));
        } else {
            assert(terms_pieces(ts.drop_last()).len() > 0) by {
                lemma_terms_nonempty(ts.drop_last());
            }
        }
    }
}

proof fn lemma_terms_nonempty(ts: Seq<TermView>)
    requires
        ts.len() > 0,
    ensures
        terms_pieces(ts).len() > 0,
    decreases ts.len(),
{
}

proof fn lemma_clause_and_led(f: FilterView, g: FilterField, now: i64)
    ensures
        and_led(field_clause(f, g, now)),
{
    match g {
        FilterField::LogType => {
            reveal(type_clause);
            reveal_strlit(" AND l.log_type_id <> 1");
            reveal_strlit(" AND l.log_type_id = ANY(");
            lemma_and_text(" AND l.log_type_id <> 1"@);
            lemma_and_text(" AND l.log_type_id = ANY("@);
        },
        FilterField::Action => {
            reveal(action_clause);
            reveal_strlit(" AND (");
            lemma_and_text(" AND ("@);
        },
        FilterField::Direction => {
            reveal(direction_clause);
            reveal_strlit(" AND (l.direction_id = ANY(");
            lemma_and_text(" AND (l.direction_id = ANY("@);
        },
        FilterField::Iface => {
            reveal(iface_clause);
            reveal_strlit(" AND (lower(ii.name) = ANY(");
            lemma_and_text(" AND (lower(ii.name) = ANY("@);
        },
        FilterField::Proto => {
            reveal(proto_clause);
            reveal_strlit(" AND lower(pr.name) = ANY(");
            lemma_and_text(" AND lower(pr.name) = ANY("@);
        },
        FilterField::Country => {
            reveal(country_clause);
            reveal_strlit(" AND l.geo_country = ANY(");
            lemma_and_text(" AND l.geo_country = ANY("@);
        },
        FilterField::IfaceIn => {
            reveal(side_clause);
            reveal_strlit(" AND lower(ii.name) = ");
            lemma_and_text(" AND lower(ii.name) = "@);
        },
        FilterField::IfaceOut => {
            reveal(side_clause);
            reveal_strlit(" AND lower(io.name) = ");
            lemma_and_text(" AND lower(io.name) = "@);
        },
        FilterField::Port => {
            reveal(port_clause);
            reveal_strlit(" AND (l.src_port = ");
            lemma_and_text(" AND (l.src_port = "@);
        },
        FilterField::ThreatMin => {
            reveal(threat_clause);
            reveal_strlit(" AND l.threat_score >= ");
            lemma_and_text(" AND l.threat_score >= "@);
        },
        FilterField::Time => {
            reveal(time_clause);
            reveal_strlit(" AND l.timestamp >= ");
            reveal_strlit(" AND l.timestamp <= ");
            lemma_and_text(" AND l.timestamp >= "@);
            lemma_and_text(" AND l.timestamp <= "@);
        },
        FilterField::Search => {
            lemma_terms_and_led(filter_terms(f));
        },
    }
}

proof fn lemma_field_alone(f: FilterView, g: FilterField, now: i64)
    requires
        non_firewall_ids(f.log_type) is None || (f.action.len() == 0 && f.direction.len() == 0),
    ensures
        where_pieces(field_alone(f, g), now) == seq![sq(" WHERE TRUE"@)] + field_clause(f, g, now),
{
    lemma_clauses_alone(f, g, now);
    assert(where_pieces(field_alone(f, g), now) =~= seq![sq(" WHERE TRUE"@)] + field_clause(f, g, now));
}

/// Filters combine with AND: the `WHERE` clause of a filter is `WHERE TRUE`
/// followed by what each of its fields adds when it stands alone, in a
/// fixed order, and each field adds nothing or conditions that begin with
/// `AND`; the search adds one such condition per term. An unset field
/// adds nothing. The action and direction conditions keep the rows of the
/// other log types chosen beside the firewall's, which have neither; the
/// law speaks of filters where that does not arise.
pub proof fn lemma_filters_combine_with_and(f: FilterView, now: i64)
    requires
        non_firewall_ids(f.log_type) is None || (f.action.len() == 0 && f.direction.len() == 0),
    ensures
        where_pieces(f, now) == seq![sq(" WHERE TRUE"@)] + conjunct(f, FilterField::LogType, now) + conjunct(
            f,
            FilterField::Action,
            now,
        ) + conjunct(f, FilterField::Direction, now) + conjunct(f, FilterField::Iface, now) + conjunct(
            f,
            FilterField::Proto,
            now,
        ) + conjunct(f, FilterField::Country, now) + conjunct(f, FilterField::IfaceIn, now) + conjunct(
            f,
            FilterField::IfaceOut,
            now,
        ) + conjunct(f, FilterField::Port, now) + conjunct(f, FilterField::ThreatMin, now) + conjunct(
            f,
            FilterField::Time,
            now,
        ) + conjunct(f, FilterField::Search, now),
        conjunct(f, FilterField::Search, now) == terms_pieces(filter_terms(f)),
        forall|g: FilterField| #[trigger] conjunct(f, g, now) == field_clause(f, g, now),
        forall|g: FilterField| and_led(#[trigger] conjunct(f, g, now)),
        forall|t: TermView| and_led(#[trigger] term_pieces(t)),
{
    lemma_conjunct(f, FilterField::LogType, now);
    lemma_conjunct(f, FilterField::Action, now);
    lemma_conjunct(f, FilterField::Direction, now);
    lemma_conjunct(f, FilterField::Iface, now);
    lemma_conjunct(f, FilterField::Proto, now);
    lemma_conjunct(f, FilterField::Country, now);
    lemma_conjunct(f, FilterField::IfaceIn, now);
    lemma_conjunct(f, FilterField::IfaceOut, now);
    lemma_conjunct(f, FilterField::Port, now);
    lemma_conjunct(f, FilterField::ThreatMin, now);
    lemma_conjunct(f, FilterField::Time, now);
    lemma_conjunct(f, FilterField::Search, now);
    assert(where_pieces(f, now) =~= seq![sq(" WHERE TRUE"@)] + conjunct(f, FilterField::LogType, now)
        + conjunct(f, FilterField::Action, now) + conjunct(f, FilterField::Direction, now) + conjunct(
        f,
        FilterField::Iface,
        now,
    ) + conjunct(f, FilterField::Proto, now) + conjunct(f, FilterField::Country, now) + conjunct(
        f,
        FilterField::IfaceIn,
        now,
    ) + conjunct(f, FilterField::IfaceOut, now) + conjunct(f, FilterField::Port, now) + conjunct(
        f,
        FilterField::ThreatMin,
        now,
    ) + conjunct(f, FilterField::Time, now) + conjunct(f, FilterField::Search, now));
    lemma_every_conjunct(f, now);
}

proof fn lemma_conjunct(f: FilterView, g: FilterField, now: i64)
    requires
        non_firewall_ids(f.log_type) is None || (f.action.len() == 0 && f.direction.len() == 0),
    ensures
        conjunct(f, g, now) == field_clause(f, g, now),
        and_led(conjunct(f, g, now)),
{
    lemma_field_alone(f, g, now);
    assert((seq![sq(" WHERE TRUE"@)] + field_clause(f, g, now)).skip(1) =~= field_clause(f, g, now));
    lemma_clause_and_led(f, g, now);
}

proof fn lemma_every_conjunct(f: FilterView, now: i64)
    requires
        non_firewall_ids(f.log_type) is None || (f.action.len() == 0 && f.direction.len() == 0),
    ensures
        forall|g: FilterField| #[trigger] conjunct(f, g, now) == field_clause(f, g, now),
        forall|g: FilterField| and_led(#[trigger] conjunct(f, g, now)),
        forall|t: TermView| and_led(#[trigger] term_pieces(t)),
{
    assert forall|g: FilterField| #[trigger] conjunct(f, g, now) == field_clause(f, g, now) && and_led(
        conjunct(f, g, now),
    ) by {
        lemma_conjunct(f, g, now);
    }
    assert forall|t: TermView| and_led(#[trigger] term_pieces(t)) by {
        lemma_term_and_led(t);
    }
}

} // verus!
