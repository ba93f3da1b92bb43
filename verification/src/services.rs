//! Service names by port and protocol, from the IANA registry, for the
//! service column of the log table.
use vstd::prelude::*;
use crate::sql::strs;
use crate::text::{
    ascii_lower, chars_of, eq_ignore_case, eq_ignore_case_exec, find_char, find_char_exec,
    lower_ascii, parse_i32, parse_int, same_str, string_from, to_uppercase, trim, trim_exec,
    uppercase,
};

verus! {

/// The transport protocols the registry tells apart; the column is blank
/// on reserved and unassigned rows.
pub open spec fn known_protocol(p: Seq<char>) -> bool {
    p == "tcp"@ || p == "udp"@ || p == "sctp"@ || p == "dccp"@
}

/// Whether the registry tells this protocol apart.
pub fn is_known_protocol(p: &str) -> (r: bool)
    ensures
        r == known_protocol(p@),
{
    let c = chars_of(p);
    same_str(c.as_slice(), "tcp") || same_str(c.as_slice(), "udp") || same_str(c.as_slice(), "sctp")
        || same_str(c.as_slice(), "dccp")
}

/// What the `csv` reader yields for this text: the records after the
/// header row that read without error, each as its fields.
pub uninterp spec fn csv_records(data: Seq<char>) -> Seq<Seq<Seq<char>>>;

pub open spec fn records_view(r: Seq<Vec<String>>) -> Seq<Seq<Seq<char>>> {
    r.map_values(|rec: Vec<String>| strs(rec@))
}

/// Reads CSV text with a header row (the `csv` crate's reader with its
/// defaults), skipping records that do not read. The result is named.
#[verifier::external_body]
fn read_csv(data: &str) -> (r: Vec<Vec<String>>)
    ensures
        records_view(r@) == csv_records(data@),
{
    let mut reader = csv::ReaderBuilder::new().from_reader(data.as_bytes());
    reader.records().flatten().map(|rec| rec.iter().map(|f| f.to_string()).collect()).collect()
}

pub open spec fn field_of(rec: Seq<Seq<char>>, i: int) -> Seq<char> {
    if 0 <= i < rec.len() {
        rec[i]
    } else {
        Seq::empty()
    }
}

/// A record of the registry as `(port, protocol, name)`: the name, port
/// and protocol columns trimmed, the protocol lower-cased. Rows without a
/// name, with a port range such as `1000-1004`, with an unknown protocol
/// or with a port that is no number give nothing.
pub open spec fn service_row(rec: Seq<Seq<char>>) -> Option<(i32, Seq<char>, Seq<char>)> {
    let name = trim(field_of(rec, 0));
    let port = trim(field_of(rec, 1));
    let proto = ascii_lower(trim(field_of(rec, 2)));
    if name.len() == 0 || find_char(port, '-') is Some || !known_protocol(proto) {
        None
    } else {
        match parse_int(port, true, i32::MIN as int, i32::MAX as int) {
            Some(p) => Some((p as i32, proto, name)),
            None => None,
        }
    }
}

/// The rows of all records, in order.
pub open spec fn service_rows(recs: Seq<Seq<Seq<char>>>) -> Seq<(i32, Seq<char>, Seq<char>)>
    decreases recs.len(),
{
    if recs.len() == 0 {
        Seq::empty()
    } else {
        let rest = service_rows(recs.drop_last());
        match service_row(recs.last()) {
            Some(r) => rest.push(r),
            None => rest,
        }
    }
}

pub open spec fn rows_view(v: Seq<(i32, String, String)>) -> Seq<(i32, Seq<char>, Seq<char>)> {
    v.map_values(|r: (i32, String, String)| (r.0, r.1@, r.2@))
}

fn field_at(rec: &Vec<String>, i: usize) -> (r: Vec<char>)
    ensures
        r@ == field_of(strs(rec@), i as int),
{
    if i < rec.len() {
        chars_of(rec[i].as_str())
    } else {
        let v: Vec<char> = Vec::new();
        assert(v@ =~= Seq::<char>::empty());
        v
    }
}

fn row_of(rec: &Vec<String>) -> (r: Option<(i32, String, String)>)
    ensures
        match r {
            Some(x) => service_row(strs(rec@)) == Some((x.0, x.1@, x.2@)),
            None => service_row(strs(rec@)) is None,
        },
{
    let n0 = field_at(rec, 0);
    let n1 = field_at(rec, 1);
    let n2 = field_at(rec, 2);
    let name = trim_exec(n0.as_slice());
    let port = trim_exec(n1.as_slice());
    let pt = trim_exec(n2.as_slice());
    let proto = lower_ascii(pt.as_slice());
    let ps = string_from(proto.as_slice());
    if name.len() == 0 || find_char_exec(port.as_slice(), '-').is_some() || !is_known_protocol(
        ps.as_str(),
    ) {
        return None;
    }
    match parse_i32(port.as_slice()) {
        Some(p) => Some((p, ps, string_from(name.as_slice()))),
        None => None,
    }
}

/// The registry CSV as `(port, protocol, name)` rows.
pub fn parse_service_rows(csv_data: &str) -> (r: Vec<(i32, String, String)>)
    ensures
        rows_view(r@) == service_rows(csv_records(csv_data@)),
{
    let recs = read_csv(csv_data);
    let ghost rv = records_view(recs@);
    let mut out: Vec<(i32, String, String)> = Vec::new();
    let mut i: usize = 0;
    while i < recs.len()
        invariant
            0 <= i <= recs@.len(),
            rv == records_view(recs@),
            rows_view(out@) == service_rows(rv.take(i as int)),
        decreases recs.len() - i,
    {
        assert(rv.take(i + 1).drop_last() =~= rv.take(i as int));
        assert(rv.take(i + 1).last() == strs(recs@[i as int]@));
        let ghost before = out@;
        match row_of(&recs[i]) {
            Some(x) => {
                out.push(x);
                assert(rows_view(out@) =~= rows_view(before).push((x.0, x.1@, x.2@)));
            },
            None => {},
        }
        i = i + 1;
    }
    assert(rv.take(rv.len() as int) =~= rv);
    out
}

/// The name shown for a service: upper-cased, except that `domain` (in any
/// case) reads as `DNS`.
pub open spec fn service_display(raw: Seq<char>) -> Seq<char> {
    if eq_ignore_case(raw, "domain"@) {
        "DNS"@
    } else {
        uppercase(raw)
    }
}

/// The name shown for a service.
pub fn display_name(raw: &str) -> (r: String)
    ensures
        r@ == service_display(raw@),
{
    let rc = chars_of(raw);
    let d = chars_of("domain");
    if eq_ignore_case_exec(rc.as_slice(), d.as_slice()) {
        "DNS".to_string()
    } else {
        to_uppercase(raw)
    }
}

} // verus!
