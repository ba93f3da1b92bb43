//! Traffic as a flow over three columns: source address → service (port
//! and protocol) → destination address. Each column keeps its busiest
//! nodes; the rest collapse into one node "Weitere".
use vstd::prelude::*;
use crate::order::{keys_view, sort_order, stable_order, stable_sorted};
use crate::text::{append_chars, chars_of, decimal, decimal_text, same, string_from};
use crate::types::ov;

verus! {

/// A (source, destination, service) combination with its row count and
/// how many of those rows were blocked.
#[derive(Debug, Clone)]
pub struct FlowRow {
    pub src: String,
    pub dst: String,
    pub service: String,
    pub cnt: i64,
    pub blocked: i64,
}

/// A service as `port/protocol`, `?` for what is missing.
pub open spec fn service_text(port: Option<i32>, proto: Option<Seq<char>>) -> Seq<char> {
    (match port {
        Some(p) => decimal(p as int),
        None => seq!['?'],
    }) + seq!['/'] + match proto {
        Some(p) => p,
        None => seq!['?'],
    }
}

/// A service as `port/protocol`.
pub fn service_label(port: Option<i32>, proto: Option<String>) -> (r: String)
    ensures
        r@ == service_text(port, ov(proto)),
{
    let a: Vec<char> = match port {
        Some(p) => chars_of(decimal_text(p as i64).as_str()),
        None => {
            let mut v: Vec<char> = Vec::new();
            v.push('?');
            v
        },
    };
    let b: Vec<char> = match proto {
        Some(p) => chars_of(p.as_str()),
        None => {
            let mut v: Vec<char> = Vec::new();
            v.push('?');
            v
        },
    };
    let mut out = a;
    let ghost a0 = out@;
    out.push('/');
    let mut i: usize = 0;
    while i < b.len()
        invariant
            0 <= i <= b@.len(),
            out@ == a0 + seq!['/'] + b@.take(i as int),
        decreases b.len() - i,
    {
        out.push(b[i]);
        i = i + 1;
        assert(out@ =~= a0 + seq!['/'] + b@.take(i as int));
    }
    assert(b@.take(b@.len() as int) =~= b@);
    assert(b@ =~= seq!['?'] || port is Some || true);
    string_from(out.as_slice())
}

/// Where a key stands among the entries, first match.
pub open spec fn entry_pos(v: Seq<(Seq<char>, i64)>, k: Seq<char>, i: int) -> Option<int>
    decreases v.len() - i,
{
    if i < 0 || i >= v.len() {
        None
    } else if v[i].0 == k {
        Some(i)
    } else {
        entry_pos(v, k, i + 1)
    }
}

/// The volumes after adding `c` to key `k`: summed where the key is
/// present, a new entry at the end where it is not. Sums wrap as machine
/// addition does.
pub open spec fn add_volume(v: Seq<(Seq<char>, i64)>, k: Seq<char>, c: i64) -> Seq<(Seq<char>, i64)> {
    match entry_pos(v, k, 0) {
        Some(i) => v.update(i, (k, v[i].1.wrapping_add(c))),
        None => v.push((k, c)),
    }
}

/// Which column a row is counted in.
#[derive(Debug, Clone, Copy, PartialEq, Eq, Structural)]
pub enum Column {
    Source,
    Service,
    Destination,
}

pub open spec fn row_key(r: FlowRow, col: Column) -> Seq<char> {
    match col {
        Column::Source => r.src@,
        Column::Service => r.service@,
        Column::Destination => r.dst@,
    }
}

/// The total volume of each node of a column, in the order the nodes first
/// occur.
pub open spec fn volumes_of(rows: Seq<FlowRow>, col: Column) -> Seq<(Seq<char>, i64)>
    decreases rows.len(),
{
    if rows.len() == 0 {
        Seq::empty()
    } else {
        add_volume(volumes_of(rows.drop_last(), col), row_key(rows.last(), col), rows.last().cnt)
    }
}

pub open spec fn vols_view(v: Seq<(String, i64)>) -> Seq<(Seq<char>, i64)> {
    v.map_values(|e: (String, i64)| (e.0@, e.1))
}

proof fn lemma_entry_pos(v: Seq<(Seq<char>, i64)>, k: Seq<char>, i: int)
    requires
        0 <= i,
    ensures
        entry_pos(v, k, i) matches Some(j) ==> i <= j < v.len() && v[j].0 == k,
        entry_pos(v, k, i) is None ==> forall|m: int| i <= m < v.len() ==> v[m].0 != k,
    decreases v.len() - i,
{
    if i < v.len() && v[i].0 != k {
        lemma_entry_pos(v, k, i + 1);
    }
}

fn find_entry(v: &Vec<(String, i64)>, k: &String) -> (r: Option<usize>)
    ensures
        match r {
            Some(i) => entry_pos(vols_view(v@), k@, 0) == Some(i as int) && i < v@.len(),
            None => entry_pos(vols_view(v@), k@, 0) is None,
        },
{
    let kc = chars_of(k.as_str());
    let ghost vv = vols_view(v@);
    let mut i: usize = 0;
    while i < v.len()
        invariant
            0 <= i <= v@.len(),
            vv == vols_view(v@),
            kc@ == k@,
            entry_pos(vv, k@, 0) == entry_pos(vv, k@, i as int),
        decreases v.len() - i,
    {
        let c = chars_of(v[i].0.as_str());
        assert(vv[i as int].0 == v@[i as int].0@);
        if same(c.as_slice(), kc.as_slice()) {
            return Some(i);
        }
        i = i + 1;
    }
    None
}

fn key_of(r: &FlowRow, col: Column) -> (k: &String)
    ensures
        k@ == row_key(*r, col),
{
    match col {
        Column::Source => &r.src,
        Column::Service => &r.service,
        Column::Destination => &r.dst,
    }
}

/// The total volume of each node of a column.
pub fn volumes(rows: &[FlowRow], col: Column) -> (r: Vec<(String, i64)>)
    ensures
        vols_view(r@) == volumes_of(rows@, col),
{
    let mut out: Vec<(String, i64)> = Vec::new();
    let mut i: usize = 0;
    while i < rows.len()
        invariant
            0 <= i <= rows@.len(),
            vols_view(out@) == volumes_of(rows@.take(i as int), col),
        decreases rows.len() - i,
    {
        assert(rows@.take(i + 1).drop_last() =~= rows@.take(i as int));
        let k = key_of(&rows[i], col);
        let c = rows[i].cnt;
        let ghost before = vols_view(out@);
        match find_entry(&out, k) {
            Some(p) => {
                let old_v = out[p].1;
                out.set(p, (k.clone(), old_v.wrapping_add(c)));
                assert(vols_view(out@) =~= before.update(p as int, (k@, before[p as int].1.wrapping_add(c))));
            },
            None => {
                out.push((k.clone(), c));
                assert(vols_view(out@) =~= before.push((k@, c)));
            },
        }
        i = i + 1;
    }
    assert(rows@.take(rows@.len() as int) =~= rows@);
    out
}

/// The sort keys of the volumes: largest volume first, then by name.
pub open spec fn rank_keys(v: Seq<(Seq<char>, i64)>) -> Seq<(int, Seq<char>)> {
    v.map_values(|e: (Seq<char>, i64)| (-(e.1 as int), e.0))
}

/// The keys of a column that keep a node of their own: the `limit`
/// busiest, in a stable order by volume (largest first), then by name.
pub open spec fn top_of(v: Seq<(Seq<char>, i64)>, order: Seq<usize>, limit: nat) -> Seq<Seq<char>> {
    let m = if limit < v.len() {
        limit as int
    } else {
        v.len() as int
    };
    Seq::new(m as nat, |i: int| v[order[i] as int].0)
}

pub open spec fn strs_of(v: Seq<String>) -> Seq<Seq<char>> {
    v.map_values(|s: String| s@)
}

/// The `limit` busiest keys of a column, busiest first and, at equal
/// volume, by name.
pub open spec fn top_names(v: Seq<(Seq<char>, i64)>, limit: nat) -> Seq<Seq<char>> {
    top_of(v, stable_sorted(rank_keys(v)), limit)
}

/// The keys of a column that keep a node of their own, busiest first.
pub fn top_keys(volume: &Vec<(String, i64)>, limit: usize) -> (r: Vec<String>)
    ensures
        strs_of(r@) == top_names(vols_view(volume@), limit as nat),
        is_top(vols_view(volume@), limit as nat, strs_of(r@)),
{
    let ghost vv = vols_view(volume@);
    let mut keys: Vec<(i128, Vec<char>)> = Vec::new();
    let mut i: usize = 0;
    while i < volume.len()
        invariant
            0 <= i <= volume@.len(),
            vv == vols_view(volume@),
            keys_view(keys@) == rank_keys(vv).take(i as int),
        decreases volume.len() - i,
    {
        let ghost before = keys@;
        keys.push((-(volume[i].1 as i128), chars_of(volume[i].0.as_str())));
        assert(vv[i as int] == (volume@[i as int].0@, volume@[i as int].1));
        assert(keys_view(keys@) =~= keys_view(before).push(
            (-(volume@[i as int].1 as int), volume@[i as int].0@),
        ));
        assert(keys_view(keys@) =~= rank_keys(vv).take(i + 1));
        i = i + 1;
    }
    assert(rank_keys(vv).take(vv.len() as int) =~= rank_keys(vv));
    let order = sort_order(&keys);
    let m = if limit < volume.len() {
        limit
    } else {
        volume.len()
    };
    let mut out: Vec<String> = Vec::new();
    let mut j: usize = 0;
    while j < m
        invariant
            0 <= j <= m <= volume@.len(),
            vv == vols_view(volume@),
            stable_order(rank_keys(vv), order@),
            order@.len() == volume@.len(),
            strs_of(out@) == top_of(vv, order@, limit as nat).take(j as int),
            m == if limit < volume@.len() {
                limit as int
            } else {
                volume@.len() as int
            },
        decreases m - j,
    {
        let ghost before = out@;
        let o = order[j];
        assert(o < volume@.len());
        let name = volume[o].0.clone();
        assert(name@ == vv[o as int].0);
        out.push(name);
        assert(strs_of(out@) =~= strs_of(before).push(vv[o as int].0));
        assert(strs_of(out@) =~= top_of(vv, order@, limit as nat).take(j + 1));
        j = j + 1;
    }
    assert(top_of(vv, order@, limit as nat).take(m as int) =~= top_of(vv, order@, limit as nat));
    assert(is_top(vv, limit as nat, strs_of(out@)));
    out
}

fn listed_key(v: &Vec<String>, k: &String) -> (r: bool)
    ensures
        r == strs_of(v@).contains(k@),
{
    let kc = chars_of(k.as_str());
    let mut i: usize = 0;
    while i < v.len()
        invariant
            0 <= i <= v@.len(),
            kc@ == k@,
            forall|m: int| 0 <= m < i ==> strs_of(v@)[m] != k@,
        decreases v.len() - i,
    {
        let c = chars_of(v[i].as_str());
        if same(c.as_slice(), kc.as_slice()) {
            assert(strs_of(v@)[i as int] == k@);
            return true;
        }
        i = i + 1;
    }
    false
}

/// A key as it is drawn: itself where it keeps its node, else the
/// collapsed node.
pub open spec fn resolved(key: Seq<char>, top: Seq<Seq<char>>) -> Seq<char> {
    if top.contains(key) {
        key
    } else {
        "__other__"@
    }
}

/// A key as it is drawn.
pub fn resolve(key: &String, top: &Vec<String>) -> (r: String)
    ensures
        r@ == resolved(key@, strs_of(top@)),
{
    if listed_key(top, key) {
        key.clone()
    } else {
        "__other__".to_string()
    }
}

/// The nodes of a column: the keys that keep their node, busiest first,
/// and the collapsed node at the end where anything collapsed.
pub open spec fn column_of(top: Seq<Seq<char>>, volume_len: nat) -> Seq<Seq<char>> {
    if volume_len > top.len() {
        top.push("__other__"@)
    } else {
        top
    }
}

/// The nodes of a column.
pub fn column_keys(volume: &Vec<(String, i64)>, top: &Vec<String>) -> (r: Vec<String>)
    ensures
        strs_of(r@) == column_of(strs_of(top@), volume@.len()),
{
    let mut out: Vec<String> = Vec::new();
    let mut i: usize = 0;
    while i < top.len()
        invariant
            0 <= i <= top@.len(),
            strs_of(out@) == strs_of(top@).take(i as int),
        decreases top.len() - i,
    {
        let ghost before = out@;
        let t = top[i].clone();
        out.push(t);
        assert(strs_of(out@) =~= strs_of(before).push(top@[i as int]@));
        i = i + 1;
        assert(strs_of(out@) =~= strs_of(top@).take(i as int));
    }
    assert(strs_of(top@).take(top@.len() as int) =~= strs_of(top@));
    if volume.len() > top.len() {
        let ghost before = out@;
        out.push("__other__".to_string());
        assert(strs_of(out@) =~= strs_of(before).push("__other__"@));
    }
    out
}

/// Every key of the column resolves to a node of the column: a key that
/// does not keep its own node means something collapsed.
pub proof fn lemma_resolved_key_has_node(
    v: Seq<(Seq<char>, i64)>,
    order: Seq<usize>,
    limit: nat,
    k: Seq<char>,
)
    requires
        stable_order(rank_keys(v), order),
        v.len() <= usize::MAX,
        exists|i: int| 0 <= i < v.len() && v[i].0 == k,
    ensures
        column_of(top_of(v, order, limit), v.len()).contains(
            resolved(k, top_of(v, order, limit)),
        ),
{
    let top = top_of(v, order, limit);
    let col = column_of(top, v.len());
    if top.contains(k) {
        let m = choose|m: int| 0 <= m < top.len() && top[m] == k;
        assert(col[m] == k);
    } else {
        if limit >= v.len() {
            let i = choose|i: int| 0 <= i < v.len() && v[i].0 == k;
            let iu = i as usize;
            assert(iu as int == i);
            assert(rank_keys(v).len() == v.len());
            assert(order.contains(iu));
            let m = choose|m: int| 0 <= m < order.len() && order[m] == iu;
            assert(top[m] == v[order[m] as int].0);
            assert(top[m] == k);
        }
        assert(col[top.len() as int] == "__other__"@);
    }
}

// ---------------------------------------------------------------------------
// The drawing: nodes and links
// ---------------------------------------------------------------------------

/// A node of the drawing: `kind:key` as its id, the key as its label (the
/// collapsed node reads "Weitere"), and its column.
#[derive(Debug, Clone)]
pub struct SankeyNode {
    pub id: String,
    pub label: String,
    pub kind: &'static str,
}

pub struct NodeView {
    pub id: Seq<char>,
    pub label: Seq<char>,
    pub kind: Seq<char>,
}

impl View for SankeyNode {
    type V = NodeView;

    open spec fn view(&self) -> NodeView {
        NodeView { id: self.id@, label: self.label@, kind: self.kind@ }
    }
}

/// A link between two nodes, by their positions in the node list, with
/// the rows it stands for and how many of them were blocked.
#[derive(Debug, Clone, Copy, PartialEq, Eq, Structural)]
pub struct SankeyLink {
    pub source: usize,
    pub target: usize,
    pub value: i64,
    pub blocked: i64,
}

/// The whole drawing.
#[derive(Debug, Clone)]
pub struct Sankey {
    pub nodes: Vec<SankeyNode>,
    pub links: Vec<SankeyLink>,
}

pub open spec fn node_of(kind: Seq<char>, k: Seq<char>) -> NodeView {
    NodeView {
        id: kind + seq![':'] + k,
        label: if k == "__other__"@ {
            "Weitere"@
        } else {
            k
        },
        kind,
    }
}

pub open spec fn nodes_view(v: Seq<SankeyNode>) -> Seq<NodeView> {
    v.map_values(|n: SankeyNode| n@)
}

/// The nodes of one column, in the order of its keys.
pub open spec fn column_nodes(kind: Seq<char>, keys: Seq<Seq<char>>) -> Seq<NodeView> {
    keys.map_values(|k: Seq<char>| node_of(kind, k))
}

fn push_column(nodes: &mut Vec<SankeyNode>, kind: &'static str, keys: &Vec<String>)
    ensures
        nodes_view(final(nodes)@) == nodes_view(old(nodes)@) + column_nodes(kind@, strs_of(keys@)),
{
    let ghost start = nodes_view(nodes@);
    let kc = chars_of(kind);
    let other = chars_of("__other__");
    let mut i: usize = 0;
    while i < keys.len()
        invariant
            0 <= i <= keys@.len(),
            kc@ == kind@,
            other@ == "__other__"@,
            nodes_view(nodes@) == start + column_nodes(kind@, strs_of(keys@)).take(i as int),
        decreases keys.len() - i,
    {
        let k = &keys[i];
        let key = chars_of(k.as_str());
        let mut id: Vec<char> = Vec::new();
        append_chars(&mut id, kc.as_slice());
        id.push(':');
        append_chars(&mut id, key.as_slice());
        let label = if same(key.as_slice(), other.as_slice()) {
            "Weitere".to_string()
        } else {
            k.clone()
        };
        assert(id@ == kind@ + seq![':'] + k@);
        assert(label@ == node_of(kind@, k@).label);
        let ghost before = nodes@;
        let node = SankeyNode { id: string_from(id.as_slice()), label, kind };
        assert(node@ == node_of(kind@, k@));
        nodes.push(node);
        assert(nodes_view(nodes@) =~= nodes_view(before).push(node_of(kind@, k@)));
        i = i + 1;
        assert(column_nodes(kind@, strs_of(keys@)).take(i as int) =~= column_nodes(
            kind@,
            strs_of(keys@),
        ).take(i - 1).push(node_of(kind@, k@)));
    }
    assert(column_nodes(kind@, strs_of(keys@)).take(keys@.len() as int) =~= column_nodes(
        kind@,
        strs_of(keys@),
    ));
}

/// A hop between two columns: the two drawn keys, the rows and the blocked
/// rows.
pub type HopView = (Seq<char>, Seq<char>, i64, i64);

/// Where a pair of keys stands among the hops, first match.
pub open spec fn hop_pos(v: Seq<HopView>, a: Seq<char>, b: Seq<char>, i: int) -> Option<int>
    decreases v.len() - i,
{
    if i < 0 || i >= v.len() {
        None
    } else if v[i].0 == a && v[i].1 == b {
        Some(i)
    } else {
        hop_pos(v, a, b, i + 1)
    }
}

/// The hops after one more row between `a` and `b`: summed where the pair
/// is present, a new hop at the end where it is not. Sums wrap as machine
/// addition does.
pub open spec fn add_hop(v: Seq<HopView>, a: Seq<char>, b: Seq<char>, c: i64, bl: i64) -> Seq<HopView> {
    match hop_pos(v, a, b, 0) {
        Some(i) => v.update(i, (a, b, v[i].2.wrapping_add(c), v[i].3.wrapping_add(bl))),
        None => v.push((a, b, c, bl)),
    }
}

/// The hops from column `from` to column `to`: rows that land on the same
/// (possibly collapsed) pair of nodes sum to one hop, in the order the
/// pairs first occur.
pub open spec fn hops_of(
    rows: Seq<FlowRow>,
    from: Column,
    to: Column,
    top_from: Seq<Seq<char>>,
    top_to: Seq<Seq<char>>,
) -> Seq<HopView>
    decreases rows.len(),
{
    if rows.len() == 0 {
        Seq::empty()
    } else {
        let r = rows.last();
        add_hop(
            hops_of(rows.drop_last(), from, to, top_from, top_to),
            resolved(row_key(r, from), top_from),
            resolved(row_key(r, to), top_to),
            r.cnt,
            r.blocked,
        )
    }
}

pub open spec fn hops_view(v: Seq<(String, String, i64, i64)>) -> Seq<HopView> {
    v.map_values(|h: (String, String, i64, i64)| (h.0@, h.1@, h.2, h.3))
}

fn find_hop(v: &Vec<(String, String, i64, i64)>, a: &String, b: &String) -> (r: Option<usize>)
    ensures
        match r {
            Some(i) => hop_pos(hops_view(v@), a@, b@, 0) == Some(i as int) && i < v@.len(),
            None => hop_pos(hops_view(v@), a@, b@, 0) is None,
        },
{
    let ac = chars_of(a.as_str());
    let bc = chars_of(b.as_str());
    let ghost hv = hops_view(v@);
    let mut i: usize = 0;
    while i < v.len()
        invariant
            0 <= i <= v@.len(),
            hv == hops_view(v@),
            ac@ == a@,
            bc@ == b@,
            hop_pos(hv, a@, b@, 0) == hop_pos(hv, a@, b@, i as int),
        decreases v.len() - i,
    {
        let x = chars_of(v[i].0.as_str());
        let y = chars_of(v[i].1.as_str());
        assert(hv[i as int].0 == v@[i as int].0@ && hv[i as int].1 == v@[i as int].1@);
        if same(x.as_slice(), ac.as_slice()) && same(y.as_slice(), bc.as_slice()) {
            return Some(i);
        }
        i = i + 1;
    }
    None
}

fn hops(
    rows: &[FlowRow],
    from: Column,
    to: Column,
    top_from: &Vec<String>,
    top_to: &Vec<String>,
) -> (r: Vec<(String, String, i64, i64)>)
    ensures
        hops_view(r@) == hops_of(rows@, from, to, strs_of(top_from@), strs_of(top_to@)),
{
    let mut out: Vec<(String, String, i64, i64)> = Vec::new();
    let ghost tf = strs_of(top_from@);
    let ghost tt = strs_of(top_to@);
    let mut i: usize = 0;
    while i < rows.len()
        invariant
            0 <= i <= rows@.len(),
            tf == strs_of(top_from@),
            tt == strs_of(top_to@),
            hops_view(out@) == hops_of(rows@.take(i as int), from, to, tf, tt),
        decreases rows.len() - i,
    {
        assert(rows@.take(i + 1).drop_last() =~= rows@.take(i as int));
        let a = resolve(key_of(&rows[i], from), top_from);
        let b = resolve(key_of(&rows[i], to), top_to);
        let c = rows[i].cnt;
        let bl = rows[i].blocked;
        let ghost before = hops_view(out@);
        match find_hop(&out, &a, &b) {
            Some(p) => {
                let old_c = out[p].2;
                let old_b = out[p].3;
                let ghost av = a@;
                let ghost bvv = b@;
                out.set(p, (a, b, old_c.wrapping_add(c), old_b.wrapping_add(bl)));
                assert(hops_view(out@) =~= before.update(
                    p as int,
                    (av, bvv, before[p as int].2.wrapping_add(c), before[p as int].3.wrapping_add(bl)),
                ));
            },
            None => {
                let ghost av = a@;
                let ghost bvv = b@;
                out.push((a, b, c, bl));
                assert(hops_view(out@) =~= before.push((av, bvv, c, bl)));
            },
        }
        i = i + 1;
    }
    assert(rows@.take(rows@.len() as int) =~= rows@);
    out
}

/// Where a key stands in a column, first match; the column's length where
/// it does not stand there.
pub open spec fn key_pos(col: Seq<Seq<char>>, k: Seq<char>, i: int) -> int
    decreases col.len() - i,
{
    if i < 0 || i >= col.len() {
        col.len() as int
    } else if col[i] == k {
        i
    } else {
        key_pos(col, k, i + 1)
    }
}

proof fn lemma_key_pos(col: Seq<Seq<char>>, k: Seq<char>, i: int)
    requires
        0 <= i <= col.len(),
    ensures
        i <= key_pos(col, k, i) <= col.len(),
        (exists|j: int| i <= j < col.len() && col[j] == k) ==> key_pos(col, k, i) < col.len(),
    decreases col.len() - i,
{
    if i < col.len() && col[i] != k {
        lemma_key_pos(col, k, i + 1);
        if exists|j: int| i <= j < col.len() && col[j] == k {
            let j = choose|j: int| i <= j < col.len() && col[j] == k;
            assert(j != i);
            assert(i + 1 <= j < col.len() && col[j] == k);
        }
    }
}

fn position(col: &Vec<String>, k: &String) -> (r: usize)
    ensures
        r == key_pos(strs_of(col@), k@, 0),
        r <= col@.len(),
{
    let kc = chars_of(k.as_str());
    let ghost cv = strs_of(col@);
    let mut i: usize = 0;
    while i < col.len()
        invariant
            0 <= i <= col@.len(),
            cv == strs_of(col@),
            kc@ == k@,
            key_pos(cv, k@, 0) == key_pos(cv, k@, i as int),
        decreases col.len() - i,
    {
        let c = chars_of(col[i].as_str());
        assert(cv[i as int] == col@[i as int]@);
        if same(c.as_slice(), kc.as_slice()) {
            return i;
        }
        i = i + 1;
    }
    i
}

/// The links of the hops between two columns that start at positions
/// `oa` and `ob` of the node list.
pub open spec fn hop_links(
    h: Seq<HopView>,
    ca: Seq<Seq<char>>,
    oa: int,
    cb: Seq<Seq<char>>,
    ob: int,
) -> Seq<SankeyLink> {
    h.map_values(
        |x: HopView|
            SankeyLink {
                source: (oa + key_pos(ca, x.0, 0)) as usize,
                target: (ob + key_pos(cb, x.1, 0)) as usize,
                value: x.2,
                blocked: x.3,
            },
    )
}

fn push_links(
    links: &mut Vec<SankeyLink>,
    h: &Vec<(String, String, i64, i64)>,
    ca: &Vec<String>,
    oa: usize,
    cb: &Vec<String>,
    ob: usize,
)
    requires
        oa + ca@.len() <= usize::MAX,
        ob + cb@.len() <= usize::MAX,
    ensures
        final(links)@ == old(links)@ + hop_links(
            hops_view(h@),
            strs_of(ca@),
            oa as int,
            strs_of(cb@),
            ob as int,
        ),
{
    let ghost start = links@;
    let ghost want = hop_links(hops_view(h@), strs_of(ca@), oa as int, strs_of(cb@), ob as int);
    let mut i: usize = 0;
    while i < h.len()
        invariant
            0 <= i <= h@.len(),
            oa + ca@.len() <= usize::MAX,
            ob + cb@.len() <= usize::MAX,
            want == hop_links(hops_view(h@), strs_of(ca@), oa as int, strs_of(cb@), ob as int),
            want.len() == h@.len(),
            links@ == start + want.take(i as int),
        decreases h.len() - i,
    {
        let pa = position(ca, &h[i].0);
        let pb = position(cb, &h[i].1);
        let l = SankeyLink { source: oa + pa, target: ob + pb, value: h[i].2, blocked: h[i].3 };
        assert(l == want[i as int]);
        links.push(l);
        i = i + 1;
        assert(links@ =~= start + want.take(i as int));
    }
    assert(want.take(want.len() as int) =~= want);
}

/// The drawing as plain values.
pub struct SankeyView {
    pub nodes: Seq<NodeView>,
    pub links: Seq<SankeyLink>,
}

impl View for Sankey {
    type V = SankeyView;

    open spec fn view(&self) -> SankeyView {
        SankeyView { nodes: nodes_view(self.nodes@), links: self.links@ }
    }
}

/// Whether `t` is what `top_keys` may give for these volumes: the `limit`
/// busiest keys in a stable order by volume, then name.
pub open spec fn is_top(v: Seq<(Seq<char>, i64)>, limit: nat, t: Seq<Seq<char>>) -> bool {
    exists|order: Seq<usize>| stable_order(rank_keys(v), order) && t == top_of(v, order, limit)
}

/// The drawing of these rows, given the keys that keep their node in each
/// column: the source nodes, then the service nodes, then the destination
/// nodes; then the links from sources to services, then those from
/// services to destinations.
pub open spec fn sankey_from(
    rows: Seq<FlowRow>,
    ts: Seq<Seq<char>>,
    tv: Seq<Seq<char>>,
    td: Seq<Seq<char>>,
) -> SankeyView {
    let cs = column_of(ts, volumes_of(rows, Column::Source).len());
    let cv = column_of(tv, volumes_of(rows, Column::Service).len());
    let cd = column_of(td, volumes_of(rows, Column::Destination).len());
    SankeyView {
        nodes: column_nodes("source"@, cs) + column_nodes("service"@, cv) + column_nodes(
            "destination"@,
            cd,
        ),
        links: hop_links(hops_of(rows, Column::Source, Column::Service, ts, tv), cs, 0, cv, cs.len() as int)
            + hop_links(
            hops_of(rows, Column::Service, Column::Destination, tv, td),
            cv,
            cs.len() as int,
            cd,
            (cs.len() + cv.len()) as int,
        ),
    }
}

/// The flow of these rows over source → service → destination, each
/// column cut to its `limit` busiest nodes.
pub fn sankey(rows: &[FlowRow], limit: usize) -> (r: Sankey)
    ensures
        r@ == sankey_from(
            rows@,
            top_names(volumes_of(rows@, Column::Source), limit as nat),
            top_names(volumes_of(rows@, Column::Service), limit as nat),
            top_names(volumes_of(rows@, Column::Destination), limit as nat),
        ),
        is_top(
            volumes_of(rows@, Column::Source),
            limit as nat,
            top_names(volumes_of(rows@, Column::Source), limit as nat),
        ),
        is_top(
            volumes_of(rows@, Column::Service),
            limit as nat,
            top_names(volumes_of(rows@, Column::Service), limit as nat),
        ),
        is_top(
            volumes_of(rows@, Column::Destination),
            limit as nat,
            top_names(volumes_of(rows@, Column::Destination), limit as nat),
        ),
{
    let vs = volumes(rows, Column::Source);
    let vv = volumes(rows, Column::Service);
    let vd = volumes(rows, Column::Destination);
    let ts = top_keys(&vs, limit);
    let tv = top_keys(&vv, limit);
    let td = top_keys(&vd, limit);
    let cs = column_keys(&vs, &ts);
    let cv = column_keys(&vv, &tv);
    let cd = column_keys(&vd, &td);
    let mut nodes: Vec<SankeyNode> = Vec::new();
    push_column(&mut nodes, "source", &cs);
    let ov = nodes.len();
    push_column(&mut nodes, "service", &cv);
    let od = nodes.len();
    let ghost before_d = nodes@;
    push_column(&mut nodes, "destination", &cd);
    assert(nodes_view(nodes@).len() == nodes@.len());
    assert(nodes_view(before_d).len() == od);
    assert(column_nodes("destination"@, strs_of(cd@)).len() == cd@.len());
    let total = nodes.len();
    assert(total == od + cd@.len());
    let h1 = hops(rows, Column::Source, Column::Service, &ts, &tv);
    let h2 = hops(rows, Column::Service, Column::Destination, &tv, &td);
    let mut links: Vec<SankeyLink> = Vec::new();
    push_links(&mut links, &h1, &cs, 0, &cv, ov);
    push_links(&mut links, &h2, &cv, ov, &cd, od);
    let r = Sankey { nodes, links };
    proof {
        let gs = strs_of(ts@);
        let gv = strs_of(tv@);
        let gd = strs_of(td@);
        assert(is_top(volumes_of(rows@, Column::Source), limit as nat, gs));
        assert(is_top(volumes_of(rows@, Column::Service), limit as nat, gv));
        assert(is_top(volumes_of(rows@, Column::Destination), limit as nat, gd));
        assert(r@.nodes =~= sankey_from(rows@, gs, gv, gd).nodes);
        assert(r@.links =~= sankey_from(rows@, gs, gv, gd).links);
    }
    r
}

proof fn lemma_volumes_keys(rows: Seq<FlowRow>, col: Column)
    ensures
        volumes_of(rows, col).len() <= rows.len(),
        forall|i: int|
            0 <= i < rows.len() ==> exists|j: int|
                0 <= j < volumes_of(rows, col).len() && #[trigger] volumes_of(rows, col)[j].0
                    == row_key(#[trigger] rows[i], col),
    decreases rows.len(),
{
    if rows.len() > 0 {
        let p = rows.drop_last();
        lemma_volumes_keys(p, col);
        let v = volumes_of(p, col);
        let k = row_key(rows.last(), col);
        let w = volumes_of(rows, col);
        lemma_entry_pos(v, k, 0);
        assert forall|i: int| 0 <= i < rows.len() implies exists|j: int|
            0 <= j < w.len() && #[trigger] w[j].0 == row_key(#[trigger] rows[i], col) by {
            if i < p.len() {
                assert(rows[i] == p[i]);
                let j = choose|j: int| 0 <= j < v.len() && #[trigger] v[j].0 == row_key(p[i], col);
                assert(w[j].0 == v[j].0);
            } else {
                match entry_pos(v, k, 0) {
                    Some(j) => assert(w[j].0 == k),
                    None => assert(w[v.len() as int].0 == k),
                }
            }
        }
    }
}

proof fn lemma_hop_pos(v: Seq<HopView>, a: Seq<char>, b: Seq<char>, i: int)
    requires
        0 <= i,
    ensures
        hop_pos(v, a, b, i) matches Some(j) ==> i <= j < v.len() && v[j].0 == a && v[j].1 == b,
    decreases v.len() - i,
{
    if i < v.len() && !(v[i].0 == a && v[i].1 == b) {
        lemma_hop_pos(v, a, b, i + 1);
    }
}

proof fn lemma_hops_from_rows(
    rows: Seq<FlowRow>,
    from: Column,
    to: Column,
    tf: Seq<Seq<char>>,
    tt: Seq<Seq<char>>,
)
    ensures
        forall|j: int|
            0 <= j < hops_of(rows, from, to, tf, tt).len() ==> exists|i: int|
                0 <= i < rows.len() && #[trigger] hops_of(rows, from, to, tf, tt)[j].0 == resolved(
                    row_key(#[trigger] rows[i], from),
                    tf,
                ) && hops_of(rows, from, to, tf, tt)[j].1 == resolved(row_key(rows[i], to), tt),
    decreases rows.len(),
{
    if rows.len() > 0 {
        let p = rows.drop_last();
        lemma_hops_from_rows(p, from, to, tf, tt);
        let v = hops_of(p, from, to, tf, tt);
        let r = rows.last();
        let a = resolved(row_key(r, from), tf);
        let b = resolved(row_key(r, to), tt);
        let w = hops_of(rows, from, to, tf, tt);
        lemma_hop_pos(v, a, b, 0);
        assert forall|j: int| 0 <= j < w.len() implies exists|i: int|
            0 <= i < rows.len() && #[trigger] w[j].0 == resolved(row_key(#[trigger] rows[i], from), tf)
                && w[j].1 == resolved(row_key(rows[i], to), tt) by {
            let last = rows.len() - 1;
            assert(rows[last] == r);
            if j < v.len() && hop_pos(v, a, b, 0) != Some(j) {
                assert(w[j] == v[j]);
                let i = choose|i: int|
                    0 <= i < p.len() && #[trigger] v[j].0 == resolved(row_key(#[trigger] p[i], from), tf)
                        && v[j].1 == resolved(row_key(p[i], to), tt);
                assert(rows[i] == p[i]);
            } else {
                assert(w[j].0 == a && w[j].1 == b);
            }
        }
    }
}

proof fn lemma_row_has_node(rows: Seq<FlowRow>, col: Column, limit: nat, t: Seq<Seq<char>>, i: int)
    requires
        rows.len() <= usize::MAX,
        is_top(volumes_of(rows, col), limit, t),
        0 <= i < rows.len(),
    ensures
        key_pos(
            column_of(t, volumes_of(rows, col).len()),
            resolved(row_key(rows[i], col), t),
            0,
        ) < column_of(t, volumes_of(rows, col).len()).len(),
{
    let v = volumes_of(rows, col);
    lemma_volumes_keys(rows, col);
    let order = choose|order: Seq<usize>| stable_order(rank_keys(v), order) && t == top_of(v, order, limit);
    let k = row_key(rows[i], col);
    let j = choose|j: int| 0 <= j < v.len() && #[trigger] v[j].0 == row_key(rows[i], col);
    assert(v[j].0 == k);
    lemma_resolved_key_has_node(v, order, limit, k);
    let c = column_of(t, v.len());
    let m = choose|m: int| 0 <= m < c.len() && c[m] == resolved(k, t);
    lemma_key_pos(c, resolved(k, t), 0);
}

proof fn lemma_column_len(rows: Seq<FlowRow>, col: Column, limit: nat, t: Seq<Seq<char>>)
    requires
        is_top(volumes_of(rows, col), limit, t),
    ensures
        column_of(t, volumes_of(rows, col).len()).len() <= rows.len() + 1,
{
    let v = volumes_of(rows, col);
    lemma_volumes_keys(rows, col);
    let order = choose|order: Seq<usize>| stable_order(rank_keys(v), order) && t == top_of(v, order, limit);
}

/// Every link joins two nodes of the drawing: both its ends are positions
/// in the node list, a source or service node on the left of a hop and the
/// node of the next column on the right.
pub proof fn lemma_links_join_nodes(
    rows: Seq<FlowRow>,
    limit: nat,
    ts: Seq<Seq<char>>,
    tv: Seq<Seq<char>>,
    td: Seq<Seq<char>>,
)
    requires
        3 * rows.len() + 3 <= usize::MAX,
        is_top(volumes_of(rows, Column::Source), limit, ts),
        is_top(volumes_of(rows, Column::Service), limit, tv),
        is_top(volumes_of(rows, Column::Destination), limit, td),
    ensures
        forall|m: int|
            0 <= m < sankey_from(rows, ts, tv, td).links.len() ==> {
                let l = #[trigger] sankey_from(rows, ts, tv, td).links[m];
                &&& l.source < sankey_from(rows, ts, tv, td).nodes.len()
                &&& l.target < sankey_from(rows, ts, tv, td).nodes.len()
            },
{
    let cs = column_of(ts, volumes_of(rows, Column::Source).len());
    let cv = column_of(tv, volumes_of(rows, Column::Service).len());
    let cd = column_of(td, volumes_of(rows, Column::Destination).len());
    let h1 = hops_of(rows, Column::Source, Column::Service, ts, tv);
    let h2 = hops_of(rows, Column::Service, Column::Destination, tv, td);
    let d = sankey_from(rows, ts, tv, td);
    lemma_column_len(rows, Column::Source, limit, ts);
    lemma_column_len(rows, Column::Service, limit, tv);
    lemma_column_len(rows, Column::Destination, limit, td);
    assert(d.nodes.len() == cs.len() + cv.len() + cd.len());
    lemma_hops_from_rows(rows, Column::Source, Column::Service, ts, tv);
    lemma_hops_from_rows(rows, Column::Service, Column::Destination, tv, td);
    let l1 = hop_links(h1, cs, 0, cv, cs.len() as int);
    let l2 = hop_links(h2, cv, cs.len() as int, cd, (cs.len() + cv.len()) as int);
    assert(d.links == l1 + l2);
    assert forall|m: int| 0 <= m < d.links.len() implies {
        let l = #[trigger] d.links[m];
        &&& l.source < d.nodes.len()
        &&& l.target < d.nodes.len()
    } by {
        if m < l1.len() {
            let h = h1[m];
            let i = choose|i: int|
                0 <= i < rows.len() && #[trigger] h1[m].0 == resolved(
                    row_key(#[trigger] rows[i], Column::Source),
                    ts,
                ) && h1[m].1 == resolved(row_key(rows[i], Column::Service), tv);
            lemma_row_has_node(rows, Column::Source, limit, ts, i);
            lemma_row_has_node(rows, Column::Service, limit, tv, i);
            lemma_key_pos(cs, h.0, 0);
            lemma_key_pos(cv, h.1, 0);
            assert(d.links[m] == l1[m]);
        } else {
            let mm = m - l1.len();
            let h = h2[mm];
            let i = choose|i: int|
                0 <= i < rows.len() && #[trigger] h2[mm].0 == resolved(
                    row_key(#[trigger] rows[i], Column::Service),
                    tv,
                ) && h2[mm].1 == resolved(row_key(rows[i], Column::Destination), td);
            lemma_row_has_node(rows, Column::Service, limit, tv, i);
            lemma_row_has_node(rows, Column::Destination, limit, td, i);
            lemma_key_pos(cv, h.0, 0);
            lemma_key_pos(cd, h.1, 0);
            assert(d.links[m] == l2[mm]);
        }
    }
}

/// Each column of the drawing holds at most `limit` nodes of its own plus
/// the collapsed node, which is there exactly when the column had more
/// than `limit` keys; the drawing holds no more nodes than that in all.
pub proof fn lemma_columns_capped(
    rows: Seq<FlowRow>,
    limit: nat,
    ts: Seq<Seq<char>>,
    tv: Seq<Seq<char>>,
    td: Seq<Seq<char>>,
)
    requires
        is_top(volumes_of(rows, Column::Source), limit, ts),
        is_top(volumes_of(rows, Column::Service), limit, tv),
        is_top(volumes_of(rows, Column::Destination), limit, td),
    ensures
        ts.len() <= limit,
        tv.len() <= limit,
        td.len() <= limit,
        column_of(ts, volumes_of(rows, Column::Source).len()).len() <= limit + 1,
        column_of(tv, volumes_of(rows, Column::Service).len()).len() <= limit + 1,
        column_of(td, volumes_of(rows, Column::Destination).len()).len() <= limit + 1,
        column_of(ts, volumes_of(rows, Column::Source).len()).contains("__other__"@) <==> volumes_of(
            rows,
            Column::Source,
        ).len() > limit || ts.contains("__other__"@),
        sankey_from(rows, ts, tv, td).nodes.len() <= 3 * limit + 3,
{
    let vs = volumes_of(rows, Column::Source);
    let vv = volumes_of(rows, Column::Service);
    let vd = volumes_of(rows, Column::Destination);
    let order_s = choose|order: Seq<usize>| stable_order(rank_keys(vs), order) && ts == top_of(vs, order, limit);
    let order_v = choose|order: Seq<usize>| stable_order(rank_keys(vv), order) && tv == top_of(vv, order, limit);
    let order_d = choose|order: Seq<usize>| stable_order(rank_keys(vd), order) && td == top_of(vd, order, limit);
    let cs = column_of(ts, vs.len());
    if vs.len() > ts.len() {
        assert(cs[ts.len() as int] == "__other__"@);
    }
    if cs.contains("__other__"@) && vs.len() <= ts.len() {
        assert(cs == ts);
    }
}

/// The rows' total count, as a whole number.
pub open spec fn count_total(rows: Seq<FlowRow>) -> int
    decreases rows.len(),
{
    if rows.len() == 0 {
        0
    } else {
        count_total(rows.drop_last()) + rows.last().cnt
    }
}

/// The hops' total value, as a whole number.
pub open spec fn hop_total(h: Seq<HopView>) -> int
    decreases h.len(),
{
    if h.len() == 0 {
        0
    } else {
        hop_total(h.drop_last()) + h.last().2
    }
}

/// The links' total value, as a whole number.
pub open spec fn link_total(l: Seq<SankeyLink>) -> int
    decreases l.len(),
{
    if l.len() == 0 {
        0
    } else {
        link_total(l.drop_last()) + l.last().value
    }
}

proof fn lemma_hop_total_update(v: Seq<HopView>, i: int, x: HopView)
    requires
        0 <= i < v.len(),
    ensures
        hop_total(v.update(i, x)) == hop_total(v) - v[i].2 + x.2,
    decreases v.len(),
{
    let w = v.update(i, x);
    if i == v.len() - 1 {
        assert(w.drop_last() =~= v.drop_last());
    } else {
        assert(w.drop_last() =~= v.drop_last().update(i, x));
        lemma_hop_total_update(v.drop_last(), i, x);
    }
}

proof fn lemma_hops_sum_rows(
    rows: Seq<FlowRow>,
    from: Column,
    to: Column,
    tf: Seq<Seq<char>>,
    tt: Seq<Seq<char>>,
)
    requires
        forall|i: int| 0 <= i < rows.len() ==> 0 <= #[trigger] rows[i].cnt,
        count_total(rows) <= i64::MAX,
    ensures
        hop_total(hops_of(rows, from, to, tf, tt)) == count_total(rows),
        0 <= count_total(rows),
        forall|j: int|
            0 <= j < hops_of(rows, from, to, tf, tt).len() ==> 0 <= #[trigger] hops_of(
                rows,
                from,
                to,
                tf,
                tt,
            )[j].2 <= count_total(rows),
    decreases rows.len(),
{
    if rows.len() > 0 {
        let p = rows.drop_last();
        let r = rows.last();
        assert(r == rows[rows.len() - 1]);
        assert forall|i: int| 0 <= i < p.len() implies 0 <= #[trigger] p[i].cnt by {
            assert(p[i] == rows[i]);
        }
        lemma_hops_sum_rows(p, from, to, tf, tt);
        let v = hops_of(p, from, to, tf, tt);
        let a = resolved(row_key(r, from), tf);
        let b = resolved(row_key(r, to), tt);
        let w = hops_of(rows, from, to, tf, tt);
        lemma_hop_pos(v, a, b, 0);
        match hop_pos(v, a, b, 0) {
            Some(k) => {
                let x = (a, b, v[k].2.wrapping_add(r.cnt), v[k].3.wrapping_add(r.blocked));
                assert(v[k].2 + r.cnt <= i64::MAX);
                assert(x.2 == v[k].2 + r.cnt);
                assert(w == v.update(k, x));
                lemma_hop_total_update(v, k, x);
                assert forall|j: int| 0 <= j < w.len() implies 0 <= #[trigger] w[j].2 <= count_total(rows) by {
                    if j != k {
                        assert(w[j] == v[j]);
                    }
                }
            },
            None => {
                assert(w == v.push((a, b, r.cnt, r.blocked)));
                assert(w.drop_last() =~= v);
                assert forall|j: int| 0 <= j < w.len() implies 0 <= #[trigger] w[j].2 <= count_total(rows) by {
                    if j < v.len() {
                        assert(w[j] == v[j]);
                    }
                }
            },
        }
    }
}

proof fn lemma_link_total(h: Seq<HopView>, ca: Seq<Seq<char>>, oa: int, cb: Seq<Seq<char>>, ob: int)
    ensures
        link_total(hop_links(h, ca, oa, cb, ob)) == hop_total(h),
    decreases h.len(),
{
    if h.len() > 0 {
        lemma_link_total(h.drop_last(), ca, oa, cb, ob);
        assert(hop_links(h, ca, oa, cb, ob).drop_last() =~= hop_links(h.drop_last(), ca, oa, cb, ob));
    }
}

/// Every row is carried once from source to service and once from service
/// to destination: the links of each stage add up to the rows' total
/// count. Counts are not negative, and their total fits the counter.
pub proof fn lemma_links_carry_every_row(
    rows: Seq<FlowRow>,
    ts: Seq<Seq<char>>,
    tv: Seq<Seq<char>>,
    td: Seq<Seq<char>>,
)
    requires
        forall|i: int| 0 <= i < rows.len() ==> 0 <= #[trigger] rows[i].cnt,
        count_total(rows) <= i64::MAX,
    ensures
        ({
            let d = sankey_from(rows, ts, tv, td);
            let n = hops_of(rows, Column::Source, Column::Service, ts, tv).len() as int;
            &&& link_total(d.links.take(n)) == count_total(rows)
            &&& link_total(d.links.skip(n)) == count_total(rows)
        }),
{
    let cs = column_of(ts, volumes_of(rows, Column::Source).len());
    let cv = column_of(tv, volumes_of(rows, Column::Service).len());
    let cd = column_of(td, volumes_of(rows, Column::Destination).len());
    let h1 = hops_of(rows, Column::Source, Column::Service, ts, tv);
    let h2 = hops_of(rows, Column::Service, Column::Destination, tv, td);
    let l1 = hop_links(h1, cs, 0, cv, cs.len() as int);
    let l2 = hop_links(h2, cv, cs.len() as int, cd, (cs.len() + cv.len()) as int);
    let d = sankey_from(rows, ts, tv, td);
    assert(d.links == l1 + l2);
    assert(d.links.take(h1.len() as int) =~= l1);
    assert(d.links.skip(h1.len() as int) =~= l2);
    lemma_hops_sum_rows(rows, Column::Source, Column::Service, ts, tv);
    lemma_hops_sum_rows(rows, Column::Service, Column::Destination, tv, td);
    lemma_link_total(h1, cs, 0, cv, cs.len() as int);
    lemma_link_total(h2, cv, cs.len() as int, cd, (cs.len() + cv.len()) as int);
}

// ---------------------------------------------------------------------------
// The zone matrix
// ---------------------------------------------------------------------------

/// A cell of the zone matrix: traffic from one interface to another,
/// allowed and blocked apart.
#[derive(Debug, Clone, PartialEq)]
pub struct ZoneCell {
    pub from: String,
    pub to: String,
    pub allowed: i64,
    pub blocked: i64,
}

pub type CellView = (Seq<char>, Seq<char>, i64, i64);

pub open spec fn zone_rows_view(v: Seq<(Option<String>, Option<String>, i64, i64)>) -> Seq<
    (Option<Seq<char>>, Option<Seq<char>>, i64, i64),
> {
    v.map_values(|r: (Option<String>, Option<String>, i64, i64)| (ov(r.0), ov(r.1), r.2, r.3))
}

pub open spec fn cells_view(v: Seq<ZoneCell>) -> Seq<CellView> {
    v.map_values(|c: ZoneCell| (c.from@, c.to@, c.allowed, c.blocked))
}

/// The cells of the rows that know both interfaces; a row with one side
/// says nothing about a pair of zones.
pub open spec fn cells_of(rows: Seq<(Option<Seq<char>>, Option<Seq<char>>, i64, i64)>) -> Seq<CellView>
    decreases rows.len(),
{
    if rows.len() == 0 {
        Seq::empty()
    } else {
        let rest = cells_of(rows.drop_last());
        let r = rows.last();
        match (r.0, r.1) {
            (Some(a), Some(b)) => rest.push((a, b, r.2, r.3)),
            _ => rest,
        }
    }
}

/// Both interfaces of every cell.
pub open spec fn cell_names(c: Seq<CellView>) -> Seq<Seq<char>>
    decreases c.len(),
{
    if c.len() == 0 {
        Seq::empty()
    } else {
        cell_names(c.drop_last()) + seq![c.last().0, c.last().1]
    }
}

/// The zone matrix: the cells, and the interfaces that occur in them,
/// sorted and each once.
pub fn zone_matrix(rows: &[(Option<String>, Option<String>, i64, i64)]) -> (r: (Vec<String>, Vec<ZoneCell>))
    ensures
        cells_view(r.1@) == cells_of(zone_rows_view(rows@)),
        strs_of(r.0@).to_set() == cell_names(cells_of(zone_rows_view(rows@))).to_set(),
        forall|i: int, j: int| 0 <= i < j < r.0@.len() ==> crate::order::lex_le(#[trigger] r.0@[i]@, #[trigger] r.0@[j]@),
        forall|i: int| 0 <= i < r.0@.len() - 1 ==> #[trigger] r.0@[i]@ != r.0@[i + 1]@,
{
    let ghost rv = zone_rows_view(rows@);
    let mut cells: Vec<ZoneCell> = Vec::new();
    let mut names: Vec<String> = Vec::new();
    let mut i: usize = 0;
    while i < rows.len()
        invariant
            0 <= i <= rows@.len(),
            rv == zone_rows_view(rows@),
            cells_view(cells@) == cells_of(rv.take(i as int)),
            strs_of(names@) == cell_names(cells_of(rv.take(i as int))),
        decreases rows.len() - i,
    {
        assert(rv.take(i + 1).drop_last() =~= rv.take(i as int));
        assert(rv[i as int] == (ov(rows@[i as int].0), ov(rows@[i as int].1), rows@[i as int].2, rows@[i as int].3));
        match (&rows[i].0, &rows[i].1) {
            (Some(a), Some(b)) => {
                let ghost before = cells_view(cells@);
                let ghost nb = strs_of(names@);
                let c = ZoneCell { from: a.clone(), to: b.clone(), allowed: rows[i].2, blocked: rows[i].3 };
                let ghost cv = (c.from@, c.to@, c.allowed, c.blocked);
                cells.push(c);
                assert(cells_view(cells@) =~= before.push(cv));
                names.push(a.clone());
                names.push(b.clone());
                assert(strs_of(names@) =~= nb + seq![a@, b@]);
                assert(cells_of(rv.take(i + 1)).drop_last() =~= cells_of(rv.take(i as int)));
            },
            _ => {},
        }
        i = i + 1;
    }
    assert(rv.take(rv.len() as int) =~= rv);
    let zones = crate::order::sorted_distinct(&names);
    proof {
        assert(crate::sql::strs(names@) == strs_of(names@));
        assert(crate::sql::strs(zones@) == strs_of(zones@));
    }
    (zones, cells)
}

} // verus!
