//! Ordering: the character order of texts, and a stable sort by key.
use vstd::prelude::*;
use crate::sql::strs;
use crate::text::{chars_of, same};

verus! {

/// `a` comes before or equals `b`, character by character: the order of
/// `str` (UTF-8 bytes compare as their characters do).
pub open spec fn lex_le(a: Seq<char>, b: Seq<char>) -> bool
    decreases a.len(),
{
    if a.len() == 0 {
        true
    } else if b.len() == 0 {
        false
    } else if a[0] != b[0] {
        a[0] < b[0]
    } else {
        lex_le(a.drop_first(), b.drop_first())
    }
}

pub proof fn lemma_lex_refl(a: Seq<char>)
    ensures
        lex_le(a, a),
    decreases a.len(),
{
    if a.len() > 0 {
        lemma_lex_refl(a.drop_first());
    }
}

pub proof fn lemma_lex_total(a: Seq<char>, b: Seq<char>)
    ensures
        lex_le(a, b) || lex_le(b, a),
    decreases a.len(),
{
    if a.len() > 0 && b.len() > 0 && a[0] == b[0] {
        lemma_lex_total(a.drop_first(), b.drop_first());
    }
}

pub proof fn lemma_lex_antisym(a: Seq<char>, b: Seq<char>)
    requires
        lex_le(a, b),
        lex_le(b, a),
    ensures
        a == b,
    decreases a.len(),
{
    if a.len() > 0 && b.len() > 0 {
        lemma_lex_antisym(a.drop_first(), b.drop_first());
        assert(a =~= seq![a[0]] + a.drop_first());
        assert(b =~= seq![b[0]] + b.drop_first());
    } else if a.len() == 0 && b.len() > 0 {
    } else {
        assert(a =~= b);
    }
}

pub proof fn lemma_lex_trans(a: Seq<char>, b: Seq<char>, c: Seq<char>)
    requires
        lex_le(a, b),
        lex_le(b, c),
    ensures
        lex_le(a, c),
    decreases a.len(),
{
    if a.len() > 0 && b.len() > 0 && c.len() > 0 && a[0] == b[0] && b[0] == c[0] {
        lemma_lex_trans(a.drop_first(), b.drop_first(), c.drop_first());
    }
}

/// Whether `a` comes before or equals `b`.
pub fn lex_le_exec(a: &[char], b: &[char]) -> (r: bool)
    ensures
        r == lex_le(a@, b@),
{
    let mut i: usize = 0;
    assert(a@.skip(0) =~= a@);
    assert(b@.skip(0) =~= b@);
    assert(a@.take(0) =~= b@.take(0));
    while i < a.len() && i < b.len() && a[i] == b[i]
        invariant
            0 <= i <= a@.len(),
            i <= b@.len(),
            a@.take(i as int) == b@.take(i as int),
            lex_le(a@, b@) == lex_le(a@.skip(i as int), b@.skip(i as int)),
        decreases a.len() - i,
    {
        assert(a@.skip(i as int).drop_first() =~= a@.skip(i + 1));
        assert(b@.skip(i as int).drop_first() =~= b@.skip(i + 1));
        assert(a@.take(i + 1) =~= a@.take(i as int).push(a@[i as int]));
        assert(b@.take(i + 1) =~= b@.take(i as int).push(b@[i as int]));
        i = i + 1;
    }
    if i == a.len() {
        assert(a@.skip(i as int).len() == 0);
        true
    } else if i == b.len() {
        assert(b@.skip(i as int).len() == 0);
        assert(a@.skip(i as int).len() > 0);
        assert(!lex_le(a@.skip(i as int), b@.skip(i as int)));
        false
    } else {
        assert(a@.skip(i as int)[0] == a@[i as int]);
        assert(b@.skip(i as int)[0] == b@[i as int]);
        assert(a@[i as int] != b@[i as int]);
        a[i] < b[i]
    }
}

/// A sort key: a number first, then a text.
pub open spec fn key_le(a: (int, Seq<char>), b: (int, Seq<char>)) -> bool {
    a.0 < b.0 || (a.0 == b.0 && lex_le(a.1, b.1))
}

pub open spec fn keys_view(k: Seq<(i128, Vec<char>)>) -> Seq<(int, Seq<char>)> {
    k.map_values(|e: (i128, Vec<char>)| (e.0 as int, e.1@))
}

/// Position `a` goes before position `b`: a smaller key, or an equal key
/// and an earlier position — the order of a stable sort.
pub open spec fn goes_before(keys: Seq<(int, Seq<char>)>, a: int, b: int) -> bool {
    (key_le(keys[a], keys[b]) && keys[a] != keys[b]) || (keys[a] == keys[b] && a < b)
}

/// `order` lists the positions `0..n` in the order of a stable sort by key.
pub open spec fn stable_order(keys: Seq<(int, Seq<char>)>, order: Seq<usize>) -> bool {
    &&& order.len() == keys.len()
    &&& forall|i: int| 0 <= i < order.len() ==> order[i] < keys.len()
    &&& forall|k: usize| k < keys.len() ==> #[trigger] order.contains(k)
    &&& forall|i: int, j: int|
        0 <= i < j < order.len() ==> goes_before(keys, #[trigger] order[i] as int, #[trigger] order[j] as int)
}

/// No position goes before itself, and of two positions at most one goes
/// before the other.
proof fn lemma_goes_before_asym(keys: Seq<(int, Seq<char>)>, a: int, b: int)
    ensures
        !goes_before(keys, a, a),
        !(goes_before(keys, a, b) && goes_before(keys, b, a)),
{
    if key_le(keys[a], keys[b]) && key_le(keys[b], keys[a]) {
        if keys[a].0 == keys[b].0 {
            lemma_lex_antisym(keys[a].1, keys[b].1);
        }
    }
}

proof fn lemma_stable_prefix(keys: Seq<(int, Seq<char>)>, a: Seq<usize>, b: Seq<usize>, i: int)
    requires
        stable_order(keys, a),
        stable_order(keys, b),
        0 <= i < a.len(),
    ensures
        forall|m: int| 0 <= m <= i ==> a[m] == b[m],
    decreases i,
{
    if i > 0 {
        lemma_stable_prefix(keys, a, b, i - 1);
    }
    if a[i] != b[i] {
        let x = a[i];
        let y = b[i];
        assert(a.contains(y));
        let j = choose|j: int| 0 <= j < a.len() && a[j] == y;
        assert(b.contains(x));
        let k = choose|k: int| 0 <= k < b.len() && b[k] == x;
        lemma_goes_before_asym(keys, x as int, y as int);
        lemma_goes_before_asym(keys, y as int, y as int);
        lemma_goes_before_asym(keys, x as int, x as int);
        if j < i {
            assert(b[j] == a[j]);
            assert(goes_before(keys, b[j] as int, b[i] as int));
        } else if k < i {
            assert(a[k] == b[k]);
            assert(goes_before(keys, a[k] as int, a[i] as int));
        } else {
            assert(j != i && k != i);
            assert(goes_before(keys, a[i] as int, a[j] as int));
            assert(goes_before(keys, b[i] as int, b[k] as int));
        }
    }
}

/// The order of a stable sort by key.
pub open spec fn stable_sorted(keys: Seq<(int, Seq<char>)>) -> Seq<usize> {
    choose|o: Seq<usize>| stable_order(keys, o)
}

/// Any stable order of the keys is the order of a stable sort.
pub proof fn lemma_stable_sorted(keys: Seq<(int, Seq<char>)>, o: Seq<usize>)
    requires
        stable_order(keys, o),
    ensures
        stable_sorted(keys) == o,
{
    let c = stable_sorted(keys);
    assert(stable_order(keys, c));
    lemma_stable_order_unique(keys, c, o);
}

/// A stable sort has one outcome: two orders that both sort the same keys
/// stably are the same order.
pub proof fn lemma_stable_order_unique(keys: Seq<(int, Seq<char>)>, a: Seq<usize>, b: Seq<usize>)
    requires
        stable_order(keys, a),
        stable_order(keys, b),
    ensures
        a == b,
{
    assert forall|i: int| 0 <= i < a.len() implies a[i] == b[i] by {
        lemma_stable_prefix(keys, a, b, i);
    }
    assert(a =~= b);
}

proof fn lemma_key_total(a: (int, Seq<char>), b: (int, Seq<char>))
    ensures
        key_le(a, b) || key_le(b, a),
{
    lemma_lex_total(a.1, b.1);
}

proof fn lemma_key_trans(a: (int, Seq<char>), b: (int, Seq<char>), c: (int, Seq<char>))
    requires
        key_le(a, b),
        key_le(b, c),
    ensures
        key_le(a, c),
{
    if a.0 == b.0 && b.0 == c.0 {
        lemma_lex_trans(a.1, b.1, c.1);
    }
}

proof fn lemma_key_antisym(a: (int, Seq<char>), b: (int, Seq<char>))
    requires
        key_le(a, b),
        key_le(b, a),
    ensures
        a == b,
{
    lemma_lex_antisym(a.1, b.1);
}

proof fn lemma_goes_before_trans(keys: Seq<(int, Seq<char>)>, a: int, b: int, c: int)
    requires
        goes_before(keys, a, b),
        goes_before(keys, b, c),
    ensures
        goes_before(keys, a, c),
{
    if keys[a] == keys[b] {
    } else if keys[b] == keys[c] {
    } else {
        lemma_key_trans(keys[a], keys[b], keys[c]);
        if keys[a] == keys[c] {
            lemma_key_antisym(keys[a], keys[b]);
        }
    }
}

fn key_lt_exec(a: &(i128, Vec<char>), b: &(i128, Vec<char>)) -> (r: bool)
    ensures
        r == (key_le((a.0 as int, a.1@), (b.0 as int, b.1@)) && (a.0 as int, a.1@) != (
            b.0 as int,
            b.1@,
        )),
{
    if a.0 < b.0 {
        true
    } else if a.0 > b.0 {
        false
    } else {
        let le = lex_le_exec(a.1.as_slice(), b.1.as_slice());
        let ge = lex_le_exec(b.1.as_slice(), a.1.as_slice());
        proof {
            if le && ge {
                lemma_lex_antisym(a.1@, b.1@);
            }
        }
        le && !ge
    }
}

/// The positions of the keys in the order of a stable sort: by number,
/// then by text; equal keys keep their order.
pub fn sort_order(keys: &Vec<(i128, Vec<char>)>) -> (r: Vec<usize>)
    ensures
        stable_order(keys_view(keys@), r@),
        r@ == stable_sorted(keys_view(keys@)),
{
    let ghost kv = keys_view(keys@);
    let mut out: Vec<usize> = Vec::new();
    let mut i: usize = 0;
    while i < keys.len()
        invariant
            0 <= i <= keys@.len(),
            kv == keys_view(keys@),
            kv.len() == keys@.len(),
            out@.len() == i,
            forall|m: int| 0 <= m < out@.len() ==> out@[m] < i,
            forall|k: usize| k < i ==> #[trigger] out@.contains(k),
            forall|a: int, b: int|
                0 <= a < b < out@.len() ==> goes_before(kv, #[trigger] out@[a] as int, #[trigger] out@[b] as int),
        decreases keys.len() - i,
    {
        // The first position whose key is greater than key i.
        let mut p: usize = 0;
        while p < out.len() && !key_lt_exec(&keys[i], &keys[out[p]])
            invariant
                0 <= p <= out@.len(),
                i < keys@.len(),
                kv == keys_view(keys@),
                forall|m: int| 0 <= m < out@.len() ==> out@[m] < i,
                forall|m: int| 0 <= m < p ==> goes_before(kv, #[trigger] out@[m] as int, i as int),
            decreases out.len() - p,
        {
            proof {
                let o = out@[p as int] as int;
                assert(kv[o] == (keys@[o].0 as int, keys@[o].1@));
                assert(kv[i as int] == (keys@[i as int].0 as int, keys@[i as int].1@));
                lemma_key_total(kv[i as int], kv[o]);
            }
            p = p + 1;
        }
        let ghost before = out@;
        proof {
            if p < out@.len() {
                let o = out@[p as int] as int;
                assert(kv[o] == (keys@[o].0 as int, keys@[o].1@));
                assert(kv[i as int] == (keys@[i as int].0 as int, keys@[i as int].1@));
                assert(goes_before(kv, i as int, o));
            }
        }
        out.insert(p, i);
        proof {
            assert forall|a: int, b: int| 0 <= a < b < out@.len() implies goes_before(
                kv,
                #[trigger] out@[a] as int,
                #[trigger] out@[b] as int,
            ) by {
                if a < p && b == p {
                    assert(out@[a] == before[a]);
                } else if a == p && b > p {
                    assert(out@[b] == before[b - 1]);
                    let o = before[p as int] as int;
                    if b - 1 > p {
                        lemma_goes_before_trans(kv, i as int, o, before[b - 1] as int);
                    }
                } else if a < p && b > p {
                    assert(out@[a] == before[a]);
                    assert(out@[b] == before[b - 1]);
                } else if b < p {
                    assert(out@[a] == before[a] && out@[b] == before[b]);
                } else {
                    assert(out@[a] == before[a - 1] && out@[b] == before[b - 1]);
                }
            }
            assert forall|k: usize| k < i + 1 implies #[trigger] out@.contains(k) by {
                if k == i {
                    assert(out@[p as int] == i);
                } else {
                    assert(before.contains(k));
                    let m = choose|m: int| 0 <= m < before.len() && before[m] == k;
                    if m < p {
                        assert(out@[m] == k);
                    } else {
                        assert(out@[m + 1] == k);
                    }
                }
            }
        }
        i = i + 1;
    }
    proof {
        lemma_stable_sorted(kv, out@);
    }
    out
}

// ---------------------------------------------------------------------------
// Sorted texts
// ---------------------------------------------------------------------------

/// The texts in ascending character order.
pub fn sort_texts(v: &Vec<String>) -> (r: Vec<String>)
    ensures
        forall|x: Seq<char>| #[trigger] strs(r@).contains(x) == strs(v@).contains(x),
        forall|i: int, j: int| 0 <= i < j < r@.len() ==> lex_le(#[trigger] r@[i]@, #[trigger] r@[j]@),
{
    let mut keys: Vec<(i128, Vec<char>)> = Vec::new();
    let mut i: usize = 0;
    while i < v.len()
        invariant
            0 <= i <= v@.len(),
            keys@.len() == i,
            forall|k: int| 0 <= k < i ==> #[trigger] keys_view(keys@)[k] == (0int, v@[k]@),
        decreases v.len() - i,
    {
        let ghost before = keys@;
        keys.push((0, chars_of(v[i].as_str())));
        assert(keys_view(keys@) =~= keys_view(before).push((0int, v@[i as int]@)));
        i = i + 1;
    }
    let order = sort_order(&keys);
    let ghost kv = keys_view(keys@);
    let mut out: Vec<String> = Vec::new();
    let mut j: usize = 0;
    while j < order.len()
        invariant
            0 <= j <= order@.len(),
            kv == keys_view(keys@),
            kv.len() == v@.len(),
            stable_order(kv, order@),
            forall|k: int| 0 <= k < v@.len() ==> #[trigger] kv[k] == (0int, v@[k]@),
            out@.len() == j,
            forall|k: int| 0 <= k < j ==> #[trigger] out@[k]@ == v@[order@[k] as int]@,
        decreases order.len() - j,
    {
        out.push(v[order[j]].clone());
        j = j + 1;
    }
    proof {
        assert forall|x: Seq<char>| #[trigger] strs(out@).contains(x) == strs(v@).contains(x) by {
            if strs(out@).contains(x) {
                let k = choose|k: int| 0 <= k < out@.len() && strs(out@)[k] == x;
                assert(strs(v@)[order@[k] as int] == x);
            }
            if strs(v@).contains(x) {
                let k = choose|k: int| 0 <= k < v@.len() && strs(v@)[k] == x;
                assert(order@.contains(k as usize));
                let m = choose|m: int| 0 <= m < order@.len() && order@[m] == k as usize;
                assert(strs(out@)[m] == x);
            }
        }
        assert forall|a: int, b: int| 0 <= a < b < out@.len() implies lex_le(
            #[trigger] out@[a]@,
            #[trigger] out@[b]@,
        ) by {
            let oa = order@[a] as int;
            let ob = order@[b] as int;
            assert(goes_before(kv, oa, ob));
            assert(kv[oa] == (0int, v@[oa]@) && kv[ob] == (0int, v@[ob]@));
            lemma_lex_refl(v@[oa]@);
        }
    }
    out
}

/// The texts with runs of equal neighbours reduced to one (`Vec::dedup`).
pub open spec fn dedup_runs(s: Seq<Seq<char>>) -> Seq<Seq<char>>
    decreases s.len(),
{
    if s.len() == 0 {
        Seq::empty()
    } else {
        let d = dedup_runs(s.drop_last());
        if s.len() >= 2 && s[s.len() - 2] == s.last() {
            d
        } else {
            d.push(s.last())
        }
    }
}

pub fn dedup_strings(v: &Vec<String>) -> (r: Vec<String>)
    ensures
        strs(r@) == dedup_runs(strs(v@)),
{
    let mut out: Vec<String> = Vec::new();
    let ghost sv = strs(v@);
    let mut i: usize = 0;
    while i < v.len()
        invariant
            0 <= i <= v@.len(),
            sv == strs(v@),
            strs(out@) == dedup_runs(sv.take(i as int)),
        decreases v.len() - i,
    {
        let ghost t = sv.take(i + 1);
        assert(t.drop_last() =~= sv.take(i as int));
        assert(t.last() == v@[i as int]@);
        let dup = if i > 0 {
            assert(t[t.len() - 2] == v@[i - 1]@);
            let a = chars_of(v[i - 1].as_str());
            let b = chars_of(v[i].as_str());
            same(a.as_slice(), b.as_slice())
        } else {
            false
        };
        if !dup {
            let ghost before = out@;
            out.push(v[i].clone());
            assert(strs(out@) =~= strs(before).push(v@[i as int]@));
        }
        i = i + 1;
    }
    assert(sv.take(sv.len() as int) =~= sv);
    out
}

pub proof fn lemma_dedup_runs_contains(s: Seq<Seq<char>>)
    ensures
        forall|x: Seq<char>|
            #![trigger dedup_runs(s).contains(x)]
            #![trigger s.contains(x)]
            dedup_runs(s).contains(x) <==> s.contains(x),
    decreases s.len(),
{
    if s.len() > 0 {
        let p = s.drop_last();
        lemma_dedup_runs_contains(p);
        let d = dedup_runs(p);
        let dup = s.len() >= 2 && s[s.len() - 2] == s.last();
        assert forall|x: Seq<char>| dedup_runs(s).contains(x) <==> s.contains(x) by {
            if s.contains(x) {
                let k = choose|k: int| 0 <= k < s.len() && s[k] == x;
                let kk = if k < s.len() - 1 {
                    k
                } else if dup {
                    s.len() - 2
                } else {
                    -1
                };
                if kk >= 0 {
                    assert(p[kk] == x);
                    assert(p.contains(x));
                    assert(d.contains(x));
                    let m = choose|m: int| 0 <= m < d.len() && d[m] == x;
                    if !dup {
                        assert(d.push(s.last())[m] == x);
                    }
                } else {
                    assert(d.push(s.last())[d.len() as int] == x);
                }
            }
            if dedup_runs(s).contains(x) {
                let m = choose|m: int| 0 <= m < dedup_runs(s).len() && dedup_runs(s)[m] == x;
                if m < d.len() {
                    assert(d[m] == x);
                    assert(d.contains(x));
                    assert(p.contains(x));
                    let k = choose|k: int| 0 <= k < p.len() && p[k] == x;
                    assert(s[k] == x);
                } else {
                    assert(s[s.len() - 1] == x);
                }
            }
        }
    }
}

pub proof fn lemma_dedup_runs_sorted(s: Seq<Seq<char>>)
    requires
        forall|i: int, j: int| 0 <= i < j < s.len() ==> lex_le(#[trigger] s[i], #[trigger] s[j]),
    ensures
        forall|i: int, j: int|
            0 <= i < j < dedup_runs(s).len() ==> lex_le(
                #[trigger] dedup_runs(s)[i],
                #[trigger] dedup_runs(s)[j],
            ),
    decreases s.len(),
{
    if s.len() > 0 {
        let p = s.drop_last();
        assert forall|i: int, j: int| 0 <= i < j < p.len() implies lex_le(#[trigger] p[i], #[trigger] p[j]) by {
            assert(s[i] == p[i] && s[j] == p[j]);
        }
        lemma_dedup_runs_sorted(p);
        lemma_dedup_runs_contains(p);
        let d = dedup_runs(p);
        assert forall|i: int, j: int| 0 <= i < j < dedup_runs(s).len() implies lex_le(
            #[trigger] dedup_runs(s)[i],
            #[trigger] dedup_runs(s)[j],
        ) by {
            if !(s.len() >= 2 && s[s.len() - 2] == s.last()) && j == d.len() {
                assert(d.contains(d[i]));
                assert(p.contains(d[i]));
                let k = choose|k: int| 0 <= k < p.len() && p[k] == d[i];
                assert(s[k] == d[i]);
                assert(lex_le(s[k], s[s.len() - 1]));
            }
        }
    }
}

proof fn lemma_dedup_runs_last(s: Seq<Seq<char>>)
    requires
        s.len() > 0,
    ensures
        dedup_runs(s).len() > 0,
        dedup_runs(s).last() == s.last(),
    decreases s.len(),
{
    let p = s.drop_last();
    if s.len() >= 2 && s[s.len() - 2] == s.last() {
        lemma_dedup_runs_last(p);
    }
}

/// No two neighbours of a run-reduced sequence are equal.
pub proof fn lemma_dedup_runs_neighbours(s: Seq<Seq<char>>)
    ensures
        forall|i: int| 0 <= i < dedup_runs(s).len() - 1 ==> #[trigger] dedup_runs(s)[i] != dedup_runs(s)[i + 1],
    decreases s.len(),
{
    if s.len() > 0 {
        let p = s.drop_last();
        lemma_dedup_runs_neighbours(p);
        let d = dedup_runs(p);
        if !(s.len() >= 2 && s[s.len() - 2] == s.last()) && d.len() > 0 {
            lemma_dedup_runs_last(p);
            assert(d.last() == s[s.len() - 2]);
            assert forall|i: int| 0 <= i < dedup_runs(s).len() - 1 implies #[trigger] dedup_runs(s)[i]
                != dedup_runs(s)[i + 1] by {
                if i < d.len() - 1 {
                    assert(dedup_runs(s)[i] == d[i] && dedup_runs(s)[i + 1] == d[i + 1]);
                }
            }
        }
    }
}

/// The texts sorted, each once: sorted in character order, and no two
/// neighbours equal.
pub fn sorted_distinct(v: &Vec<String>) -> (r: Vec<String>)
    ensures
        strs(r@).to_set() == strs(v@).to_set(),
        forall|i: int, j: int| 0 <= i < j < r@.len() ==> lex_le(#[trigger] r@[i]@, #[trigger] r@[j]@),
        forall|i: int| 0 <= i < r@.len() - 1 ==> #[trigger] r@[i]@ != r@[i + 1]@,
{
    let sorted = sort_texts(v);
    let out = dedup_strings(&sorted);
    proof {
        let sv = strs(sorted@);
        lemma_dedup_runs_contains(sv);
        assert forall|i: int, j: int| 0 <= i < j < sv.len() implies lex_le(#[trigger] sv[i], #[trigger] sv[j]) by {
            assert(sv[i] == sorted@[i]@ && sv[j] == sorted@[j]@);
        }
        lemma_dedup_runs_sorted(sv);
        lemma_dedup_runs_neighbours(sv);
        assert forall|x: Seq<char>| #[trigger] strs(out@).to_set().contains(x) == strs(v@).to_set().contains(x) by {
            assert(sv.contains(x) == strs(v@).contains(x));
        }
        assert(strs(out@).to_set() =~= strs(v@).to_set());
        assert forall|i: int, j: int| 0 <= i < j < out@.len() implies lex_le(#[trigger] out@[i]@, #[trigger] out@[j]@) by {
            assert(strs(out@)[i] == out@[i]@ && strs(out@)[j] == out@[j]@);
        }
        assert forall|i: int| 0 <= i < out@.len() - 1 implies #[trigger] out@[i]@ != out@[i + 1]@ by {
            assert(strs(out@)[i] == out@[i]@ && strs(out@)[i + 1] == out@[i + 1]@);
        }
    }
    out
}

} // verus!
