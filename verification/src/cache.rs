//! Short memories: the answers of the aggregating endpoints, kept for
//! twenty seconds, and the answers of reverse DNS, kept for a day. Time is
//! handed in by the caller, in milliseconds on a clock that only moves
//! forward.
use vstd::prelude::*;
use crate::net::IpAddress;
use crate::text::{chars_of, same, same_str};
use crate::types::ov;

verus! {

// ---------------------------------------------------------------------------
// Answers of the API
// ---------------------------------------------------------------------------

/// How long an answer holds, in milliseconds: the span in which one
/// clicks, not the one in which one reads.
pub const TTL_MS: i64 = 20_000;

/// How many answers are kept at most: each combination of filters is an
/// entry of its own.
pub const MAX_ENTRIES: usize = 128;

/// Larger answers are not kept: the cache is to save time, not to cost
/// memory.
pub const MAX_BODY: usize = 4_194_304;

/// The endpoints whose answers are worth keeping: all that aggregate over
/// the whole log. The page of rows is not among them; it is quick, and it
/// is to be fresh.
pub open spec fn cacheable_path(p: Seq<char>) -> bool {
    p == "/api/stats"@ || p == "/api/stats/series"@ || p == "/api/stats/top"@ || p
        == "/api/stats/ip-pairs"@ || p == "/api/logs/count"@ || p == "/api/threats/points"@ || p
        == "/api/flows/sankey"@ || p == "/api/flows/zones"@ || p == "/api/flows/host-detail"@
}

/// Whether the answer to a request may come from, and go to, the cache:
/// reads of the aggregating endpoints only.
pub fn cacheable(is_get: bool, path: &str) -> (r: bool)
    ensures
        r == (is_get && cacheable_path(path@)),
{
    if !is_get {
        return false;
    }
    let p = chars_of(path);
    let p = p.as_slice();
    same_str(p, "/api/stats") || same_str(p, "/api/stats/series") || same_str(p, "/api/stats/top")
        || same_str(p, "/api/stats/ip-pairs") || same_str(p, "/api/logs/count") || same_str(
        p,
        "/api/threats/points",
    ) || same_str(p, "/api/flows/sankey") || same_str(p, "/api/flows/zones") || same_str(
        p,
        "/api/flows/host-detail",
    )
}

/// A kept answer: its key, when it was kept, and its body.
pub type AnswerView = (Seq<char>, i64, Seq<u8>);

/// Whether an answer kept at `at` still holds at `now`.
pub open spec fn fresh(at: i64, now: i64) -> bool {
    now - at <= TTL_MS
}

/// Where the answer for `key` stands, at or after `i`.
pub open spec fn answer_pos(v: Seq<AnswerView>, key: Seq<char>, i: int) -> Option<int>
    decreases v.len() - i,
{
    if i < 0 || i >= v.len() {
        None
    } else if v[i].0 == key {
        Some(i)
    } else {
        answer_pos(v, key, i + 1)
    }
}

/// Each key at most once, and no more than `MAX_ENTRIES` answers.
pub open spec fn answers_wf(v: Seq<AnswerView>) -> bool {
    &&& v.len() <= MAX_ENTRIES
    &&& forall|i: int, j: int| 0 <= i < j < v.len() ==> #[trigger] v[i].0 != #[trigger] v[j].0
}

/// Looking up `key` at `now`: the body where a fresh answer is kept; an
/// answer that is too old is dropped on the way.
pub open spec fn get_of(v: Seq<AnswerView>, key: Seq<char>, now: i64) -> (Option<Seq<u8>>, Seq<AnswerView>) {
    match answer_pos(v, key, 0) {
        Some(i) => if fresh(v[i].1, now) {
            (Some(v[i].2), v)
        } else {
            (None, v.remove(i))
        },
        None => (None, v),
    }
}

/// The answers still fresh at `now`, in order.
pub open spec fn fresh_answers(v: Seq<AnswerView>, now: i64) -> Seq<AnswerView>
    decreases v.len(),
{
    if v.len() == 0 {
        Seq::empty()
    } else {
        let rest = fresh_answers(v.drop_last(), now);
        if fresh(v.last().1, now) {
            rest.push(v.last())
        } else {
            rest
        }
    }
}

/// The position of the oldest answer, the first of equally old ones, at
/// or after `i`; `best` is the oldest before `i`.
pub open spec fn oldest_from(v: Seq<AnswerView>, best: int, i: int) -> int
    decreases v.len() - i,
{
    if i < 0 || i >= v.len() {
        best
    } else if v[i].1 < v[best].1 {
        oldest_from(v, i, i + 1)
    } else {
        oldest_from(v, best, i + 1)
    }
}

/// Room for one more: when full, the oldest answer goes.
pub open spec fn with_room(v: Seq<AnswerView>) -> Seq<AnswerView> {
    if v.len() >= MAX_ENTRIES && v.len() > 0 {
        v.remove(oldest_from(v, 0, 1))
    } else {
        v
    }
}

/// Keeping `body` under `key` at `now`: a body too large is not kept;
/// else the answers too old go first, then, if it is still full, the
/// oldest, and the new answer replaces the old one under its key or comes
/// last.
pub open spec fn put_of(v: Seq<AnswerView>, key: Seq<char>, body: Seq<u8>, now: i64) -> Seq<AnswerView> {
    if body.len() > MAX_BODY {
        v
    } else {
        let w = with_room(fresh_answers(v, now));
        match answer_pos(w, key, 0) {
            Some(i) => w.update(i, (key, now, body)),
            None => w.push((key, now, body)),
        }
    }
}

/// The answers of the aggregating endpoints, kept a short while.
pub struct ResponseCache {
    entries: Vec<(String, i64, Vec<u8>)>,
}

impl View for ResponseCache {
    type V = Seq<AnswerView>;

    closed spec fn view(&self) -> Seq<AnswerView> {
        self.entries@.map_values(|e: (String, i64, Vec<u8>)| (e.0@, e.1, e.2@))
    }
}

proof fn lemma_answer_pos(v: Seq<AnswerView>, key: Seq<char>, i: int)
    requires
        0 <= i,
    ensures
        answer_pos(v, key, i) matches Some(j) ==> i <= j < v.len() && v[j].0 == key,
        answer_pos(v, key, i) is None ==> forall|k: int| i <= k < v.len() ==> v[k].0 != key,
    decreases v.len() - i,
{
    if i < v.len() && v[i].0 != key {
        lemma_answer_pos(v, key, i + 1);
    }
}

proof fn lemma_oldest_from(v: Seq<AnswerView>, best: int, i: int)
    requires
        0 <= best < v.len(),
        0 <= i,
    ensures
        0 <= oldest_from(v, best, i) < v.len(),
    decreases v.len() - i,
{
    if i < v.len() {
        if v[i].1 < v[best].1 {
            lemma_oldest_from(v, i, i + 1);
        } else {
            lemma_oldest_from(v, best, i + 1);
        }
    }
}

pub open spec fn distinct_keys(v: Seq<AnswerView>) -> bool {
    forall|i: int, j: int| 0 <= i < j < v.len() ==> #[trigger] v[i].0 != #[trigger] v[j].0
}

proof fn lemma_fresh_answers_sub(v: Seq<AnswerView>, now: i64)
    ensures
        fresh_answers(v, now).len() <= v.len(),
        forall|j: int|
            0 <= j < fresh_answers(v, now).len() ==> exists|k: int|
                0 <= k < v.len() && #[trigger] fresh_answers(v, now)[j] == v[k],
        distinct_keys(v) ==> distinct_keys(fresh_answers(v, now)),
    decreases v.len(),
{
    if v.len() > 0 {
        let p = v.drop_last();
        lemma_fresh_answers_sub(p, now);
        let f = fresh_answers(v, now);
        let fp = fresh_answers(p, now);
        assert forall|j: int| 0 <= j < f.len() implies exists|k: int| 0 <= k < v.len() && #[trigger] f[j] == v[k] by {
            if j < fp.len() {
                let k = choose|k: int| 0 <= k < p.len() && #[trigger] fp[j] == p[k];
                assert(f[j] == v[k]);
            } else {
                assert(f[j] == v[v.len() - 1]);
            }
        }
        if distinct_keys(v) {
            assert(distinct_keys(p)) by {
                assert forall|i: int, j: int| 0 <= i < j < p.len() implies #[trigger] p[i].0 != #[trigger] p[j].0 by {
                    assert(p[i] == v[i] && p[j] == v[j]);
                }
            }
            assert forall|i: int, j: int| 0 <= i < j < f.len() implies #[trigger] f[i].0 != #[trigger] f[j].0 by {
                if j < fp.len() {
                    assert(f[i] == fp[i] && f[j] == fp[j]);
                } else {
                    let k = choose|k: int| 0 <= k < p.len() && #[trigger] fp[i] == p[k];
                    assert(f[i] == v[k]);
                    assert(f[j] == v[v.len() - 1]);
                }
            }
        }
    }
}

proof fn lemma_put_wf(v: Seq<AnswerView>, key: Seq<char>, body: Seq<u8>, now: i64)
    requires
        answers_wf(v),
    ensures
        answers_wf(put_of(v, key, body, now)),
{
    if body.len() <= MAX_BODY {
        let f = fresh_answers(v, now);
        lemma_fresh_answers_sub(v, now);
        assert(distinct_keys(v));
        assert(distinct_keys(f));
        let w = with_room(f);
        if f.len() >= MAX_ENTRIES && f.len() > 0 {
            lemma_oldest_from(f, 0, 1);
            let o = oldest_from(f, 0, 1);
            assert forall|i: int, j: int| 0 <= i < j < w.len() implies #[trigger] w[i].0 != #[trigger] w[j].0 by {
                let a = if i < o { i } else { i + 1 };
                let b = if j < o { j } else { j + 1 };
                assert(w[i] == f[a] && w[j] == f[b]);
            }
        }
        lemma_answer_pos(w, key, 0);
        let r = put_of(v, key, body, now);
        assert forall|i: int, j: int| 0 <= i < j < r.len() implies #[trigger] r[i].0 != #[trigger] r[j].0 by {
            match answer_pos(w, key, 0) {
                Some(p) => {
                    if i != p && j != p {
                        assert(r[i] == w[i] && r[j] == w[j]);
                    } else if i == p {
                        assert(r[j] == w[j]);
                    } else {
                        assert(r[i] == w[i]);
                    }
                },
                None => {
                    if j < w.len() {
                        assert(r[i] == w[i] && r[j] == w[j]);
                    } else {
                        assert(r[i] == w[i]);
                    }
                },
            }
        }
    }
}

impl ResponseCache {
    /// Whether the cache is in order: each key once, and not over full.
    pub closed spec fn wf(&self) -> bool {
        answers_wf(self@)
    }

    /// An empty cache.
    pub fn new() -> (r: ResponseCache)
        ensures
            r@ == Seq::<AnswerView>::empty(),
            r.wf(),
    {
        let r = ResponseCache { entries: Vec::new() };
        assert(r@ =~= Seq::<AnswerView>::empty());
        r
    }

    /// How many answers are kept.
    pub fn len(&self) -> (r: usize)
        ensures
            r == self@.len(),
    {
        self.entries.len()
    }

    fn position(&self, key: &str) -> (r: Option<usize>)
        ensures
            match r {
                Some(i) => answer_pos(self@, key@, 0) == Some(i as int) && i < self@.len(),
                None => answer_pos(self@, key@, 0) is None,
            },
    {
        let k = chars_of(key);
        let mut i: usize = 0;
        while i < self.entries.len()
            invariant
                0 <= i <= self.entries@.len(),
                k@ == key@,
                self@.len() == self.entries@.len(),
                answer_pos(self@, key@, 0) == answer_pos(self@, key@, i as int),
            decreases self.entries.len() - i,
        {
            assert(self@[i as int].0 == self.entries@[i as int].0@);
            if same(chars_of(self.entries[i].0.as_str()).as_slice(), k.as_slice()) {
                return Some(i);
            }
            i = i + 1;
        }
        None
    }

    /// The answer to `key` at `now`, where one is kept and fresh.
    pub fn get(&mut self, key: &str, now: i64) -> (r: Option<Vec<u8>>)
        requires
            old(self).wf(),
        ensures
            final(self).wf(),
            (match r {
                Some(b) => Some(b@),
                None => None,
            }, final(self)@) == get_of(old(self)@, key@, now),
    {
        let ghost v = self@;
        proof {
            lemma_answer_pos(v, key@, 0);
        }
        match self.position(key) {
            Some(i) => {
                let at = self.entries[i].1;
                if now as i128 - at as i128 <= TTL_MS as i128 {
                    let b = self.entries[i].2.clone();
                    assert(b@ =~= self.entries@[i as int].2@);
                    Some(b)
                } else {
                    self.entries.remove(i);
                    assert(self@ =~= v.remove(i as int));
                    assert forall|a: int, c: int| 0 <= a < c < self@.len() implies #[trigger] self@[a].0
                        != #[trigger] self@[c].0 by {
                        let x = if a < i { a } else { a + 1 };
                        let y = if c < i { c } else { c + 1 };
                        assert(self@[a] == v[x] && self@[c] == v[y]);
                    }
                    None
                }
            },
            None => None,
        }
    }

    /// Keeps `body` as the answer to `key` at `now`.
    pub fn put(&mut self, key: String, body: Vec<u8>, now: i64)
        requires
            old(self).wf(),
        ensures
            final(self).wf(),
            final(self)@ == put_of(old(self)@, key@, body@, now),
    {
        let ghost v = self@;
        proof {
            lemma_put_wf(v, key@, body@, now);
        }
        if body.len() > MAX_BODY {
            return;
        }
        let mut kept: Vec<(String, i64, Vec<u8>)> = Vec::new();
        let mut old_entries: Vec<(String, i64, Vec<u8>)> = Vec::new();
        std::mem::swap(&mut old_entries, &mut self.entries);
        let ghost ov_ = old_entries@.map_values(|e: (String, i64, Vec<u8>)| (e.0@, e.1, e.2@));
        assert(ov_ == v);
        let mut i: usize = 0;
        let n = old_entries.len();
        while i < n
            invariant
                0 <= i <= n,
                n == old_entries@.len(),
                ov_ == old_entries@.map_values(|e: (String, i64, Vec<u8>)| (e.0@, e.1, e.2@)),
                kept@.map_values(|e: (String, i64, Vec<u8>)| (e.0@, e.1, e.2@)) == fresh_answers(
                    ov_.take(i as int),
                    now,
                ),
            decreases n - i,
        {
            assert(ov_.take(i + 1).drop_last() =~= ov_.take(i as int));
            let at = old_entries[i].1;
            if now as i128 - at as i128 <= TTL_MS as i128 {
                let ghost before = kept@.map_values(|e: (String, i64, Vec<u8>)| (e.0@, e.1, e.2@));
                let e = (old_entries[i].0.clone(), at, old_entries[i].2.clone());
                assert(e.2@ =~= old_entries@[i as int].2@);
                kept.push(e);
                assert(kept@.map_values(|e: (String, i64, Vec<u8>)| (e.0@, e.1, e.2@)) =~= before.push(
                    ov_[i as int],
                ));
            }
            i = i + 1;
        }
        assert(ov_.take(n as int) =~= ov_);
        let ghost f = fresh_answers(v, now);
        self.entries = kept;
        assert(self@ == f);
        if self.entries.len() >= MAX_ENTRIES && self.entries.len() > 0 {
            let mut best: usize = 0;
            let mut j: usize = 1;
            proof {
                lemma_oldest_from(f, 0, 1);
            }
            while j < self.entries.len()
                invariant
                    self@ == f,
                    f.len() > 0,
                    0 <= best < f.len(),
                    1 <= j <= f.len(),
                    oldest_from(f, 0, 1) == oldest_from(f, best as int, j as int),
                decreases self.entries.len() - j,
            {
                assert(f[j as int].1 == self.entries@[j as int].1 && f[best as int].1
                    == self.entries@[best as int].1);
                if self.entries[j].1 < self.entries[best].1 {
                    best = j;
                }
                j = j + 1;
            }
            self.entries.remove(best);
            assert(self@ =~= f.remove(best as int));
        }
        let ghost w = self@;
        assert(w == with_room(f));
        proof {
            lemma_answer_pos(w, key@, 0);
        }
        let ghost kv = key@;
        let ghost bw = body@;
        match self.position(key.as_str()) {
            Some(p) => {
                self.entries.set(p, (key, now, body));
                assert(self@ =~= w.update(p as int, (kv, now, bw)));
            },
            None => {
                self.entries.push((key, now, body));
                assert(self@ =~= w.push((kv, now, bw)));
            },
        }
    }
}

/// What is kept is found again: right after an answer is kept, asking for
/// it within its twenty seconds gives that answer back.
pub proof fn lemma_put_then_get(v: Seq<AnswerView>, key: Seq<char>, body: Seq<u8>, at: i64, now: i64)
    requires
        answers_wf(v),
        body.len() <= MAX_BODY,
        at <= now,
        fresh(at, now),
    ensures
        get_of(put_of(v, key, body, at), key, now).0 == Some(body),
{
    lemma_put_wf(v, key, body, at);
    let r = put_of(v, key, body, at);
    let w = with_room(fresh_answers(v, at));
    lemma_answer_pos(w, key, 0);
    lemma_answer_pos(r, key, 0);
    let p = match answer_pos(w, key, 0) {
        Some(p) => p,
        None => w.len() as int,
    };
    assert(0 <= p < r.len() && r[p] == (key, at, body));
    match answer_pos(r, key, 0) {
        Some(q) => {
            if q < p {
                assert(r[q].0 != r[p].0);
            } else if q > p {
                assert(r[p].0 != r[q].0);
            }
            assert(q == p);
        },
        None => {
            assert(r[p].0 != key);
        },
    }
}

/// The cache never holds more than `MAX_ENTRIES` answers, nor a key twice,
/// whatever is kept or asked.
pub proof fn lemma_cache_stays_bounded(v: Seq<AnswerView>, key: Seq<char>, body: Seq<u8>, now: i64)
    requires
        answers_wf(v),
    ensures
        answers_wf(put_of(v, key, body, now)),
        answers_wf(get_of(v, key, now).1),
        put_of(v, key, body, now).len() <= MAX_ENTRIES,
{
    lemma_put_wf(v, key, body, now);
    lemma_answer_pos(v, key, 0);
    match answer_pos(v, key, 0) {
        Some(i) => {
            let g = v.remove(i);
            assert forall|a: int, c: int| 0 <= a < c < g.len() implies #[trigger] g[a].0 != #[trigger] g[c].0 by {
                let x = if a < i { a } else { a + 1 };
                let y = if c < i { c } else { c + 1 };
                assert(g[a] == v[x] && g[c] == v[y]);
            }
        },
        None => {},
    }
}

// ---------------------------------------------------------------------------
// Answers of reverse DNS
// ---------------------------------------------------------------------------

/// A kept lookup: the address, when it was asked, and the name found —
/// or none, since a failure is worth remembering too.
pub type NameView = (IpAddress, i64, Option<Seq<char>>);

/// How many lookups may pile up before the old ones are swept out.
pub const MAX_NAMES: usize = 10_000;

pub open spec fn name_pos(v: Seq<NameView>, ip: IpAddress, i: int) -> Option<int>
    decreases v.len() - i,
{
    if i < 0 || i >= v.len() {
        None
    } else if v[i].0 == ip {
        Some(i)
    } else {
        name_pos(v, ip, i + 1)
    }
}

pub open spec fn names_wf(v: Seq<NameView>) -> bool {
    forall|i: int, j: int| 0 <= i < j < v.len() ==> #[trigger] v[i].0 != #[trigger] v[j].0
}

/// Looking up `ip` at `now`: the name (or the failure) where a lookup
/// younger than `ttl` is kept; an older one is dropped on the way.
pub open spec fn name_get_of(v: Seq<NameView>, ip: IpAddress, ttl: i64, now: i64) -> (Option<
    Option<Seq<char>>,
>, Seq<NameView>) {
    match name_pos(v, ip, 0) {
        Some(i) => if now - v[i].1 < ttl {
            (Some(v[i].2), v)
        } else {
            (None, v.remove(i))
        },
        None => (None, v),
    }
}

pub open spec fn young_names(v: Seq<NameView>, ttl: i64, now: i64) -> Seq<NameView>
    decreases v.len(),
{
    if v.len() == 0 {
        Seq::empty()
    } else {
        let rest = young_names(v.drop_last(), ttl, now);
        if now - v.last().1 < ttl {
            rest.push(v.last())
        } else {
            rest
        }
    }
}

/// Keeping a lookup at `now`: past `MAX_NAMES` lookups the old ones are
/// swept out first; the new one replaces the old one for its address or
/// comes last.
pub open spec fn name_put_of(v: Seq<NameView>, ip: IpAddress, value: Option<Seq<char>>, ttl: i64, now: i64) -> Seq<
    NameView,
> {
    let w = if v.len() > MAX_NAMES {
        young_names(v, ttl, now)
    } else {
        v
    };
    match name_pos(w, ip, 0) {
        Some(i) => w.update(i, (ip, now, value)),
        None => w.push((ip, now, value)),
    }
}

proof fn lemma_name_pos(v: Seq<NameView>, ip: IpAddress, i: int)
    requires
        0 <= i,
    ensures
        name_pos(v, ip, i) matches Some(j) ==> i <= j < v.len() && v[j].0 == ip,
        name_pos(v, ip, i) is None ==> forall|k: int| i <= k < v.len() ==> v[k].0 != ip,
    decreases v.len() - i,
{
    if i < v.len() && v[i].0 != ip {
        lemma_name_pos(v, ip, i + 1);
    }
}

proof fn lemma_young_names(v: Seq<NameView>, ttl: i64, now: i64)
    ensures
        forall|j: int|
            0 <= j < young_names(v, ttl, now).len() ==> exists|k: int|
                0 <= k < v.len() && #[trigger] young_names(v, ttl, now)[j] == v[k],
        names_wf(v) ==> names_wf(young_names(v, ttl, now)),
    decreases v.len(),
{
    if v.len() > 0 {
        let p = v.drop_last();
        lemma_young_names(p, ttl, now);
        let f = young_names(v, ttl, now);
        let fp = young_names(p, ttl, now);
        assert forall|j: int| 0 <= j < f.len() implies exists|k: int| 0 <= k < v.len() && #[trigger] f[j] == v[k] by {
            if j < fp.len() {
                let k = choose|k: int| 0 <= k < p.len() && #[trigger] fp[j] == p[k];
                assert(f[j] == v[k]);
            } else {
                assert(f[j] == v[v.len() - 1]);
            }
        }
        if names_wf(v) {
            assert(names_wf(p)) by {
                assert forall|i: int, j: int| 0 <= i < j < p.len() implies #[trigger] p[i].0 != #[trigger] p[j].0 by {
                    assert(p[i] == v[i] && p[j] == v[j]);
                }
            }
            assert forall|i: int, j: int| 0 <= i < j < f.len() implies #[trigger] f[i].0 != #[trigger] f[j].0 by {
                if j < fp.len() {
                    assert(f[i] == fp[i] && f[j] == fp[j]);
                } else {
                    let k = choose|k: int| 0 <= k < p.len() && #[trigger] fp[i] == p[k];
                    assert(f[i] == v[k]);
                    assert(f[j] == v[v.len() - 1]);
                }
            }
        }
    }
}

proof fn lemma_name_put_wf(v: Seq<NameView>, ip: IpAddress, value: Option<Seq<char>>, ttl: i64, now: i64)
    requires
        names_wf(v),
    ensures
        names_wf(name_put_of(v, ip, value, ttl, now)),
{
    lemma_young_names(v, ttl, now);
    let w = if v.len() > MAX_NAMES {
        young_names(v, ttl, now)
    } else {
        v
    };
    lemma_name_pos(w, ip, 0);
    let r = name_put_of(v, ip, value, ttl, now);
    assert forall|i: int, j: int| 0 <= i < j < r.len() implies #[trigger] r[i].0 != #[trigger] r[j].0 by {
        match name_pos(w, ip, 0) {
            Some(p) => {
                if i != p && j != p {
                    assert(r[i] == w[i] && r[j] == w[j]);
                } else if i == p {
                    assert(r[j] == w[j]);
                } else {
                    assert(r[i] == w[i]);
                }
            },
            None => {
                if j < w.len() {
                    assert(r[i] == w[i] && r[j] == w[j]);
                } else {
                    assert(r[i] == w[i]);
                }
            },
        }
    }
}

/// The names reverse DNS gave, hits and misses alike, for `ttl`
/// milliseconds.
pub struct RdnsCache {
    ttl: i64,
    entries: Vec<(IpAddress, i64, Option<String>)>,
}

impl View for RdnsCache {
    type V = Seq<NameView>;

    closed spec fn view(&self) -> Seq<NameView> {
        self.entries@.map_values(|e: (IpAddress, i64, Option<String>)| (e.0, e.1, ov(e.2)))
    }
}

impl RdnsCache {
    pub closed spec fn wf(&self) -> bool {
        names_wf(self@)
    }

    pub closed spec fn ttl(&self) -> i64 {
        self.ttl
    }

    /// An empty cache whose entries hold `ttl` milliseconds.
    pub fn new(ttl: i64) -> (r: RdnsCache)
        ensures
            r@ == Seq::<NameView>::empty(),
            r.ttl() == ttl,
            r.wf(),
    {
        let r = RdnsCache { ttl, entries: Vec::new() };
        assert(r@ =~= Seq::<NameView>::empty());
        r
    }

    fn position(&self, ip: IpAddress) -> (r: Option<usize>)
        ensures
            match r {
                Some(i) => name_pos(self@, ip, 0) == Some(i as int) && i < self@.len(),
                None => name_pos(self@, ip, 0) is None,
            },
    {
        let mut i: usize = 0;
        while i < self.entries.len()
            invariant
                0 <= i <= self.entries@.len(),
                self@.len() == self.entries@.len(),
                name_pos(self@, ip, 0) == name_pos(self@, ip, i as int),
            decreases self.entries.len() - i,
        {
            assert(self@[i as int].0 == self.entries@[i as int].0);
            if self.entries[i].0 == ip {
                return Some(i);
            }
            i = i + 1;
        }
        None
    }

    /// The kept answer for `ip` at `now`: `Some(None)` is a remembered miss.
    pub fn get(&mut self, ip: IpAddress, now: i64) -> (r: Option<Option<String>>)
        requires
            old(self).wf(),
        ensures
            final(self).wf(),
            final(self).ttl() == old(self).ttl(),
            (match r {
                Some(o) => Some(ov(o)),
                None => None,
            }, final(self)@) == name_get_of(old(self)@, ip, old(self).ttl(), now),
    {
        let ghost v = self@;
        match self.position(ip) {
            Some(i) => {
                let at = self.entries[i].1;
                if (now as i128) - (at as i128) < self.ttl as i128 {
                    let value = match &self.entries[i].2 {
                        Some(s) => Some(s.clone()),
                        None => None,
                    };
                    Some(value)
                } else {
                    self.entries.remove(i);
                    assert(self@ =~= v.remove(i as int));
                    assert forall|a: int, c: int| 0 <= a < c < self@.len() implies #[trigger] self@[a].0
                        != #[trigger] self@[c].0 by {
                        let x = if a < i { a } else { a + 1 };
                        let y = if c < i { c } else { c + 1 };
                        assert(self@[a] == v[x] && self@[c] == v[y]);
                    }
                    None
                }
            },
            None => None,
        }
    }

    /// Keeps the answer for `ip` at `now`.
    pub fn put(&mut self, ip: IpAddress, value: Option<String>, now: i64)
        requires
            old(self).wf(),
        ensures
            final(self).wf(),
            final(self).ttl() == old(self).ttl(),
            final(self)@ == name_put_of(old(self)@, ip, ov(value), old(self).ttl(), now),
    {
        let ghost v = self@;
        proof {
            lemma_name_put_wf(v, ip, ov(value), self.ttl, now);
        }
        if self.entries.len() > MAX_NAMES {
            let mut kept: Vec<(IpAddress, i64, Option<String>)> = Vec::new();
            let mut old_entries: Vec<(IpAddress, i64, Option<String>)> = Vec::new();
            std::mem::swap(&mut old_entries, &mut self.entries);
            let ghost ov_ = old_entries@.map_values(|e: (IpAddress, i64, Option<String>)| (e.0, e.1, ov(e.2)));
            assert(ov_ == v);
            let ttl = self.ttl;
            let n = old_entries.len();
            let mut i: usize = 0;
            while i < n
                invariant
                    0 <= i <= n,
                    n == old_entries@.len(),
                    ttl == self.ttl,
                    ov_ == old_entries@.map_values(|e: (IpAddress, i64, Option<String>)| (e.0, e.1, ov(e.2))),
                    kept@.map_values(|e: (IpAddress, i64, Option<String>)| (e.0, e.1, ov(e.2))) == young_names(
                        ov_.take(i as int),
                        ttl,
                        now,
                    ),
                decreases n - i,
            {
                assert(ov_.take(i + 1).drop_last() =~= ov_.take(i as int));
                let at = old_entries[i].1;
                if (now as i128) - (at as i128) < ttl as i128 {
                    let ghost before = kept@.map_values(|e: (IpAddress, i64, Option<String>)| (e.0, e.1, ov(e.2)));
                    let value_i = match &old_entries[i].2 {
                        Some(s) => Some(s.clone()),
                        None => None,
                    };
                    kept.push((old_entries[i].0, at, value_i));
                    assert(kept@.map_values(|e: (IpAddress, i64, Option<String>)| (e.0, e.1, ov(e.2))) =~= before.push(
                        ov_[i as int],
                    ));
                }
                i = i + 1;
            }
            assert(ov_.take(n as int) =~= ov_);
            self.entries = kept;
        }
        let ghost w = self@;
        proof {
            lemma_name_pos(w, ip, 0);
        }
        let ghost vv = ov(value);
        match self.position(ip) {
            Some(p) => {
                self.entries.set(p, (ip, now, value));
                assert(self@ =~= w.update(p as int, (ip, now, vv)));
            },
            None => {
                self.entries.push((ip, now, value));
                assert(self@ =~= w.push((ip, now, vv)));
            },
        }
    }
}

/// A lookup kept is found again, a miss as a miss: right after keeping,
/// asking for the address before `ttl` has passed gives what was kept.
pub proof fn lemma_name_put_then_get(
    v: Seq<NameView>,
    ip: IpAddress,
    value: Option<Seq<char>>,
    ttl: i64,
    at: i64,
    now: i64,
)
    requires
        names_wf(v),
        at <= now,
        now - at < ttl,
    ensures
        name_get_of(name_put_of(v, ip, value, ttl, at), ip, ttl, now).0 == Some(value),
{
    lemma_name_put_wf(v, ip, value, ttl, at);
    let r = name_put_of(v, ip, value, ttl, at);
    let w = if v.len() > MAX_NAMES {
        young_names(v, ttl, at)
    } else {
        v
    };
    lemma_name_pos(w, ip, 0);
    lemma_name_pos(r, ip, 0);
    let p = match name_pos(w, ip, 0) {
        Some(p) => p,
        None => w.len() as int,
    };
    assert(0 <= p < r.len() && r[p] == (ip, at, value));
    match name_pos(r, ip, 0) {
        Some(q) => {
            if q < p {
                assert(r[q].0 != r[p].0);
            } else if q > p {
                assert(r[p].0 != r[q].0);
            }
            assert(q == p);
        },
        None => {
            assert(r[p].0 != ip);
        },
    }
}

} // verus!
