//! The ids of the lookup tables (interfaces, protocols, device names,
//! rules), cached by lower-cased key so that each name costs the database
//! one round trip at most.
use vstd::prelude::*;
use crate::text::{chars_of, lowercase, same, to_lowercase};

verus! {

/// A cache key: the lower-cased name, and for a rule the lower-cased
/// description (empty for a plain name).
pub type KeyView = (Seq<char>, Seq<char>);

/// The key of a plain name.
pub open spec fn name_key(name: Seq<char>) -> KeyView {
    (lowercase(name), Seq::empty())
}

/// The key of a rule: a missing name or description counts as empty.
pub open spec fn rule_key_of(name: Option<Seq<char>>, descr: Option<Seq<char>>) -> KeyView {
    (
        lowercase(match name {
            Some(n) => n,
            None => Seq::empty(),
        }),
        lowercase(match descr {
            Some(d) => d,
            None => Seq::empty(),
        }),
    )
}

/// The id stored for a key, searching from entry `i` on.
pub open spec fn id_from(s: Seq<(KeyView, i16)>, key: KeyView, i: int) -> Option<i16>
    decreases s.len() - i,
{
    if i < 0 || i >= s.len() {
        None
    } else if s[i].0 == key {
        Some(s[i].1)
    } else {
        id_from(s, key, i + 1)
    }
}

/// The id stored for a key.
pub open spec fn id_for(s: Seq<(KeyView, i16)>, key: KeyView) -> Option<i16> {
    id_from(s, key, 0)
}

/// Ids by key.
#[derive(Debug, Clone)]
pub struct IdCache {
    entries: Vec<(String, String, i16)>,
}

pub open spec fn entry_view(e: (String, String, i16)) -> (KeyView, i16) {
    ((e.0@, e.1@), e.2)
}

impl View for IdCache {
    type V = Seq<(KeyView, i16)>;

    closed spec fn view(&self) -> Seq<(KeyView, i16)> {
        self.entries@.map_values(|e: (String, String, i16)| entry_view(e))
    }
}

/// The key of a plain name.
pub fn simple_key(name: &str) -> (r: (String, String))
    ensures
        (r.0@, r.1@) == name_key(name@),
{
    let e = String::new();
    assert(e@ =~= Seq::<char>::empty());
    (to_lowercase(name), e)
}

/// The key of a rule.
pub fn rule_key(name: Option<&str>, descr: Option<&str>) -> (r: (String, String))
    ensures
        (r.0@, r.1@) == rule_key_of(
            match name {
                Some(n) => Some(n@),
                None => None,
            },
            match descr {
                Some(d) => Some(d@),
                None => None,
            },
        ),
{
    let empty = "";
    proof {
        reveal_strlit("");
    }
    let n = match name {
        Some(n) => n,
        None => empty,
    };
    let d = match descr {
        Some(d) => d,
        None => empty,
    };
    assert(empty@ =~= Seq::<char>::empty());
    (to_lowercase(n), to_lowercase(d))
}

fn same_text(a: &String, b: &String) -> (r: bool)
    ensures
        r == (a@ == b@),
{
    let ac = chars_of(a.as_str());
    let bc = chars_of(b.as_str());
    same(ac.as_slice(), bc.as_slice())
}

proof fn lemma_id_from_skip(s: Seq<(KeyView, i16)>, key: KeyView, i: int, j: int)
    requires
        0 <= i <= j <= s.len(),
        forall|k: int| i <= k < j ==> s[k].0 != key,
    ensures
        id_from(s, key, i) == id_from(s, key, j),
    decreases j - i,
{
    if i < j {
        lemma_id_from_skip(s, key, i + 1, j);
    }
}

proof fn lemma_id_from_update(
    s: Seq<(KeyView, i16)>,
    at: int,
    key: KeyView,
    id: i16,
    k: KeyView,
    i: int,
)
    requires
        0 <= at < s.len(),
        s[at].0 == key,
        0 <= i <= at,
        forall|m: int| i <= m < at ==> s[m].0 != key,
    ensures
        id_from(s.update(at, (key, id)), k, i) == if k == key {
            Some(id)
        } else {
            id_from(s, k, i)
        },
    decreases s.len() - i,
{
    let u = s.update(at, (key, id));
    if i < at {
        lemma_id_from_update(s, at, key, id, k, i + 1);
    } else {
        if k != key {
            assert(id_from(u, k, i + 1) == id_from(s, k, i + 1)) by {
                lemma_id_from_same_tail(s, u, k, i + 1);
            }
        }
    }
}

proof fn lemma_id_from_same_tail(s: Seq<(KeyView, i16)>, u: Seq<(KeyView, i16)>, k: KeyView, i: int)
    requires
        s.len() == u.len(),
        0 <= i,
        forall|m: int| i <= m < s.len() ==> s[m] == u[m],
    ensures
        id_from(s, k, i) == id_from(u, k, i),
    decreases s.len() - i,
{
    if i < s.len() {
        lemma_id_from_same_tail(s, u, k, i + 1);
    }
}

proof fn lemma_id_from_push(s: Seq<(KeyView, i16)>, key: KeyView, id: i16, k: KeyView, i: int)
    requires
        0 <= i <= s.len(),
        id_from(s, key, i) is None,
    ensures
        id_from(s.push((key, id)), k, i) == if k == key {
            if id_from(s, k, i) is Some {
                id_from(s, k, i)
            } else {
                Some(id)
            }
        } else {
            id_from(s, k, i)
        },
    decreases s.len() - i,
{
    let p = s.push((key, id));
    if i < s.len() {
        assert(p[i] == s[i]);
        lemma_id_from_push(s, key, id, k, i + 1);
    } else {
        assert(p[i] == (key, id));
        assert(id_from(p, k, i + 1) is None);
        assert(id_from(s, k, i) is None);
    }
}

impl IdCache {
    /// An empty cache.
    pub fn new() -> (r: IdCache)
        ensures
            r@ == Seq::<(KeyView, i16)>::empty(),
    {
        let r = IdCache { entries: Vec::new() };
        assert(r@ =~= Seq::<(KeyView, i16)>::empty());
        r
    }

    /// The id cached for a key.
    pub fn get(&self, key: &(String, String)) -> (r: Option<i16>)
        ensures
            r == id_for(self@, (key.0@, key.1@)),
    {
        let ghost k = (key.0@, key.1@);
        let mut i: usize = 0;
        while i < self.entries.len()
            invariant
                0 <= i <= self.entries@.len(),
                self@.len() == self.entries@.len(),
                forall|m: int| 0 <= m < self.entries@.len() ==> #[trigger] self@[m] == entry_view(self.entries@[m]),
                k == (key.0@, key.1@),
                id_for(self@, k) == id_from(self@, k, i as int),
            decreases self.entries.len() - i,
        {
            let e = &self.entries[i];
            assert(self@[i as int] == entry_view(self.entries@[i as int]));
            let a = same_text(&e.0, &key.0);
            let b = same_text(&e.1, &key.1);
            assert(self@[i as int].0 == (e.0@, e.1@));
            if a && b {
                return Some(e.2);
            }
            assert(self@[i as int].0 != k);
            i = i + 1;
        }
        None
    }

    fn position(&self, key: &(String, String)) -> (r: Option<usize>)
        ensures
            match r {
                Some(i) => i < self@.len() && self@[i as int].0 == (key.0@, key.1@) && forall|m: int|
                    0 <= m < i ==> self@[m].0 != (key.0@, key.1@),
                None => forall|m: int| 0 <= m < self@.len() ==> self@[m].0 != (key.0@, key.1@),
            },
    {
        let ghost kv = (key.0@, key.1@);
        let mut i: usize = 0;
        while i < self.entries.len()
            invariant
                0 <= i <= self.entries@.len(),
                kv == (key.0@, key.1@),
                self@.len() == self.entries@.len(),
                forall|m: int| 0 <= m < self.entries@.len() ==> #[trigger] self@[m] == entry_view(self.entries@[m]),
                forall|m: int| 0 <= m < i ==> self@[m].0 != kv,
            decreases self.entries.len() - i,
        {
            assert(self@[i as int] == entry_view(self.entries@[i as int]));
            let e = &self.entries[i];
            let a = same_text(&e.0, &key.0);
            let b = same_text(&e.1, &key.1);
            if a && b {
                return Some(i);
            }
            i = i + 1;
        }
        None
    }

    /// Caches the id of a key; afterwards the key gives this id, and every
    /// other key what it gave before.
    pub fn insert(&mut self, key: (String, String), id: i16)
        ensures
            forall|k: KeyView| #[trigger] id_for(final(self)@, k) == if k == (key.0@, key.1@) {
                Some(id)
            } else {
                id_for(old(self)@, k)
            },
    {
        let ghost kv = (key.0@, key.1@);
        let ghost s = self@;
        match self.position(&key) {
            Some(i) => {
                let ghost at = i as int;
                self.entries.set(i, (key.0, key.1, id));
                proof {
                    assert(self@ =~= s.update(at, (kv, id)));
                    assert forall|k: KeyView| #[trigger] id_for(self@, k) == if k == kv {
                        Some(id)
                    } else {
                        id_for(s, k)
                    } by {
                        lemma_id_from_update(s, at, kv, id, k, 0);
                    }
                }
            },
            None => {
                proof {
                    lemma_id_from_skip(s, kv, 0, s.len() as int);
                    assert(id_from(s, kv, s.len() as int) is None);
                }
                self.entries.push((key.0, key.1, id));
                proof {
                    assert(self@ =~= s.push((kv, id)));
                    assert forall|k: KeyView| #[trigger] id_for(self@, k) == if k == kv {
                        Some(id)
                    } else {
                        id_for(s, k)
                    } by {
                        lemma_id_from_push(s, kv, id, k, 0);
                    }
                }
            },
        }
    }
}

/// Ids are stable and ignore case: once a name's id is cached, the same
/// name in any case gives that id.
pub proof fn lemma_cached_name_is_found(s: Seq<(KeyView, i16)>, a: Seq<char>, b: Seq<char>)
    requires
        lowercase(a) == lowercase(b),
    ensures
        id_for(s, name_key(a)) == id_for(s, name_key(b)),
{
}

} // verus!
