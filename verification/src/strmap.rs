//! A string-to-string map that keeps its keys in insertion order.
//!
//! Stands in for the `HashMap<String, String>` values of the transport
//! configuration (environment, headers, input values). Keys are unique; an
//! insert of a present key replaces its value in place, a new key goes to the
//! end, so every walk over the map is deterministic.

use vstd::prelude::*;
use crate::text::{chars_eq, chars_of};

verus! {

/// The entries of a map, as `(key, value)` character sequences.
pub type Entries = Seq<(Seq<char>, Seq<char>)>;

/// No key occurs twice.
pub open spec fn unique_keys(s: Entries) -> bool {
    forall|i: int, j: int| 0 <= i < j < s.len() ==> #[trigger] s[i].0 != #[trigger] s[j].0
}

/// Position of `k` among the keys, if present.
pub open spec fn key_index(s: Entries, k: Seq<char>) -> Option<int> {
    if exists|i: int| 0 <= i < s.len() && s[i].0 == k {
        Some(choose|i: int| 0 <= i < s.len() && s[i].0 == k)
    } else {
        None
    }
}

/// The value stored under `k`.
pub open spec fn lookup(s: Entries, k: Seq<char>) -> Option<Seq<char>> {
    match key_index(s, k) {
        Some(i) => Some(s[i].1),
        None => None,
    }
}

/// `HashMap::insert`: replace the value of a present key, or append.
pub open spec fn insert_entry(s: Entries, k: Seq<char>, v: Seq<char>) -> Entries {
    match key_index(s, k) {
        Some(i) => s.update(i, (k, v)),
        None => s.push((k, v)),
    }
}

/// Insert every entry of `other`, in order (`HashMap::extend`).
pub open spec fn extend_entries(s: Entries, other: Entries) -> Entries
    decreases other.len(),
{
    if other.len() == 0 {
        s
    } else {
        insert_entry(extend_entries(s, other.drop_last()), other.last().0, other.last().1)
    }
}

pub proof fn lemma_insert_unique(s: Entries, k: Seq<char>, v: Seq<char>)
    requires
        unique_keys(s),
    ensures
        unique_keys(insert_entry(s, k, v)),
        lookup(insert_entry(s, k, v), k) == Some(v),
        forall|k2: Seq<char>| k2 != k ==> lookup(insert_entry(s, k, v), k2) == lookup(s, k2),
{
    let r = insert_entry(s, k, v);
    match key_index(s, k) {
        Some(i) => {
            assert forall|a: int, b: int| 0 <= a < b < r.len() implies #[trigger] r[a].0 != #[trigger] r[b].0 by {
                if a == i {
                    assert(s[b].0 != s[i].0);
                } else if b == i {
                    assert(s[a].0 != s[i].0);
                } else {
                    assert(s[a].0 != s[b].0);
                }
            }
            assert(r[i].0 == k);
            assert(key_index(r, k) == Some(i)) by {
                let c = choose|c: int| 0 <= c < r.len() && r[c].0 == k;
                if c != i {
                    if c < i {
                        assert(r[c].0 != r[i].0);
                    } else {
                        assert(r[i].0 != r[c].0);
                    }
                }
            }
            assert forall|k2: Seq<char>| k2 != k implies lookup(r, k2) == lookup(s, k2) by {
                if exists|c: int| 0 <= c < s.len() && s[c].0 == k2 {
                    let c = choose|c: int| 0 <= c < s.len() && s[c].0 == k2;
                    assert(r[c].0 == k2);
                    let c2 = choose|c2: int| 0 <= c2 < r.len() && r[c2].0 == k2;
                    if c2 != c {
                        if c2 < c {
                            assert(r[c2].0 != r[c].0);
                        } else {
                            assert(r[c].0 != r[c2].0);
                        }
                    }
                } else {
                    if exists|c2: int| 0 <= c2 < r.len() && r[c2].0 == k2 {
                        let c2 = choose|c2: int| 0 <= c2 < r.len() && r[c2].0 == k2;
                        assert(s[c2].0 == k2);
                    }
                }
            }
        },
        None => {
            assert forall|a: int, b: int| 0 <= a < b < r.len() implies #[trigger] r[a].0 != #[trigger] r[b].0 by {
                if b == s.len() {
                    assert(r[a].0 == s[a].0);
                } else {
                    assert(s[a].0 != s[b].0);
                }
            }
            assert(key_index(r, k) == Some(s.len() as int)) by {
                assert(r[s.len() as int].0 == k);
                let c = choose|c: int| 0 <= c < r.len() && r[c].0 == k;
                if c < s.len() {
                    assert(s[c].0 == k);
                }
            }
            assert forall|k2: Seq<char>| k2 != k implies lookup(r, k2) == lookup(s, k2) by {
                if exists|c: int| 0 <= c < s.len() && s[c].0 == k2 {
                    let c = choose|c: int| 0 <= c < s.len() && s[c].0 == k2;
                    assert(r[c].0 == k2);
                    let c2 = choose|c2: int| 0 <= c2 < r.len() && r[c2].0 == k2;
                    if c2 != c {
                        if c2 < c {
                            assert(r[c2].0 != r[c].0);
                        } else {
                            assert(r[c].0 != r[c2].0);
                        }
                    }
                } else {
                    if exists|c2: int| 0 <= c2 < r.len() && r[c2].0 == k2 {
                        let c2 = choose|c2: int| 0 <= c2 < r.len() && r[c2].0 == k2;
                        assert(c2 < s.len());
                        assert(s[c2].0 == k2);
                    }
                }
            }
        },
    }
}

pub proof fn lemma_extend_unique(s: Entries, other: Entries)
    requires
        unique_keys(s),
    ensures
        unique_keys(extend_entries(s, other)),
    decreases other.len(),
{
    if other.len() > 0 {
        lemma_extend_unique(s, other.drop_last());
        lemma_insert_unique(extend_entries(s, other.drop_last()), other.last().0, other.last().1);
    }
}

/// Ordered map from `String` keys to `String` values.
#[derive(Debug)]
pub struct StrMap {
    entries: Vec<(String, String)>,
}

impl View for StrMap {
    type V = Entries;

    closed spec fn view(&self) -> Entries {
        self.entries.deep_view()
    }
}

impl Clone for StrMap {
    fn clone(&self) -> (m: Self)
        ensures
            m@ == self@,
    {
        proof {
            use_type_invariant(self);
        }
        let mut entries: Vec<(String, String)> = Vec::new();
        let mut i: usize = 0;
        while i < self.entries.len()
            invariant
                i <= self@.len(),
                self@ == self.entries.deep_view(),
                entries.deep_view() =~= self@.take(i as int),
            decreases self.entries.len() - i,
        {
            let k = self.entries[i].0.clone();
            let v = self.entries[i].1.clone();
            assert(self@[i as int] == (k@, v@));
            let ghost before = entries.deep_view();
            entries.push((k, v));
            assert(entries.deep_view() =~= before.push((k@, v@)));
            i = i + 1;
            assert(entries.deep_view() =~= self@.take(i as int));
        }
        assert(self@.take(self@.len() as int) =~= self@);
        StrMap { entries }
    }
}

impl StrMap {
    #[verifier::type_invariant]
    spec fn inv(self) -> bool {
        unique_keys(self.entries.deep_view())
    }

    /// An empty map.
    pub fn new() -> (m: Self)
        ensures
            m@ == Seq::<(Seq<char>, Seq<char>)>::empty(),
    {
        let m = StrMap { entries: Vec::new() };
        assert(m@ =~= Seq::<(Seq<char>, Seq<char>)>::empty());
        m
    }

    /// Number of entries.
    pub fn len(&self) -> (n: usize)
        ensures
            n == self@.len(),
    {
        self.entries.len()
    }

    /// Whether the map has no entries.
    pub fn is_empty(&self) -> (b: bool)
        ensures
            b == (self@.len() == 0),
    {
        self.entries.len() == 0
    }

    /// Brings the map's invariant, that no key occurs twice, into a proof.
    pub fn unique_keys_hold(&self)
        ensures
            unique_keys(self@),
    {
        proof {
            use_type_invariant(self);
        }
    }

    /// The `i`-th entry in insertion order.
    pub fn entry(&self, i: usize) -> (e: (&String, &String))
        requires
            i < self@.len(),
        ensures
            e.0@ == self@[i as int].0,
            e.1@ == self@[i as int].1,
    {
        let p = &self.entries[i];
        (&p.0, &p.1)
    }

    /// Position of `key` among the entries.
    fn position(&self, key: &str) -> (r: Option<usize>)
        ensures
            r matches Some(i) ==> i < self@.len() && key_index(self@, key@) == Some(i as int),
            r is None ==> key_index(self@, key@) is None,
    {
        proof {
            use_type_invariant(self);
        }
        let k = chars_of(key);
        let mut i: usize = 0;
        while i < self.entries.len()
            invariant
                i <= self@.len(),
                k@ == key@,
                self@ == self.entries.deep_view(),
                unique_keys(self@),
                forall|j: int| 0 <= j < i ==> self@[j].0 != key@,
            decreases self.entries.len() - i,
        {
            let here = chars_of(self.entries[i].0.as_str());
            assert(self@[i as int].0 == self.entries@[i as int].0@);
            if chars_eq(&here, &k) {
                proof {
                    let c = choose|c: int| 0 <= c < self@.len() && self@[c].0 == key@;
                    if c != i {
                        if c < i {
                        } else {
                            assert(self@[i as int].0 != self@[c].0);
                        }
                    }
                }
                return Some(i);
            }
            i = i + 1;
        }
        None
    }

    /// The value stored under `key`.
    pub fn get(&self, key: &str) -> (r: Option<&String>)
        ensures
            r is Some ==> lookup(self@, key@) == Some(r->0@),
            r is None ==> lookup(self@, key@) is None,
    {
        match self.position(key) {
            Some(i) => {
                assert(self@[i as int].1 == self.entries@[i as int].1@);
                Some(&self.entries[i].1)
            },
            None => None,
        }
    }

    /// Whether `key` is present.
    pub fn contains_key(&self, key: &str) -> (b: bool)
        ensures
            b == (lookup(self@, key@) is Some),
    {
        self.position(key).is_some()
    }

    /// Set `key` to `value` (`HashMap::insert`).
    pub fn insert(&mut self, key: String, value: String)
        ensures
            final(self)@ == insert_entry(old(self)@, key@, value@),
    {
        proof {
            use_type_invariant(&*self);
            lemma_insert_unique(self@, key@, value@);
        }
        let pos = self.position(key.as_str());
        let ghost kv = (key@, value@);
        let mut entries: Vec<(String, String)> = Vec::new();
        assert(unique_keys(entries.deep_view()));
        std::mem::swap(&mut entries, &mut self.entries);
        match pos {
            Some(i) => {
                entries.set(i, (key, value));
                assert(entries.deep_view() =~= old(self)@.update(i as int, kv));
            },
            None => {
                entries.push((key, value));
                assert(entries.deep_view() =~= old(self)@.push(kv));
            },
        }
        self.entries = entries;
    }

    /// Insert every entry of `other`, in order (`HashMap::extend`).
    pub fn extend(&mut self, other: &StrMap)
        ensures
            final(self)@ == extend_entries(old(self)@, other@),
    {
        let mut i: usize = 0;
        while i < other.len()
            invariant
                i <= other@.len(),
                self@ == extend_entries(old(self)@, other@.take(i as int)),
            decreases other@.len() - i,
        {
            let (k, v) = other.entry(i);
            let ghost before = self@;
            self.insert(k.clone(), v.clone());
            assert(other@.take(i + 1).drop_last() =~= other@.take(i as int));
            i = i + 1;
        }
        assert(other@.take(other@.len() as int) =~= other@);
    }

    /// A map holding `pairs`, inserted in order (later duplicates win).
    pub fn from_pairs(pairs: Vec<(String, String)>) -> (m: Self)
        ensures
            m@ == extend_entries(Seq::empty(), pairs.deep_view()),
    {
        let mut m = StrMap::new();
        let mut i: usize = 0;
        let ghost pv = pairs.deep_view();
        while i < pairs.len()
            invariant
                i <= pairs@.len(),
                pv == pairs.deep_view(),
                m@ == extend_entries(Seq::empty(), pv.take(i as int)),
            decreases pairs.len() - i,
        {
            let (k, v) = &pairs[i];
            assert(pv[i as int] == (k@, v@));
            m.insert(k.clone(), v.clone());
            assert(pv.take(i + 1).drop_last() =~= pv.take(i as int));
            i = i + 1;
        }
        assert(pv.take(pv.len() as int) =~= pv);
        m
    }
}

} // verus!
