//! Embedding warm-up for one server's tool catalog: which texts need an
//! embedding. Each tool's content hash and embedding text are computed by
//! the embedding service and handed in; what is already in memory or in
//! storage is handed in as lists of hashes.

use vstd::prelude::*;
use crate::package::strings_view;
use crate::text::{chars_eq, chars_of};

verus! {

/// What the warmer reads of a Space feature row.
#[derive(Debug, Clone)]
pub struct WarmFeature {
    pub server_id: String,
    /// The feature is a tool (not a prompt or resource).
    pub is_tool: bool,
    /// Hash of the tool's name and description.
    pub content_hash: String,
    /// The text that is embedded for the tool.
    pub haystack: String,
}

/// The hashes of `entries`.
pub open spec fn hashes_of(entries: Seq<(Seq<char>, Seq<char>)>) -> Seq<Seq<char>> {
    entries.map_values(|p: (Seq<char>, Seq<char>)| p.0)
}

/// The texts to embed for `server_id`'s tools: one per content hash, the
/// text of the first tool with that hash, in order of first appearance.
pub open spec fn warm_entries(features: Seq<WarmFeature>, server_id: Seq<char>) -> Seq<(Seq<char>, Seq<char>)>
    decreases features.len(),
{
    if features.len() == 0 {
        Seq::empty()
    } else {
        let rest = warm_entries(features.drop_last(), server_id);
        let f = features.last();
        if f.is_tool && f.server_id@ == server_id && !hashes_of(rest).contains(f.content_hash@) {
            rest.push((f.content_hash@, f.haystack@))
        } else {
            rest
        }
    }
}

/// The view of hash/text pairs.
pub open spec fn pairs_view(v: Seq<(String, String)>) -> Seq<(Seq<char>, Seq<char>)> {
    v.map_values(|p: (String, String)| (p.0@, p.1@))
}

fn has_hash(entries: &Vec<(String, String)>, hash: &str) -> (b: bool)
    ensures
        b == hashes_of(pairs_view(entries@)).contains(hash@),
{
    let h = chars_of(hash);
    let ghost hs = hashes_of(pairs_view(entries@));
    let mut i: usize = 0;
    while i < entries.len()
        invariant
            i <= entries@.len(),
            h@ == hash@,
            hs == hashes_of(pairs_view(entries@)),
            forall|k: int| 0 <= k < i ==> hs[k] != hash@,
        decreases entries.len() - i,
    {
        assert(hs[i as int] == entries@[i as int].0@);
        if chars_eq(&chars_of(entries[i].0.as_str()), &h) {
            return true;
        }
        i = i + 1;
    }
    false
}

/// The hash and text of each distinct tool content on `server_id` (see
/// [`warm_entries`]); empty when the server has no tools.
pub fn warm_candidates(features: &[WarmFeature], server_id: &str) -> (r: Vec<(String, String)>)
    ensures
        pairs_view(r@) == warm_entries(features@, server_id@),
{
    let sid = chars_of(server_id);
    let mut out: Vec<(String, String)> = Vec::new();
    let mut i: usize = 0;
    while i < features.len()
        invariant
            i <= features@.len(),
            sid@ == server_id@,
            pairs_view(out@) == warm_entries(features@.take(i as int), server_id@),
        decreases features.len() - i,
    {
        assert(features@.take(i + 1).drop_last() =~= features@.take(i as int));
        assert(features@.take(i + 1).last() == features@[i as int]);
        let f = &features[i];
        if f.is_tool && chars_eq(&chars_of(f.server_id.as_str()), &sid) && !has_hash(&out, f.content_hash.as_str()) {
            let ghost before = out@;
            out.push((f.content_hash.clone(), f.haystack.clone()));
            assert(pairs_view(out@) =~= pairs_view(before).push((f.content_hash@, f.haystack@)));
        }
        i = i + 1;
    }
    assert(features@.take(features@.len() as int) =~= features@);
    out
}

/// The entries of `hashes` that are not in `present`, in order.
pub open spec fn absent_from(hashes: Seq<Seq<char>>, present: Seq<Seq<char>>) -> Seq<Seq<char>>
    decreases hashes.len(),
{
    if hashes.len() == 0 {
        Seq::empty()
    } else {
        let rest = absent_from(hashes.drop_last(), present);
        if present.contains(hashes.last()) {
            rest
        } else {
            rest.push(hashes.last())
        }
    }
}

fn contains_string(v: &Vec<String>, s: &str) -> (b: bool)
    ensures
        b == strings_view(v@).contains(s@),
{
    let t = chars_of(s);
    let ghost vs = strings_view(v@);
    let mut i: usize = 0;
    while i < v.len()
        invariant
            i <= v@.len(),
            t@ == s@,
            vs == strings_view(v@),
            forall|k: int| 0 <= k < i ==> vs[k] != s@,
        decreases v.len() - i,
    {
        assert(vs[i as int] == v@[i as int]@);
        if chars_eq(&chars_of(v[i].as_str()), &t) {
            return true;
        }
        i = i + 1;
    }
    false
}

/// The hashes still missing after a lookup: those of `hashes` not found in
/// `present` (the in-memory store, then the stored embeddings of the
/// current model).
pub fn hashes_missing(hashes: &Vec<String>, present: &Vec<String>) -> (r: Vec<String>)
    ensures
        strings_view(r@) == absent_from(strings_view(hashes@), strings_view(present@)),
{
    let ghost hs = strings_view(hashes@);
    let mut out: Vec<String> = Vec::new();
    let mut i: usize = 0;
    while i < hashes.len()
        invariant
            i <= hashes@.len(),
            hs == strings_view(hashes@),
            strings_view(out@) == absent_from(hs.take(i as int), strings_view(present@)),
        decreases hashes.len() - i,
    {
        assert(hs.take(i + 1).drop_last() =~= hs.take(i as int));
        assert(hs.take(i + 1).last() == hashes@[i as int]@);
        if !contains_string(present, hashes[i].as_str()) {
            let ghost before = out@;
            out.push(hashes[i].clone());
            assert(strings_view(out@) =~= strings_view(before).push(hashes@[i as int]@));
        }
        i = i + 1;
    }
    assert(hs.take(hs.len() as int) =~= hs);
    out
}

/// Nothing is embedded twice: the warm-up texts carry each content hash
/// once, and what is still missing after a lookup is never among what was
/// found.
pub proof fn law_warm_hashes_distinct(features: Seq<WarmFeature>, server_id: Seq<char>, hashes: Seq<Seq<char>>, present: Seq<Seq<char>>)
    ensures
        forall|i: int, j: int| 0 <= i < j < warm_entries(features, server_id).len()
            ==> #[trigger] warm_entries(features, server_id)[i].0 != #[trigger] warm_entries(features, server_id)[j].0,
        forall|h: Seq<char>| #[trigger] absent_from(hashes, present).contains(h) ==> hashes.contains(h) && !present.contains(h),
{
    lemma_warm_entries_distinct(features, server_id);
    lemma_absent_from(hashes, present);
}

proof fn lemma_warm_entries_distinct(features: Seq<WarmFeature>, server_id: Seq<char>)
    ensures
        forall|i: int, j: int| 0 <= i < j < warm_entries(features, server_id).len()
            ==> #[trigger] warm_entries(features, server_id)[i].0 != #[trigger] warm_entries(features, server_id)[j].0,
    decreases features.len(),
{
    if features.len() > 0 {
        lemma_warm_entries_distinct(features.drop_last(), server_id);
        let rest = warm_entries(features.drop_last(), server_id);
        let e = warm_entries(features, server_id);
        let f = features.last();
        if f.is_tool && f.server_id@ == server_id && !hashes_of(rest).contains(f.content_hash@) {
            assert forall|i: int, j: int| 0 <= i < j < e.len() implies #[trigger] e[i].0 != #[trigger] e[j].0 by {
                if j == rest.len() {
                    assert(hashes_of(rest)[i] == rest[i].0);
                } else {
                    assert(e[i] == rest[i] && e[j] == rest[j]);
                }
            }
        }
    }
}

proof fn lemma_absent_from(hashes: Seq<Seq<char>>, present: Seq<Seq<char>>)
    ensures
        forall|h: Seq<char>| #[trigger] absent_from(hashes, present).contains(h) ==> hashes.contains(h) && !present.contains(h),
    decreases hashes.len(),
{
    if hashes.len() > 0 {
        let d = hashes.drop_last();
        lemma_absent_from(d, present);
        let a = absent_from(hashes, present);
        let rest = absent_from(d, present);
        assert forall|h: Seq<char>| #[trigger] a.contains(h) implies hashes.contains(h) && !present.contains(h) by {
            let k = choose|k: int| 0 <= k < a.len() && a[k] == h;
            if k < rest.len() {
                assert(rest[k] == h);
                assert(rest.contains(h));
                let m = choose|m: int| 0 <= m < d.len() && d[m] == h;
                assert(hashes[m] == h);
            } else {
                assert(hashes[hashes.len() - 1] == h);
            }
        }
    }
}

} // verus!
