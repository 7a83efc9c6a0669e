//! Session-scoped registry of MCP workspace roots.
//!
//! For each `mcp-session-id` the registry keeps the roots the client reported
//! (normalized), the root pinned by the `X-Mcpmux-Workspace` header (which
//! shadows the reported roots), the folder set of the calling window, the
//! last FeatureSet resolution, and the probe bookkeeping. Headers that arrive
//! before a session id exists are held per client id.
//!
//! Time is an integer clock reading supplied by the caller.

use vstd::prelude::*;
use dashmap::DashMap;
use crate::ordering::{lemma_sorted_set_of_exists, sorted_set_of, sorted_unique, strictly_sorted};
use crate::package::{str_is, strings_view};
use crate::session_store::{
    blank_pending, blank_record, client_get, client_put, client_table, new_client_table,
    new_session_table, session_drop, session_entries, session_get, session_put, session_table,
    PendingRecord, SessionRecord,
};
use crate::text::{chars_of, contains_chars, contains_seq, string_of};
use crate::workspace::{normalize_workspace_root, normalized_root, strs_view};

verus! {

/// The values of `f` over the records for which it is defined.
pub open spec fn field_map<R, T>(recs: Map<Seq<char>, R>, f: spec_fn(R) -> Option<T>) -> Map<Seq<char>, T> {
    Map::new(|k: Seq<char>| recs.contains_key(k) && f(recs[k]) is Some, |k: Seq<char>| f(recs[k])->0)
}

proof fn lemma_field_map_insert<R, T>(recs: Map<Seq<char>, R>, f: spec_fn(R) -> Option<T>, k: Seq<char>, r: R)
    ensures
        field_map(recs.insert(k, r), f) == (if f(r) is Some {
            field_map(recs, f).insert(k, f(r)->0)
        } else {
            field_map(recs, f).remove(k)
        }),
{
    if f(r) is Some {
        assert(field_map(recs.insert(k, r), f) =~= field_map(recs, f).insert(k, f(r)->0));
    } else {
        assert(field_map(recs.insert(k, r), f) =~= field_map(recs, f).remove(k));
    }
}

proof fn lemma_field_map_update<R, T>(recs: Map<Seq<char>, R>, f: spec_fn(R) -> Option<T>, k: Seq<char>, r: R, blank: R)
    requires
        f(blank) is None,
    ensures
        field_map(recs.insert(k, r), f) == (if f(r) == f(if recs.contains_key(k) { recs[k] } else { blank }) {
            field_map(recs, f)
        } else if f(r) is Some {
            field_map(recs, f).insert(k, f(r)->0)
        } else {
            field_map(recs, f).remove(k)
        }),
{
    if f(r) == f(if recs.contains_key(k) { recs[k] } else { blank }) {
        assert(field_map(recs.insert(k, r), f) =~= field_map(recs, f));
    } else {
        lemma_field_map_insert(recs, f, k, r);
    }
}

proof fn lemma_field_map_remove<R, T>(recs: Map<Seq<char>, R>, f: spec_fn(R) -> Option<T>, k: Seq<char>)
    ensures
        field_map(recs.remove(k), f) == field_map(recs, f).remove(k),
{
    assert(field_map(recs.remove(k), f) =~= field_map(recs, f).remove(k));
}

/// How each per-session map changes when the record of `k` becomes `r`.
proof fn lemma_record_update(recs: Map<Seq<char>, SessionRecord>, k: Seq<char>, r: SessionRecord)
    ensures
        ({
            let prev = if recs.contains_key(k) { recs[k] } else { blank_record() };
            &&& field_map(recs.insert(k, r), sel_roots()) == (if sel_roots()(r) == sel_roots()(prev) {
                field_map(recs, sel_roots())
            } else if sel_roots()(r) is Some {
                field_map(recs, sel_roots()).insert(k, sel_roots()(r)->0)
            } else {
                field_map(recs, sel_roots()).remove(k)
            })
            &&& field_map(recs.insert(k, r), sel_resolution()) == (if sel_resolution()(r) == sel_resolution()(prev) {
                field_map(recs, sel_resolution())
            } else if sel_resolution()(r) is Some {
                field_map(recs, sel_resolution()).insert(k, sel_resolution()(r)->0)
            } else {
                field_map(recs, sel_resolution()).remove(k)
            })
            &&& field_map(recs.insert(k, r), sel_capable()) == (if sel_capable()(r) == sel_capable()(prev) {
                field_map(recs, sel_capable())
            } else if sel_capable()(r) is Some {
                field_map(recs, sel_capable()).insert(k, sel_capable()(r)->0)
            } else {
                field_map(recs, sel_capable()).remove(k)
            })
            &&& field_map(recs.insert(k, r), sel_probe()) == (if sel_probe()(r) == sel_probe()(prev) {
                field_map(recs, sel_probe())
            } else if sel_probe()(r) is Some {
                field_map(recs, sel_probe()).insert(k, sel_probe()(r)->0)
            } else {
                field_map(recs, sel_probe()).remove(k)
            })
            &&& field_map(recs.insert(k, r), sel_first_seen()) == (if sel_first_seen()(r) == sel_first_seen()(prev) {
                field_map(recs, sel_first_seen())
            } else if sel_first_seen()(r) is Some {
                field_map(recs, sel_first_seen()).insert(k, sel_first_seen()(r)->0)
            } else {
                field_map(recs, sel_first_seen()).remove(k)
            })
            &&& field_map(recs.insert(k, r), sel_pinned()) == (if sel_pinned()(r) == sel_pinned()(prev) {
                field_map(recs, sel_pinned())
            } else if sel_pinned()(r) is Some {
                field_map(recs, sel_pinned()).insert(k, sel_pinned()(r)->0)
            } else {
                field_map(recs, sel_pinned()).remove(k)
            })
            &&& field_map(recs.insert(k, r), sel_candidates()) == (if sel_candidates()(r) == sel_candidates()(prev) {
                field_map(recs, sel_candidates())
            } else if sel_candidates()(r) is Some {
                field_map(recs, sel_candidates()).insert(k, sel_candidates()(r)->0)
            } else {
                field_map(recs, sel_candidates()).remove(k)
            })
            &&& field_map(recs.insert(k, r), sel_search()) == (if sel_search()(r) == sel_search()(prev) {
                field_map(recs, sel_search())
            } else if sel_search()(r) is Some {
                field_map(recs, sel_search()).insert(k, sel_search()(r)->0)
            } else {
                field_map(recs, sel_search()).remove(k)
            })
        }),
{
    lemma_field_map_update(recs, sel_roots(), k, r, blank_record());
    lemma_field_map_update(recs, sel_resolution(), k, r, blank_record());
    lemma_field_map_update(recs, sel_capable(), k, r, blank_record());
    lemma_field_map_update(recs, sel_probe(), k, r, blank_record());
    lemma_field_map_update(recs, sel_first_seen(), k, r, blank_record());
    lemma_field_map_update(recs, sel_pinned(), k, r, blank_record());
    lemma_field_map_update(recs, sel_candidates(), k, r, blank_record());
    lemma_field_map_update(recs, sel_search(), k, r, blank_record());
}

/// How the held-header maps change when the record of `k` becomes `r`.
proof fn lemma_pending_update(recs: Map<Seq<char>, PendingRecord>, k: Seq<char>, r: PendingRecord)
    ensures
        ({
            let prev = if recs.contains_key(k) { recs[k] } else { blank_pending() };
            &&& field_map(recs.insert(k, r), sel_pending_workspace()) == (if sel_pending_workspace()(r) == sel_pending_workspace()(prev) {
                field_map(recs, sel_pending_workspace())
            } else if sel_pending_workspace()(r) is Some {
                field_map(recs, sel_pending_workspace()).insert(k, sel_pending_workspace()(r)->0)
            } else {
                field_map(recs, sel_pending_workspace()).remove(k)
            })
            &&& field_map(recs.insert(k, r), sel_pending_candidates()) == (if sel_pending_candidates()(r) == sel_pending_candidates()(prev) {
                field_map(recs, sel_pending_candidates())
            } else if sel_pending_candidates()(r) is Some {
                field_map(recs, sel_pending_candidates()).insert(k, sel_pending_candidates()(r)->0)
            } else {
                field_map(recs, sel_pending_candidates()).remove(k)
            })
        }),
{
    lemma_field_map_update(recs, sel_pending_workspace(), k, r, blank_pending());
    lemma_field_map_update(recs, sel_pending_candidates(), k, r, blank_pending());
}

/// Removing `k` removes it from every per-session map.
proof fn lemma_record_remove(recs: Map<Seq<char>, SessionRecord>, k: Seq<char>)
    ensures
        field_map(recs.remove(k), sel_roots()) == field_map(recs, sel_roots()).remove(k),
        field_map(recs.remove(k), sel_resolution()) == field_map(recs, sel_resolution()).remove(k),
        field_map(recs.remove(k), sel_capable()) == field_map(recs, sel_capable()).remove(k),
        field_map(recs.remove(k), sel_probe()) == field_map(recs, sel_probe()).remove(k),
        field_map(recs.remove(k), sel_first_seen()) == field_map(recs, sel_first_seen()).remove(k),
        field_map(recs.remove(k), sel_pinned()) == field_map(recs, sel_pinned()).remove(k),
        field_map(recs.remove(k), sel_candidates()) == field_map(recs, sel_candidates()).remove(k),
        field_map(recs.remove(k), sel_search()) == field_map(recs, sel_search()).remove(k),
{
    lemma_field_map_remove(recs, sel_roots(), k);
    lemma_field_map_remove(recs, sel_resolution(), k);
    lemma_field_map_remove(recs, sel_capable(), k);
    lemma_field_map_remove(recs, sel_probe(), k);
    lemma_field_map_remove(recs, sel_first_seen(), k);
    lemma_field_map_remove(recs, sel_pinned(), k);
    lemma_field_map_remove(recs, sel_candidates(), k);
    lemma_field_map_remove(recs, sel_search(), k);
}

proof fn lemma_push_contains<A>(s: Seq<A>, e: A)
    ensures
        forall|x: A| #[trigger] s.push(e).contains(x) <==> s.contains(x) || x == e,
{
    assert forall|x: A| #[trigger] s.push(e).contains(x) <==> s.contains(x) || x == e by {
        if s.push(e).contains(x) {
            let i = choose|i: int| 0 <= i < s.push(e).len() && s.push(e)[i] == x;
            if i < s.len() {
                assert(s[i] == x);
            }
        }
        if s.contains(x) {
            let i = choose|i: int| 0 <= i < s.len() && s[i] == x;
            assert(s.push(e)[i] == x);
        }
        if x == e {
            assert(s.push(e)[s.len() as int] == x);
        }
    }
}

/// The view of an optional string.
pub open spec fn opt_view(o: Option<String>) -> Option<Seq<char>> {
    match o {
        Some(s) => Some(s@),
        None => None,
    }
}

/// The view of an optional list of strings.
pub open spec fn opt_strings(o: Option<Vec<String>>) -> Option<Seq<Seq<char>>> {
    match o {
        Some(v) => Some(strings_view(v@)),
        None => None,
    }
}

pub open spec fn sel_roots() -> spec_fn(SessionRecord) -> Option<Seq<Seq<char>>> {
    |r: SessionRecord| opt_strings(r.roots)
}

pub open spec fn sel_resolution() -> spec_fn(SessionRecord) -> Option<Option<Seq<char>>> {
    |r: SessionRecord|
        match r.last_resolution {
            Some(o) => Some(opt_view(o)),
            None => None,
        }
}

pub open spec fn sel_capable() -> spec_fn(SessionRecord) -> Option<bool> {
    |r: SessionRecord| r.roots_capable
}

pub open spec fn sel_probe() -> spec_fn(SessionRecord) -> Option<u64> {
    |r: SessionRecord| r.last_probe
}

pub open spec fn sel_first_seen() -> spec_fn(SessionRecord) -> Option<u64> {
    |r: SessionRecord| r.first_seen
}

pub open spec fn sel_pinned() -> spec_fn(SessionRecord) -> Option<Seq<char>> {
    |r: SessionRecord| opt_view(r.pinned)
}

pub open spec fn sel_candidates() -> spec_fn(SessionRecord) -> Option<Seq<Seq<char>>> {
    |r: SessionRecord| opt_strings(r.candidates)
}

pub open spec fn sel_search() -> spec_fn(SessionRecord) -> Option<u64> {
    |r: SessionRecord| r.search_cache
}

pub open spec fn sel_pending_workspace() -> spec_fn(PendingRecord) -> Option<Seq<char>> {
    |r: PendingRecord| opt_view(r.workspace)
}

pub open spec fn sel_pending_candidates() -> spec_fn(PendingRecord) -> Option<Seq<Seq<char>>> {
    |r: PendingRecord| opt_strings(r.candidates)
}

/// The non-empty normalized forms of `raw`, in order.
pub open spec fn normalized_roots(raw: Seq<Seq<char>>) -> Seq<Seq<char>>
    decreases raw.len(),
{
    if raw.len() == 0 {
        Seq::empty()
    } else {
        let rest = normalized_roots(raw.drop_last());
        let n = normalized_root(raw.last());
        if n.len() == 0 {
            rest
        } else {
            rest.push(n)
        }
    }
}

/// The pieces of `s` between commas (`str::split(',')`).
pub open spec fn split_commas(s: Seq<char>) -> Seq<Seq<char>>
    decreases s.len(),
{
    if s.len() == 0 {
        seq![Seq::empty()]
    } else {
        let p = split_commas(s.drop_last());
        if s.last() == ',' {
            p.push(Seq::empty())
        } else {
            p.update(p.len() - 1, p.last().push(s.last()))
        }
    }
}

proof fn lemma_split_commas_nonempty(s: Seq<char>)
    ensures
        split_commas(s).len() >= 1,
    decreases s.len(),
{
    if s.len() > 0 {
        lemma_split_commas_nonempty(s.drop_last());
    }
}

/// The characters `${`, which mark a template no one expanded.
pub open spec fn template_marker() -> Seq<char> {
    seq!['$', '{']
}

/// The normalized, non-empty paths among `pieces` that carry no template.
pub open spec fn candidate_paths(pieces: Seq<Seq<char>>) -> Seq<Seq<char>>
    decreases pieces.len(),
{
    if pieces.len() == 0 {
        Seq::empty()
    } else {
        let rest = candidate_paths(pieces.drop_last());
        let p = pieces.last();
        if contains_seq(p, template_marker()) || normalized_root(p).len() == 0 {
            rest
        } else {
            rest.push(normalized_root(p))
        }
    }
}

/// What an `X-Mcpmux-Workspace-Set` header value parses to: its
/// comma-separated folders without templates, normalized, blanks dropped,
/// sorted and deduplicated.
pub open spec fn parsed_candidates(raw: Seq<char>) -> Seq<Seq<char>> {
    sorted_set_of(candidate_paths(split_commas(raw)))
}

/// Whether a header value still carries a `${...}` template.
pub fn is_unexpanded_variable(value: &str) -> (b: bool)
    ensures
        b == contains_seq(value@, template_marker()),
{
    let marker: Vec<char> = vec!['$', '{'];
    assert(marker@ =~= template_marker());
    contains_chars(&chars_of(value), &marker)
}

fn push_candidate(found: &mut Vec<String>, piece: &Vec<char>)
    ensures
        strings_view(final(found)@) == (if contains_seq(piece@, template_marker()) || normalized_root(piece@).len() == 0 {
            strings_view(old(found)@)
        } else {
            strings_view(old(found)@).push(normalized_root(piece@))
        }),
{
    let text = string_of(piece);
    if is_unexpanded_variable(text.as_str()) {
        return;
    }
    let n = normalize_workspace_root(text.as_str());
    if !n.as_str().is_empty() {
        let ghost before = found@;
        found.push(n);
        assert(strings_view(found@) =~= strings_view(before).push(n@));
    }
}

/// Split an `X-Mcpmux-Workspace-Set` header into normalized folder paths,
/// sorted and deduplicated. Entries still carrying `${` and entries that
/// normalize to empty are dropped.
pub fn parse_candidate_set(raw_set: &str) -> (r: Vec<String>)
    ensures
        strings_view(r@) == parsed_candidates(raw_set@),
        strictly_sorted(strings_view(r@)),
{
    let chars = chars_of(raw_set);
    let mut found: Vec<String> = Vec::new();
    let mut cur: Vec<char> = Vec::new();
    let mut i: usize = 0;
    proof {
        assert(chars@.take(0) =~= Seq::<char>::empty());
    }
    while i < chars.len()
        invariant
            i <= chars@.len(),
            chars@ == raw_set@,
            split_commas(chars@.take(i as int)).len() >= 1,
            split_commas(chars@.take(i as int)).last() == cur@,
            strings_view(found@) == candidate_paths(split_commas(chars@.take(i as int)).drop_last()),
        decreases chars.len() - i,
    {
        let c = chars[i];
        let ghost t = chars@.take(i as int);
        let ghost t1 = chars@.take(i + 1);
        proof {
            assert(t1.drop_last() =~= t);
            assert(t1.last() == c);
            lemma_split_commas_nonempty(t);
        }
        if c == ',' {
            push_candidate(&mut found, &cur);
            proof {
                let p = split_commas(t);
                assert(split_commas(t1) == p.push(Seq::<char>::empty()));
                assert(split_commas(t1).drop_last() =~= p);
                assert(p =~= p.drop_last().push(cur@));
            }
            cur = Vec::new();
        } else {
            cur.push(c);
            proof {
                let p = split_commas(t);
                assert(split_commas(t1).drop_last() =~= p.drop_last());
            }
        }
        i = i + 1;
    }
    push_candidate(&mut found, &cur);
    proof {
        assert(chars@.take(chars@.len() as int) =~= chars@);
        let p = split_commas(chars@);
        assert(p =~= p.drop_last().push(cur@));
    }
    assert(found.deep_view() =~= strings_view(found@));
    let r = sorted_unique(&found);
    assert(r.deep_view() =~= strings_view(r@));
    r
}

/// Whether the two string lists are equal.
fn strings_eq(a: &Vec<String>, b: &Vec<String>) -> (r: bool)
    ensures
        r == (strings_view(a@) == strings_view(b@)),
{
    if a.len() != b.len() {
        assert(strings_view(a@).len() != strings_view(b@).len());
        return false;
    }
    let mut i: usize = 0;
    while i < a.len()
        invariant
            a@.len() == b@.len(),
            i <= a@.len(),
            forall|k: int| 0 <= k < i ==> a@[k]@ == b@[k]@,
        decreases a.len() - i,
    {
        if a[i] != b[i] {
            assert(strings_view(a@)[i as int] != strings_view(b@)[i as int]);
            return false;
        }
        i = i + 1;
    }
    assert(strings_view(a@) =~= strings_view(b@));
    true
}

/// Whether `x` is one of the strings of `v`.
fn strings_contain(v: &Vec<String>, x: &String) -> (r: bool)
    ensures
        r == strings_view(v@).contains(x@),
{
    let mut i: usize = 0;
    while i < v.len()
        invariant
            i <= v@.len(),
            forall|k: int| 0 <= k < i ==> v@[k]@ != x@,
        decreases v.len() - i,
    {
        if v[i] == *x {
            assert(strings_view(v@)[i as int] == x@);
            return true;
        }
        i = i + 1;
    }
    proof {
        if strings_view(v@).contains(x@) {
            let k = choose|k: int| 0 <= k < v@.len() && strings_view(v@)[k] == x@;
            assert(v@[k]@ == x@);
        }
    }
    false
}

/// The roots of `s` that `keep` accepts, in order.
pub open spec fn keep_roots(s: Seq<Seq<char>>, keep: spec_fn(Seq<char>) -> bool) -> Seq<Seq<char>>
    decreases s.len(),
{
    if s.len() == 0 {
        Seq::empty()
    } else {
        let rest = keep_roots(s.drop_last(), keep);
        if keep(s.last()) {
            rest.push(s.last())
        } else {
            rest
        }
    }
}

proof fn lemma_keep_roots(s: Seq<Seq<char>>, keep: spec_fn(Seq<char>) -> bool)
    ensures
        keep_roots(s, keep).len() <= s.len(),
        keep_roots(s, keep).len() == s.len() ==> keep_roots(s, keep) == s,
        forall|x: Seq<char>|
            #![trigger keep_roots(s, keep).contains(x)]
            #![trigger s.contains(x)]
            keep_roots(s, keep).contains(x) <==> s.contains(x) && keep(x),
        keep_roots(s, keep).len() < s.len() <==> exists|x: Seq<char>| s.contains(x) && !keep(x),
    decreases s.len(),
{
    if s.len() > 0 {
        let p = s.drop_last();
        lemma_keep_roots(p, keep);
        let kp = keep_roots(p, keep);
        assert(s =~= p.push(s.last()));
        lemma_push_contains(p, s.last());
        if keep(s.last()) {
            lemma_push_contains(kp, s.last());
        }
        assert forall|x: Seq<char>| keep_roots(s, keep).contains(x) <==> s.contains(x) && keep(x) by {
            assert(kp.contains(x) <==> p.contains(x) && keep(x));
            assert(s.contains(x) <==> p.contains(x) || x == s.last());
        }
        if keep(s.last()) {
            if kp.len() == p.len() {
                assert(keep_roots(s, keep) =~= s);
            }
            if exists|x: Seq<char>| s.contains(x) && !keep(x) {
                let x = choose|x: Seq<char>| s.contains(x) && !keep(x);
                let i = choose|i: int| 0 <= i < s.len() && s[i] == x;
                assert(i < p.len());
                assert(p[i] == x);
                assert(p.contains(x));
            }
            if exists|x: Seq<char>| p.contains(x) && !keep(x) {
                let x = choose|x: Seq<char>| p.contains(x) && !keep(x);
                let i = choose|i: int| 0 <= i < p.len() && p[i] == x;
                assert(s[i] == x);
                assert(s.contains(x));
            }
        } else {
            assert(s.contains(s.last()));
        }
    }
}

proof fn lemma_keep_roots_agree(s: Seq<Seq<char>>, k1: spec_fn(Seq<char>) -> bool, k2: spec_fn(Seq<char>) -> bool)
    requires
        forall|x: Seq<char>| s.contains(x) ==> k1(x) == k2(x),
    ensures
        keep_roots(s, k1) == keep_roots(s, k2),
    decreases s.len(),
{
    if s.len() > 0 {
        let p = s.drop_last();
        assert forall|x: Seq<char>| p.contains(x) implies k1(x) == k2(x) by {
            let i = choose|i: int| 0 <= i < p.len() && p[i] == x;
            assert(s[i] == x);
            assert(s.contains(x));
        }
        lemma_keep_roots_agree(p, k1, k2);
        assert(s.contains(s.last()));
    }
}

/// `f` accepts `r`: some call of `f` on a string with the characters `r`
/// returned `true`.
pub open spec fn mapped_by<F: Fn(&str) -> bool>(f: F, r: Seq<char>) -> bool {
    exists|s: &str| s@ == r && #[trigger] f.ensures((s,), true)
}

/// [`mapped_by`] as a predicate.
pub open spec fn mapped_pred<F: Fn(&str) -> bool>(f: F) -> spec_fn(Seq<char>) -> bool {
    |r: Seq<char>| mapped_by(f, r)
}

/// `f` was called on a string with the characters `r`.
pub open spec fn asked<F: Fn(&str) -> bool>(f: F, r: Seq<char>) -> bool {
    exists|s: &str|
        #![trigger f.ensures((s,), true)]
        #![trigger f.ensures((s,), false)]
        s@ == r && (f.ensures((s,), true) || f.ensures((s,), false))
}

/// What forgetting unaccepted roots does to one session record.
pub open spec fn forget_record(o: SessionRecord, n: SessionRecord, keep: spec_fn(Seq<char>) -> bool) -> bool {
    match o.roots {
        None => n == o,
        Some(v) => {
            let s = strings_view(v@);
            let k = keep_roots(s, keep);
            if k.len() == s.len() {
                n == o
            } else if k.len() == 0 {
                n == SessionRecord { roots: None, last_resolution: None, last_probe: None, first_seen: None, ..o }
            } else {
                &&& n.roots is Some
                &&& strings_view(n.roots->0@) == k
                &&& n == SessionRecord { roots: n.roots, ..o }
            }
        },
    }
}

/// The per-field consequences of [`forget_record`].
pub open spec fn lemma_record_facts(o: SessionRecord, n: SessionRecord, keep: spec_fn(Seq<char>) -> bool) -> bool {
    forget_record(o, n, keep) ==> {
        &&& n.roots_capable == o.roots_capable
        &&& n.pinned == o.pinned
        &&& n.search_cache == o.search_cache
        &&& n.candidates == o.candidates
        &&& (match o.roots {
            None => n == o,
            Some(v) => {
                let s = strings_view(v@);
                let k = keep_roots(s, keep);
                &&& (s.len() > 0 && k.len() == 0) ==> (n.roots is None && n.last_resolution is None
                    && n.last_probe is None && n.first_seen is None)
                &&& !(s.len() > 0 && k.len() == 0) ==> (n.roots is Some && strings_view(n.roots->0@) == k
                    && n.last_resolution == o.last_resolution && n.last_probe == o.last_probe
                    && n.first_seen == o.first_seen)
            },
        })
    }
}

/// Registry mapping `mcp-session-id` to the caller's workspace roots and the
/// bookkeeping the FeatureSet resolver needs per session.
#[derive(Debug)]
pub struct SessionRootsRegistry {
    sessions: DashMap<String, SessionRecord>,
    clients: DashMap<String, PendingRecord>,
}

impl SessionRootsRegistry {
    /// Per-session records, by session id.
    pub closed spec fn records(self) -> Map<Seq<char>, SessionRecord> {
        session_table(self.sessions)
    }

    /// Per-client held headers, by client id.
    pub closed spec fn client_records(self) -> Map<Seq<char>, PendingRecord> {
        client_table(self.clients)
    }

    /// Roots reported by each session (normalized), as stored by [`Self::set`].
    pub open spec fn reported(self) -> Map<Seq<char>, Seq<Seq<char>>> {
        field_map(self.records(), sel_roots())
    }

    /// Last recorded resolution per session (`None` is a deny).
    pub open spec fn last_resolution(self) -> Map<Seq<char>, Option<Seq<char>>> {
        field_map(self.records(), sel_resolution())
    }

    /// Declared `roots` capability per session.
    pub open spec fn roots_capable(self) -> Map<Seq<char>, bool> {
        field_map(self.records(), sel_capable())
    }

    /// Clock reading of the last completed probe per session.
    pub open spec fn last_probe(self) -> Map<Seq<char>, u64> {
        field_map(self.records(), sel_probe())
    }

    /// Clock reading when each session was first seen without roots.
    pub open spec fn first_seen(self) -> Map<Seq<char>, u64> {
        field_map(self.records(), sel_first_seen())
    }

    /// Header-pinned root per session.
    pub open spec fn pinned(self) -> Map<Seq<char>, Seq<char>> {
        field_map(self.records(), sel_pinned())
    }

    /// Folder set of the calling window per session.
    pub open spec fn candidates(self) -> Map<Seq<char>, Seq<Seq<char>>> {
        field_map(self.records(), sel_candidates())
    }

    /// Fingerprint of the cached search index per session.
    pub open spec fn search_cache(self) -> Map<Seq<char>, u64> {
        field_map(self.records(), sel_search())
    }

    /// Workspace roots held per client id.
    pub open spec fn pending_workspace(self) -> Map<Seq<char>, Seq<char>> {
        field_map(self.client_records(), sel_pending_workspace())
    }

    /// Candidate sets held per client id.
    pub open spec fn pending_candidates(self) -> Map<Seq<char>, Seq<Seq<char>>> {
        field_map(self.client_records(), sel_pending_candidates())
    }

    /// Pin, resolution snapshot and search cache agree.
    pub open spec fn same_pin_state(self, o: Self) -> bool {
        &&& self.pinned() == o.pinned()
        &&& self.last_resolution() == o.last_resolution()
        &&& self.search_cache() == o.search_cache()
    }

    /// Capability, probe stamp and first-seen stamp agree.
    pub open spec fn same_probe_state(self, o: Self) -> bool {
        &&& self.roots_capable() == o.roots_capable()
        &&& self.last_probe() == o.last_probe()
        &&& self.first_seen() == o.first_seen()
    }

    /// Held client headers agree.
    pub open spec fn same_pending(self, o: Self) -> bool {
        &&& self.pending_workspace() == o.pending_workspace()
        &&& self.pending_candidates() == o.pending_candidates()
    }

    /// The roots [`Self::get`] answers for a session: the pinned root alone
    /// when there is one, else the reported roots.
    pub open spec fn effective_roots(self, sid: Seq<char>) -> Option<Seq<Seq<char>>> {
        if self.pinned().contains_key(sid) {
            Some(seq![self.pinned()[sid]])
        } else if self.reported().contains_key(sid) {
            Some(self.reported()[sid])
        } else {
            None
        }
    }

    /// Whether pinning `raw` to `sid` changes anything: it normalizes to a
    /// non-empty root that is not already the session's pin.
    pub open spec fn pin_takes_effect(self, sid: Seq<char>, raw: Seq<char>) -> bool {
        let n = normalized_root(raw);
        n.len() > 0 && !(self.pinned().contains_key(sid) && self.pinned()[sid] == n)
    }

    /// The pin, resolution and search cache of `new` after pinning `raw` to
    /// `sid` in `self`.
    pub open spec fn pinned_to(self, new: Self, sid: Seq<char>, raw: Seq<char>) -> bool {
        if self.pin_takes_effect(sid, raw) {
            &&& new.pinned() == self.pinned().insert(sid, normalized_root(raw))
            &&& new.last_resolution() == self.last_resolution().remove(sid)
            &&& new.search_cache() == self.search_cache().remove(sid)
        } else {
            self.same_pin_state(new)
        }
    }

    /// The candidates and pin of `new` after storing the parsed folder set
    /// `p` for `sid` in `self`: an empty or unchanged set changes nothing; a
    /// set of one folder also pins it.
    pub open spec fn candidates_stored(self, new: Self, sid: Seq<char>, p: Seq<Seq<char>>) -> bool {
        if p.len() > 0 && !(self.candidates().contains_key(sid) && self.candidates()[sid] == p) {
            &&& new.candidates() == self.candidates().insert(sid, p)
            &&& (if p.len() == 1 {
                self.pinned_to(new, sid, p[0])
            } else {
                self.same_pin_state(new)
            })
        } else {
            &&& new.candidates() == self.candidates()
            &&& self.same_pin_state(new)
        }
    }

    /// The session reported roots and `keep` accepts none of them.
    pub open spec fn emptied_by(self, keep: spec_fn(Seq<char>) -> bool, sid: Seq<char>) -> bool {
        &&& self.reported().contains_key(sid)
        &&& self.reported()[sid].len() > 0
        &&& keep_roots(self.reported()[sid], keep).len() == 0
    }

    /// Some session reported `x` and `keep` does not accept it.
    pub open spec fn dropped_by(self, keep: spec_fn(Seq<char>) -> bool, x: Seq<char>) -> bool {
        exists|sid: Seq<char>| self.reported().contains_key(sid) && #[trigger] self.reported()[sid].contains(x) && !keep(x)
    }

    /// `new` is `self` after forgetting every reported root that `keep`
    /// does not accept: each session keeps its accepted roots; a session
    /// left with none loses its roots, resolution snapshot, probe stamp and
    /// first-seen stamp; everything else is unchanged.
    pub open spec fn forgotten(self, new: Self, keep: spec_fn(Seq<char>) -> bool) -> bool {
        &&& new.reported() == Map::new(
            |sid: Seq<char>| self.reported().contains_key(sid) && !self.emptied_by(keep, sid),
            |sid: Seq<char>| keep_roots(self.reported()[sid], keep),
        )
        &&& new.last_resolution() == Map::new(
            |sid: Seq<char>| self.last_resolution().contains_key(sid) && !self.emptied_by(keep, sid),
            |sid: Seq<char>| self.last_resolution()[sid],
        )
        &&& new.last_probe() == Map::new(
            |sid: Seq<char>| self.last_probe().contains_key(sid) && !self.emptied_by(keep, sid),
            |sid: Seq<char>| self.last_probe()[sid],
        )
        &&& new.first_seen() == Map::new(
            |sid: Seq<char>| self.first_seen().contains_key(sid) && !self.emptied_by(keep, sid),
            |sid: Seq<char>| self.first_seen()[sid],
        )
        &&& new.roots_capable() == self.roots_capable()
        &&& new.pinned() == self.pinned()
        &&& new.search_cache() == self.search_cache()
        &&& new.candidates() == self.candidates()
        &&& new.same_pending(self)
    }

    proof fn lemma_forgotten(a: Self, b: Self, keep: spec_fn(Seq<char>) -> bool)
        requires
            b.records().dom() == a.records().dom(),
            b.client_records() == a.client_records(),
            forall|k: Seq<char>| #[trigger] a.records().contains_key(k) ==> forget_record(a.records()[k], b.records()[k], keep),
        ensures
            a.forgotten(b, keep),
    {
        let ar = a.records();
        let br = b.records();
        assert forall|k: Seq<char>| #[trigger] ar.contains_key(k) implies lemma_record_facts(ar[k], br[k], keep) by {
            let o = ar[k];
            match o.roots {
                None => {},
                Some(v) => {
                    lemma_keep_roots(strings_view(v@), keep);
                },
            }
        }
        let t1 = Map::new(
            |sid: Seq<char>| a.reported().contains_key(sid) && !a.emptied_by(keep, sid),
            |sid: Seq<char>| keep_roots(a.reported()[sid], keep),
        );
        assert(b.reported() =~= t1);
        let t2 = Map::new(
            |sid: Seq<char>| a.last_resolution().contains_key(sid) && !a.emptied_by(keep, sid),
            |sid: Seq<char>| a.last_resolution()[sid],
        );
        assert(b.last_resolution() =~= t2);
        let t3 = Map::new(
            |sid: Seq<char>| a.last_probe().contains_key(sid) && !a.emptied_by(keep, sid),
            |sid: Seq<char>| a.last_probe()[sid],
        );
        assert(b.last_probe() =~= t3);
        let t4 = Map::new(
            |sid: Seq<char>| a.first_seen().contains_key(sid) && !a.emptied_by(keep, sid),
            |sid: Seq<char>| a.first_seen()[sid],
        );
        assert(b.first_seen() =~= t4);
        assert(b.roots_capable() =~= a.roots_capable());
        assert(b.pinned() =~= a.pinned());
        assert(b.search_cache() =~= a.search_cache());
        assert(b.candidates() =~= a.candidates());
    }

    proof fn lemma_forgotten_agree(a: Self, b: Self, k1: spec_fn(Seq<char>) -> bool, k2: spec_fn(Seq<char>) -> bool)
        requires
            a.forgotten(b, k1),
            forall|sid: Seq<char>, x: Seq<char>|
                a.reported().contains_key(sid) && #[trigger] a.reported()[sid].contains(x) ==> k1(x) == k2(x),
        ensures
            a.forgotten(b, k2),
            forall|x: Seq<char>| a.dropped_by(k1, x) <==> a.dropped_by(k2, x),
    {
        assert forall|sid: Seq<char>| a.reported().contains_key(sid) implies keep_roots(a.reported()[sid], k1)
            == keep_roots(a.reported()[sid], k2) by {
            assert forall|x: Seq<char>| a.reported()[sid].contains(x) implies k1(x) == k2(x) by {
                assert(a.reported()[sid].contains(x));
            }
            lemma_keep_roots_agree(a.reported()[sid], k1, k2);
        }
        let t1 = Map::new(
            |sid: Seq<char>| a.reported().contains_key(sid) && !a.emptied_by(k2, sid),
            |sid: Seq<char>| keep_roots(a.reported()[sid], k2),
        );
        assert(b.reported() =~= t1);
        let t2 = Map::new(
            |sid: Seq<char>| a.last_resolution().contains_key(sid) && !a.emptied_by(k2, sid),
            |sid: Seq<char>| a.last_resolution()[sid],
        );
        assert(b.last_resolution() =~= t2);
        let t3 = Map::new(
            |sid: Seq<char>| a.last_probe().contains_key(sid) && !a.emptied_by(k2, sid),
            |sid: Seq<char>| a.last_probe()[sid],
        );
        assert(b.last_probe() =~= t3);
        let t4 = Map::new(
            |sid: Seq<char>| a.first_seen().contains_key(sid) && !a.emptied_by(k2, sid),
            |sid: Seq<char>| a.first_seen()[sid],
        );
        assert(b.first_seen() =~= t4);
    }

    /// The record of a session after evicting its search cache when its
    /// reported roots include `n`.
    pub open spec fn evicted(o: SessionRecord, n: Seq<char>) -> SessionRecord {
        if o.roots is Some && strings_view(o.roots->0@).contains(n) {
            SessionRecord { search_cache: None, ..o }
        } else {
            o
        }
    }

    spec fn record_or_blank(self, sid: Seq<char>) -> SessionRecord {
        if self.records().contains_key(sid) {
            self.records()[sid]
        } else {
            blank_record()
        }
    }

    spec fn pending_or_blank(self, cid: Seq<char>) -> PendingRecord {
        if self.client_records().contains_key(cid) {
            self.client_records()[cid]
        } else {
            blank_pending()
        }
    }

    /// An empty registry.
    pub fn new() -> (r: Self)
        ensures
            r.reported().dom() == Set::<Seq<char>>::empty(),
            r.records().dom() == Set::<Seq<char>>::empty(),
            r.client_records().dom() == Set::<Seq<char>>::empty(),
    {
        SessionRootsRegistry { sessions: new_session_table(), clients: new_client_table() }
    }

    fn record(&self, sid: &str) -> (r: SessionRecord)
        ensures
            r == self.record_or_blank(sid@),
    {
        match session_get(&self.sessions, sid) {
            Some(r) => r,
            None => SessionRecord::blank(),
        }
    }

    fn store(&mut self, sid: &str, rec: SessionRecord)
        ensures
            final(self).records() == old(self).records().insert(sid@, rec),
            final(self).client_records() == old(self).client_records(),
    {
        session_put(&mut self.sessions, sid.to_owned(), rec);
    }

    fn pending(&self, cid: &str) -> (r: PendingRecord)
        ensures
            r == self.pending_or_blank(cid@),
    {
        match client_get(&self.clients, cid) {
            Some(r) => r,
            None => PendingRecord::blank(),
        }
    }

    fn store_pending(&mut self, cid: &str, rec: PendingRecord)
        ensures
            final(self).client_records() == old(self).client_records().insert(cid@, rec),
            final(self).records() == old(self).records(),
    {
        client_put(&mut self.clients, cid.to_owned(), rec);
    }

    /// Record whether a session declared the MCP `roots` capability.
    pub fn set_roots_capable(&mut self, session_id: &str, capable: bool)
        ensures
            final(self).roots_capable() == old(self).roots_capable().insert(session_id@, capable),
            final(self).last_probe() == old(self).last_probe(),
            final(self).first_seen() == old(self).first_seen(),
            final(self).reported() == old(self).reported(),
            final(self).candidates() == old(self).candidates(),
            final(self).same_pin_state(*old(self)),
            final(self).same_pending(*old(self)),
    {
        let mut rec = self.record(session_id);
        rec.roots_capable = Some(capable);
        proof {
            lemma_record_update(self.records(), session_id@, rec);
        }
        self.store(session_id, rec);
    }

    /// `Some(true)` when the session declared `roots`, `Some(false)` when it
    /// did not, `None` when no `initialize` was observed.
    pub fn is_roots_capable(&self, session_id: &str) -> (r: Option<bool>)
        ensures
            r == (if self.roots_capable().contains_key(session_id@) {
                Some(self.roots_capable()[session_id@])
            } else {
                None
            }),
    {
        self.record(session_id).roots_capable
    }

    /// Store the roots a session reported, normalized; roots that normalize
    /// to empty are dropped.
    pub fn set(&mut self, session_id: &str, roots: &[&str])
        ensures
            final(self).reported() == old(self).reported().insert(session_id@, normalized_roots(strs_view(roots@))),
            final(self).candidates() == old(self).candidates(),
            final(self).same_pin_state(*old(self)),
            final(self).same_probe_state(*old(self)),
            final(self).same_pending(*old(self)),
    {
        let mut normalized: Vec<String> = Vec::new();
        let mut i: usize = 0;
        while i < roots.len()
            invariant
                i <= roots@.len(),
                strings_view(normalized@) == normalized_roots(strs_view(roots@).take(i as int)),
            decreases roots.len() - i,
        {
            let n = normalize_workspace_root(roots[i]);
            proof {
                let t = strs_view(roots@).take(i + 1);
                assert(t.drop_last() =~= strs_view(roots@).take(i as int));
                assert(t.last() == roots@[i as int]@);
            }
            if !n.as_str().is_empty() {
                let ghost before = normalized@;
                normalized.push(n);
                assert(strings_view(normalized@) =~= strings_view(before).push(n@));
            }
            i = i + 1;
        }
        assert(strs_view(roots@).take(roots@.len() as int) =~= strs_view(roots@));
        let mut rec = self.record(session_id);
        rec.roots = Some(normalized);
        proof {
            lemma_record_update(self.records(), session_id@, rec);
        }
        self.store(session_id, rec);
    }

    /// The roots of a session: the pinned root alone when one is pinned
    /// (it shadows whatever the client reported), else the reported roots.
    pub fn get(&self, session_id: &str) -> (r: Option<Vec<String>>)
        ensures
            opt_strings(r) == self.effective_roots(session_id@),
    {
        let rec = self.record(session_id);
        match rec.pinned {
            Some(p) => {
                let v = vec![p];
                assert(strings_view(v@) =~= seq![p@]);
                Some(v)
            },
            None => rec.roots,
        }
    }

    /// The root pinned for a session, if any.
    pub fn get_pinned(&self, session_id: &str) -> (r: Option<String>)
        ensures
            opt_view(r) == (if self.pinned().contains_key(session_id@) {
                Some(self.pinned()[session_id@])
            } else {
                None
            }),
    {
        self.record(session_id).pinned
    }

    /// Pin an explicit workspace root for a session (the
    /// `X-Mcpmux-Workspace` header). A value that normalizes to empty, or
    /// the root already pinned, changes nothing; a new pin drops the
    /// session's resolution snapshot and search cache.
    pub fn set_pinned(&mut self, session_id: &str, raw_root: &str)
        ensures
            old(self).pinned_to(*final(self), session_id@, raw_root@),
            final(self).reported() == old(self).reported(),
            final(self).candidates() == old(self).candidates(),
            final(self).same_probe_state(*old(self)),
            final(self).same_pending(*old(self)),
    {
        let normalized = normalize_workspace_root(raw_root);
        if normalized.as_str().is_empty() {
            return;
        }
        let mut rec = self.record(session_id);
        let unchanged = match &rec.pinned {
            Some(previous) => *previous == normalized,
            None => false,
        };
        if unchanged {
            return;
        }
        rec.last_resolution = None;
        rec.search_cache = None;
        rec.pinned = Some(normalized);
        proof {
            lemma_record_update(self.records(), session_id@, rec);
        }
        self.store(session_id, rec);
        assert(self.last_resolution() =~= old(self).last_resolution().remove(session_id@));
        assert(self.search_cache() =~= old(self).search_cache().remove(session_id@));
    }

    /// Hold a workspace root for `client_id` until a session id exists;
    /// values that normalize to empty are ignored.
    pub fn remember_pending_workspace(&mut self, client_id: &str, raw_root: &str)
        ensures
            final(self).pending_workspace() == (if normalized_root(raw_root@).len() == 0 {
                old(self).pending_workspace()
            } else {
                old(self).pending_workspace().insert(client_id@, normalized_root(raw_root@))
            }),
            final(self).pending_candidates() == old(self).pending_candidates(),
            final(self).records() == old(self).records(),
    {
        let normalized = normalize_workspace_root(raw_root);
        if normalized.as_str().is_empty() {
            return;
        }
        let mut rec = self.pending(client_id);
        rec.workspace = Some(normalized);
        proof {
            lemma_pending_update(self.client_records(), client_id@, rec);
        }
        self.store_pending(client_id, rec);
    }

    /// Pin `session_id` from the root held for `client_id`, if any; returns
    /// whether one was held. The held root stays for later sessions.
    pub fn apply_pending_workspace(&mut self, client_id: &str, session_id: &str) -> (applied: bool)
        ensures
            applied == old(self).pending_workspace().contains_key(client_id@),
            applied ==> old(self).pinned_to(*final(self), session_id@, old(self).pending_workspace()[client_id@]),
            !applied ==> final(self).same_pin_state(*old(self)),
            final(self).reported() == old(self).reported(),
            final(self).candidates() == old(self).candidates(),
            final(self).same_probe_state(*old(self)),
            final(self).same_pending(*old(self)),
    {
        match self.pending(client_id).workspace {
            Some(path) => {
                self.set_pinned(session_id, path.as_str());
                true
            },
            None => false,
        }
    }

    /// Stamp the completion of an on-demand probe at clock reading `now`.
    pub fn mark_probe_completed(&mut self, session_id: &str, now: u64)
        ensures
            final(self).last_probe() == old(self).last_probe().insert(session_id@, now),
            final(self).roots_capable() == old(self).roots_capable(),
            final(self).first_seen() == old(self).first_seen(),
            final(self).reported() == old(self).reported(),
            final(self).candidates() == old(self).candidates(),
            final(self).same_pin_state(*old(self)),
            final(self).same_pending(*old(self)),
    {
        let mut rec = self.record(session_id);
        rec.last_probe = Some(now);
        proof {
            lemma_record_update(self.records(), session_id@, rec);
        }
        self.store(session_id, rec);
    }

    /// Whether an on-demand probe should be skipped: the previous one
    /// completed less than `throttle` before `now` (an earlier `now` than
    /// the stamp counts as no time elapsed).
    pub fn should_throttle_probe(&self, session_id: &str, throttle: u64, now: u64) -> (r: bool)
        ensures
            r == (self.last_probe().contains_key(session_id@) && (if now >= self.last_probe()[session_id@] {
                now - self.last_probe()[session_id@]
            } else {
                0
            }) < throttle),
    {
        match self.record(session_id).last_probe {
            None => false,
            Some(last) => now.saturating_sub(last) < throttle,
        }
    }

    /// Time since the session was first seen without roots, stamping `now`
    /// on the first call; the stamp is set once and cleared by
    /// [`Self::remove`].
    pub fn elapsed_since_first_seen(&mut self, session_id: &str, now: u64) -> (elapsed: u64)
        ensures
            final(self).first_seen() == (if old(self).first_seen().contains_key(session_id@) {
                old(self).first_seen()
            } else {
                old(self).first_seen().insert(session_id@, now)
            }),
            elapsed == (if now >= final(self).first_seen()[session_id@] {
                now - final(self).first_seen()[session_id@]
            } else {
                0
            }),
            final(self).roots_capable() == old(self).roots_capable(),
            final(self).last_probe() == old(self).last_probe(),
            final(self).reported() == old(self).reported(),
            final(self).candidates() == old(self).candidates(),
            final(self).same_pin_state(*old(self)),
            final(self).same_pending(*old(self)),
    {
        let mut rec = self.record(session_id);
        match rec.first_seen {
            Some(first) => {
                assert(old(self).first_seen().contains_key(session_id@));
                now.saturating_sub(first)
            },
            None => {
                rec.first_seen = Some(now);
                proof {
                    lemma_record_update(self.records(), session_id@, rec);
                }
                self.store(session_id, rec);
                0
            },
        }
    }

    /// Compare-and-set the session's resolved FeatureSet id (`None` = deny).
    /// Returns whether it changed; a session with no snapshot always counts
    /// as changed.
    pub fn record_resolution(&mut self, session_id: &str, fs_id: Option<&str>) -> (changed: bool)
        ensures
            ({
                let v = match fs_id {
                    Some(s) => Some(s@),
                    None => None,
                };
                &&& changed == !(old(self).last_resolution().contains_key(session_id@)
                    && old(self).last_resolution()[session_id@] == v)
                &&& final(self).last_resolution() == old(self).last_resolution().insert(session_id@, v)
            }),
            final(self).pinned() == old(self).pinned(),
            final(self).search_cache() == old(self).search_cache(),
            final(self).reported() == old(self).reported(),
            final(self).candidates() == old(self).candidates(),
            final(self).same_probe_state(*old(self)),
            final(self).same_pending(*old(self)),
    {
        let ghost v = match fs_id {
            Some(s) => Some(s@),
            None => None,
        };
        let mut rec = self.record(session_id);
        let new_val: Option<String> = match fs_id {
            Some(s) => Some(s.to_owned()),
            None => None,
        };
        assert(opt_view(new_val) == v);
        let unchanged = match &rec.last_resolution {
            Some(prev) => match (prev, &new_val) {
                (Some(a), Some(b)) => *a == *b,
                (None, None) => true,
                _ => false,
            },
            None => false,
        };
        if unchanged {
            proof {
                assert(old(self).last_resolution().insert(session_id@, v) =~= old(self).last_resolution());
            }
            return false;
        }
        rec.last_resolution = Some(new_val);
        proof {
            lemma_record_update(self.records(), session_id@, rec);
        }
        self.store(session_id, rec);
        true
    }

    /// Drop everything tracked for a session (client disconnect).
    pub fn remove(&mut self, session_id: &str)
        ensures
            final(self).reported() == old(self).reported().remove(session_id@),
            final(self).last_resolution() == old(self).last_resolution().remove(session_id@),
            final(self).roots_capable() == old(self).roots_capable().remove(session_id@),
            final(self).last_probe() == old(self).last_probe().remove(session_id@),
            final(self).first_seen() == old(self).first_seen().remove(session_id@),
            final(self).pinned() == old(self).pinned().remove(session_id@),
            final(self).candidates() == old(self).candidates().remove(session_id@),
            final(self).search_cache() == old(self).search_cache().remove(session_id@),
            final(self).same_pending(*old(self)),
    {
        proof {
            lemma_record_remove(self.records(), session_id@);
        }
        session_drop(&mut self.sessions, session_id);
    }

    /// Record that the session's search index was built for the FeatureSet
    /// fingerprint `fingerprint`.
    pub fn remember_search_index(&mut self, session_id: &str, fingerprint: u64)
        ensures
            final(self).search_cache() == old(self).search_cache().insert(session_id@, fingerprint),
            final(self).pinned() == old(self).pinned(),
            final(self).last_resolution() == old(self).last_resolution(),
            final(self).reported() == old(self).reported(),
            final(self).candidates() == old(self).candidates(),
            final(self).same_probe_state(*old(self)),
            final(self).same_pending(*old(self)),
    {
        let mut rec = self.record(session_id);
        rec.search_cache = Some(fingerprint);
        proof {
            lemma_record_update(self.records(), session_id@, rec);
        }
        self.store(session_id, rec);
    }

    /// The fingerprint of the session's cached search index, if it is still
    /// valid.
    pub fn cached_search_index(&self, session_id: &str) -> (r: Option<u64>)
        ensures
            r == (if self.search_cache().contains_key(session_id@) {
                Some(self.search_cache()[session_id@])
            } else {
                None
            }),
    {
        self.record(session_id).search_cache
    }

    fn store_candidates(&mut self, session_id: &str, parsed: Vec<String>)
        ensures
            old(self).candidates_stored(*final(self), session_id@, strings_view(parsed@)),
            final(self).reported() == old(self).reported(),
            final(self).same_probe_state(*old(self)),
            final(self).same_pending(*old(self)),
    {
        if parsed.len() == 0 {
            return;
        }
        let existing = self.record(session_id).candidates;
        let unchanged = match &existing {
            Some(e) => strings_eq(e, &parsed),
            None => false,
        };
        if unchanged {
            return;
        }
        if parsed.len() == 1 {
            self.set_pinned(session_id, parsed[0].as_str());
        }
        let mut rec = self.record(session_id);
        rec.candidates = Some(parsed);
        proof {
            lemma_record_update(self.records(), session_id@, rec);
        }
        self.store(session_id, rec);
    }

    /// Record the calling window's folder set (the `X-Mcpmux-Workspace-Set`
    /// header). A set of one folder is unambiguous and pins it; larger sets
    /// only constrain [`Self::is_candidate`].
    pub fn set_candidates(&mut self, session_id: &str, raw_set: &str)
        ensures
            old(self).candidates_stored(*final(self), session_id@, parsed_candidates(raw_set@)),
            final(self).reported() == old(self).reported(),
            final(self).same_probe_state(*old(self)),
            final(self).same_pending(*old(self)),
    {
        let parsed = parse_candidate_set(raw_set);
        self.store_candidates(session_id, parsed);
    }

    /// The calling window's folder set, if one was reported.
    pub fn get_candidates(&self, session_id: &str) -> (r: Option<Vec<String>>)
        ensures
            opt_strings(r) == (if self.candidates().contains_key(session_id@) {
                Some(self.candidates()[session_id@])
            } else {
                None
            }),
    {
        self.record(session_id).candidates
    }

    /// Whether `root` is one of the folders the calling window has open;
    /// `true` when the session reported no folder set.
    pub fn is_candidate(&self, session_id: &str, root: &str) -> (b: bool)
        ensures
            b == (!self.candidates().contains_key(session_id@)
                || self.candidates()[session_id@].contains(normalized_root(root@))),
    {
        match self.record(session_id).candidates {
            None => true,
            Some(candidates) => {
                let normalized = normalize_workspace_root(root);
                strings_contain(&candidates, &normalized)
            },
        }
    }

    /// Hold a folder set for `client_id` until a session id exists; a set
    /// that parses to nothing is ignored.
    pub fn remember_pending_candidates(&mut self, client_id: &str, raw_set: &str)
        ensures
            final(self).pending_candidates() == (if parsed_candidates(raw_set@).len() == 0 {
                old(self).pending_candidates()
            } else {
                old(self).pending_candidates().insert(client_id@, parsed_candidates(raw_set@))
            }),
            final(self).pending_workspace() == old(self).pending_workspace(),
            final(self).records() == old(self).records(),
    {
        let parsed = parse_candidate_set(raw_set);
        if parsed.len() == 0 {
            return;
        }
        let mut rec = self.pending(client_id);
        rec.candidates = Some(parsed);
        proof {
            lemma_pending_update(self.client_records(), client_id@, rec);
        }
        self.store_pending(client_id, rec);
    }

    /// Store the folder set held for `client_id` on `session_id`, if any;
    /// returns whether one was held.
    pub fn apply_pending_candidates(&mut self, client_id: &str, session_id: &str) -> (applied: bool)
        ensures
            applied == old(self).pending_candidates().contains_key(client_id@),
            applied ==> old(self).candidates_stored(*final(self), session_id@, old(self).pending_candidates()[client_id@]),
            !applied ==> final(self).candidates() == old(self).candidates() && final(self).same_pin_state(*old(self)),
            final(self).reported() == old(self).reported(),
            final(self).same_probe_state(*old(self)),
            final(self).same_pending(*old(self)),
    {
        match self.pending(client_id).candidates {
            Some(candidates) => {
                self.store_candidates(session_id, candidates);
                true
            },
            None => false,
        }
    }

    /// Forget every reported root that `is_mapped` does not accept. Each
    /// session keeps its accepted roots; a session left with none is
    /// dropped from the reported roots together with its resolution
    /// snapshot, probe stamp and first-seen stamp, so its next request
    /// re-probes. Returns the dropped roots, sorted and deduplicated.
    pub fn forget_unmapped_roots<F: Fn(&str) -> bool>(&mut self, is_mapped: F) -> (dropped: Vec<String>)
        requires
            forall|s: &str| #[trigger] is_mapped.requires((s,)),
            forall|s: &str, t: &str, a: bool, b: bool|
                #![trigger is_mapped.ensures((s,), a), is_mapped.ensures((t,), b)]
                s@ == t@ && is_mapped.ensures((s,), a) && is_mapped.ensures((t,), b) ==> a == b,
        ensures
            old(self).forgotten(*final(self), mapped_pred(is_mapped)),
            strictly_sorted(strings_view(dropped@)),
            forall|x: Seq<char>| #[trigger] strings_view(dropped@).contains(x) <==> old(self).dropped_by(mapped_pred(is_mapped), x),
            forall|sid: Seq<char>, x: Seq<char>|
                old(self).reported().contains_key(sid) && #[trigger] old(self).reported()[sid].contains(x) ==> asked(is_mapped, x),
    {
        let ghost keep = mapped_pred(is_mapped);
        let ghost start = *self;
        let mut entries = session_entries(&self.sessions);
        let ghost all = entries@;
        let mut removed: Vec<String> = Vec::new();
        proof {
            assert(all.take(all.len() as int) =~= all);
        }
        while entries.len() > 0
            invariant
                entries@ == all.take(entries@.len() as int),
                entries@.len() <= all.len(),
                forall|i: int, j: int| 0 <= i < j < all.len() ==> #[trigger] all[i].0@ != #[trigger] all[j].0@,
                forall|i: int| 0 <= i < all.len() ==> start.records().contains_key(#[trigger] all[i].0@)
                    && start.records()[all[i].0@] == all[i].1,
                forall|k: Seq<char>| #[trigger] start.records().contains_key(k) ==> exists|i: int| 0 <= i < all.len() && #[trigger] all[i].0@ == k,
                self.records().dom() == start.records().dom(),
                self.client_records() == start.client_records(),
                keep == mapped_pred(is_mapped),
                forall|s: &str| #[trigger] is_mapped.requires((s,)),
                forall|s: &str, t: &str, a: bool, b: bool|
                    #![trigger is_mapped.ensures((s,), a), is_mapped.ensures((t,), b)]
                    s@ == t@ && is_mapped.ensures((s,), a) && is_mapped.ensures((t,), b) ==> a == b,
                forall|i: int| entries@.len() <= i < all.len() ==> forget_record(
                    start.records()[#[trigger] all[i].0@], self.records()[all[i].0@], keep),
                forall|i: int| 0 <= i < entries@.len() ==> self.records()[#[trigger] all[i].0@] == start.records()[all[i].0@],
                forall|x: Seq<char>| #[trigger] strings_view(removed@).contains(x) <==> exists|i: int|
                    entries@.len() <= i < all.len() && start.reported().contains_key(#[trigger] all[i].0@)
                    && start.reported()[all[i].0@].contains(x) && !keep(x),
                forall|i: int, x: Seq<char>| entries@.len() <= i < all.len() && start.reported().contains_key(#[trigger] all[i].0@)
                    && #[trigger] start.reported()[all[i].0@].contains(x) ==> asked(is_mapped, x),
            decreases entries.len(),
        {
            let (sid, rec) = entries.pop().unwrap();
            let ghost n = entries@.len() as int;
            assert(all[n] == (sid, rec));
            let ghost before_removed = removed@;
            let ghost before_records = self.records();
            match &rec.roots {
                None => {
                    assert(start.records()[sid@] == rec);
                },
                Some(v) => {
                    let ghost sv = strings_view(v@);
                    let ghost orig = rec;
                    let vlen = v.len();
                    let mut kept: Vec<String> = Vec::new();
                    let mut j: usize = 0;
                    while j < v.len()
                        invariant
                            j <= v@.len(),
                            sv == strings_view(v@),
                            keep == mapped_pred(is_mapped),
                            forall|s: &str| #[trigger] is_mapped.requires((s,)),
                            forall|s: &str, t: &str, a: bool, b: bool|
                                #![trigger is_mapped.ensures((s,), a), is_mapped.ensures((t,), b)]
                                s@ == t@ && is_mapped.ensures((s,), a) && is_mapped.ensures((t,), b) ==> a == b,
                            strings_view(kept@) == keep_roots(sv.take(j as int), keep),
                            forall|x: Seq<char>| #[trigger] strings_view(removed@).contains(x) <==> (
                                strings_view(before_removed).contains(x) || (sv.take(j as int).contains(x) && !keep(x))),
                            forall|x: Seq<char>| #[trigger] sv.take(j as int).contains(x) ==> asked(is_mapped, x),
                        decreases v.len() - j,
                    {
                        let root = &v[j];
                        let rs = root.as_str();
                        let b = is_mapped(rs);
                        proof {
                            if b {
                                assert(mapped_by(is_mapped, root@));
                            } else {
                                if mapped_by(is_mapped, root@) {
                                    let w = choose|w: &str| w@ == root@ && #[trigger] is_mapped.ensures((w,), true);
                                    assert(is_mapped.ensures((rs,), false));
                                }
                            }
                            assert(keep(root@) == b);
                            assert(asked(is_mapped, root@));
                        }
                        let ghost t = sv.take(j as int);
                        let ghost t1 = sv.take(j + 1);
                        assert(t1.drop_last() =~= t);
                        assert(t1.last() == root@);
                        let ghost rb = removed@;
                        if b {
                            let ghost kb = kept@;
                            kept.push(root.clone());
                            assert(strings_view(kept@) =~= strings_view(kb).push(root@));
                        } else {
                            removed.push(root.clone());
                            assert(strings_view(removed@) =~= strings_view(rb).push(root@));
                        }
                        assert forall|x: Seq<char>| #[trigger] t1.contains(x) implies t.contains(x) || x == root@ by {
                            let q = choose|q: int| 0 <= q < t1.len() && t1[q] == x;
                            if q < t.len() {
                                assert(t[q] == x);
                            }
                        }
                        assert forall|x: Seq<char>| #[trigger] t.contains(x) implies t1.contains(x) by {
                            let q = choose|q: int| 0 <= q < t.len() && t[q] == x;
                            assert(t1[q] == x);
                        }
                        assert(t1.contains(root@)) by {
                            assert(t1[j as int] == root@);
                        }
                        assert forall|x: Seq<char>| #[trigger] strings_view(removed@).contains(x) <==> (
                            strings_view(before_removed).contains(x) || (t1.contains(x) && !keep(x))) by {
                            if !b {
                                if strings_view(removed@).contains(x) {
                                    let q = choose|q: int| 0 <= q < strings_view(removed@).len() && strings_view(removed@)[q] == x;
                                    if q < strings_view(rb).len() {
                                        assert(strings_view(rb)[q] == x);
                                        assert(strings_view(rb).contains(x));
                                    }
                                }
                                if strings_view(rb).contains(x) {
                                    let q = choose|q: int| 0 <= q < strings_view(rb).len() && strings_view(rb)[q] == x;
                                    assert(strings_view(removed@)[q] == x);
                                }
                                if x == root@ {
                                    assert(strings_view(removed@)[strings_view(removed@).len() - 1] == x);
                                }
                            }
                        }
                        j = j + 1;
                    }
                    assert(sv.take(v@.len() as int) =~= sv);
                    assert(start.records()[sid@] == rec);
                    assert(start.reported()[sid@] == sv);
                    proof {
                        lemma_keep_roots(sv, keep);
                    }
                    if kept.len() < vlen {
                        let mut rec2 = rec;
                        if kept.len() == 0 {
                            rec2.roots = None;
                            rec2.last_resolution = None;
                            rec2.last_probe = None;
                            rec2.first_seen = None;
                        } else {
                            rec2.roots = Some(kept);
                        }
                        assert(forget_record(orig, rec2, keep));
                        self.store(sid.as_str(), rec2);
                    }
                },
            }
            proof {
                assert forall|i: int| n <= i < all.len() implies forget_record(
                    start.records()[#[trigger] all[i].0@], self.records()[all[i].0@], keep) by {
                    if i > n {
                        assert(all[i].0@ != all[n].0@);
                    }
                }
                assert forall|i: int| 0 <= i < n implies self.records()[#[trigger] all[i].0@] == start.records()[all[i].0@] by {
                    assert(all[i].0@ != all[n].0@);
                }
                assert forall|x: Seq<char>| #[trigger] strings_view(removed@).contains(x) <==> exists|i: int|
                    n <= i < all.len() && start.reported().contains_key(#[trigger] all[i].0@)
                    && start.reported()[all[i].0@].contains(x) && !keep(x) by {
                    if strings_view(removed@).contains(x) && !strings_view(before_removed).contains(x) {
                        assert(start.reported().contains_key(all[n].0@));
                    }
                }
            }
        }
        proof {
            assert forall|k: Seq<char>| #[trigger] start.records().contains_key(k) implies forget_record(
                start.records()[k], self.records()[k], keep) by {
                let i = choose|i: int| 0 <= i < all.len() && #[trigger] all[i].0@ == k;
            }
            Self::lemma_forgotten(start, *self, keep);
            assert forall|x: Seq<char>| #[trigger] strings_view(removed@).contains(x) <==> start.dropped_by(keep, x) by {
                if start.dropped_by(keep, x) {
                    let sid = choose|sid: Seq<char>| start.reported().contains_key(sid) && #[trigger] start.reported()[sid].contains(x) && !keep(x);
                    assert(start.records().contains_key(sid));
                    let i = choose|i: int| 0 <= i < all.len() && #[trigger] all[i].0@ == sid;
                }
            }
            assert forall|sid: Seq<char>, x: Seq<char>|
                start.reported().contains_key(sid) && #[trigger] start.reported()[sid].contains(x) implies asked(is_mapped, x) by {
                assert(start.records().contains_key(sid));
                let i = choose|i: int| 0 <= i < all.len() && #[trigger] all[i].0@ == sid;
            }
        }
        assert(removed.deep_view() =~= strings_view(removed@));
        let dropped = sorted_unique(&removed);
        assert(dropped.deep_view() =~= strings_view(dropped@));
        dropped
    }

    /// Drop one root from every session that reported it; sessions left
    /// without roots are forgotten as in [`Self::forget_unmapped_roots`].
    /// Returns whether any session held the root.
    pub fn forget_root(&mut self, root: &str) -> (found: bool)
        ensures
            old(self).forgotten(*final(self), |x: Seq<char>| x != normalized_root(root@)),
            found == exists|sid: Seq<char>| old(self).reported().contains_key(sid)
                && #[trigger] old(self).reported()[sid].contains(normalized_root(root@)),
    {
        let normalized = normalize_workspace_root(root);
        let target = chars_of(normalized.as_str());
        let ghost n = normalized@;
        let is_mapped = |r: &str| -> (b: bool)
            ensures
                b == (r@ != target@),
            {
                !str_is(r, &target)
            };
        let ghost start = *self;
        let dropped = self.forget_unmapped_roots(is_mapped);
        proof {
            let k1 = mapped_pred(is_mapped);
            let k2 = |x: Seq<char>| x != n;
            assert forall|sid: Seq<char>, x: Seq<char>|
                start.reported().contains_key(sid) && #[trigger] start.reported()[sid].contains(x) implies k1(x) == k2(x) by {
                assert(asked(is_mapped, x));
                let w = choose|w: &str|
                    #![trigger is_mapped.ensures((w,), true)]
                    #![trigger is_mapped.ensures((w,), false)]
                    w@ == x && (is_mapped.ensures((w,), true) || is_mapped.ensures((w,), false));
                if is_mapped.ensures((w,), true) {
                    assert(mapped_by(is_mapped, x));
                } else {
                    if mapped_by(is_mapped, x) {
                        let u = choose|u: &str| u@ == x && #[trigger] is_mapped.ensures((u,), true);
                    }
                }
            }
            Self::lemma_forgotten_agree(start, *self, k1, k2);
            if exists|sid: Seq<char>| start.reported().contains_key(sid) && #[trigger] start.reported()[sid].contains(n) {
                let sid = choose|sid: Seq<char>| start.reported().contains_key(sid) && #[trigger] start.reported()[sid].contains(n);
                assert(start.dropped_by(k2, n));
                assert(strings_view(dropped@).contains(n));
            }
            if strings_view(dropped@).len() > 0 {
                let x = strings_view(dropped@)[0];
                assert(strings_view(dropped@).contains(x));
                assert(start.dropped_by(k2, x));
            }
        }
        dropped.len() > 0
    }

    /// Every root reported by any session, sorted and deduplicated.
    pub fn list_all_roots(&self) -> (r: Vec<String>)
        ensures
            strictly_sorted(strings_view(r@)),
            forall|x: Seq<char>| #[trigger] strings_view(r@).contains(x) <==> exists|sid: Seq<char>|
                self.reported().contains_key(sid) && #[trigger] self.reported()[sid].contains(x),
    {
        let entries = session_entries(&self.sessions);
        let mut out: Vec<String> = Vec::new();
        let mut i: usize = 0;
        while i < entries.len()
            invariant
                i <= entries@.len(),
                forall|a: int| 0 <= a < entries@.len() ==> self.records().contains_key(#[trigger] entries@[a].0@)
                    && self.records()[entries@[a].0@] == entries@[a].1,
                forall|x: Seq<char>| #[trigger] strings_view(out@).contains(x) <==> exists|a: int|
                    0 <= a < i && self.reported().contains_key(#[trigger] entries@[a].0@)
                    && self.reported()[entries@[a].0@].contains(x),
            decreases entries.len() - i,
        {
            let ghost ob = out@;
            match &entries[i].1.roots {
                None => {},
                Some(v) => {
                    let ghost sv = strings_view(v@);
                    assert(self.reported()[entries@[i as int].0@] == sv);
                    let mut j: usize = 0;
                    while j < v.len()
                        invariant
                            j <= v@.len(),
                            sv == strings_view(v@),
                            forall|x: Seq<char>| #[trigger] strings_view(out@).contains(x) <==> (
                                strings_view(ob).contains(x) || sv.take(j as int).contains(x)),
                        decreases v.len() - j,
                    {
                        let ghost o2 = out@;
                        out.push(v[j].clone());
                        proof {
                            let t = sv.take(j as int);
                            let t1 = sv.take(j + 1);
                            assert(strings_view(out@) =~= strings_view(o2).push(v@[j as int]@));
                            assert(t1 =~= t.push(v@[j as int]@));
                            lemma_push_contains(strings_view(o2), v@[j as int]@);
                            lemma_push_contains(t, v@[j as int]@);
                            assert forall|x: Seq<char>| #[trigger] strings_view(out@).contains(x) <==> (
                                strings_view(ob).contains(x) || t1.contains(x)) by {
                                assert(strings_view(o2).contains(x) <==> (strings_view(ob).contains(x) || t.contains(x)));
                            }
                        }
                        j = j + 1;
                    }
                    assert(sv.take(v@.len() as int) =~= sv);
                },
            }
            i = i + 1;
        }
        proof {
            assert forall|x: Seq<char>| #[trigger] strings_view(out@).contains(x) <==> exists|sid: Seq<char>|
                self.reported().contains_key(sid) && #[trigger] self.reported()[sid].contains(x) by {
                if exists|sid: Seq<char>| self.reported().contains_key(sid) && #[trigger] self.reported()[sid].contains(x) {
                    let sid = choose|sid: Seq<char>| self.reported().contains_key(sid) && #[trigger] self.reported()[sid].contains(x);
                    assert(self.records().contains_key(sid));
                    let a = choose|a: int| 0 <= a < entries@.len() && #[trigger] entries@[a].0@ == sid;
                }
            }
        }
        assert(out.deep_view() =~= strings_view(out@));
        let r = sorted_unique(&out);
        assert(r.deep_view() =~= strings_view(r@));
        r
    }

    /// Evict the cached search index of every session that reported
    /// `workspace_root`.
    pub fn evict_search_cache_for_workspace_root(&mut self, workspace_root: &str)
        ensures
            final(self).search_cache() == Map::new(
                |sid: Seq<char>| old(self).search_cache().contains_key(sid) && !(old(self).reported().contains_key(sid)
                    && old(self).reported()[sid].contains(normalized_root(workspace_root@))),
                |sid: Seq<char>| old(self).search_cache()[sid],
            ),
            final(self).pinned() == old(self).pinned(),
            final(self).last_resolution() == old(self).last_resolution(),
            final(self).reported() == old(self).reported(),
            final(self).candidates() == old(self).candidates(),
            final(self).same_probe_state(*old(self)),
            final(self).same_pending(*old(self)),
    {
        let normalized = normalize_workspace_root(workspace_root);
        let ghost n = normalized@;
        let ghost start = *self;
        let mut entries = session_entries(&self.sessions);
        let ghost all = entries@;
        proof {
            assert(all.take(all.len() as int) =~= all);
        }
        while entries.len() > 0
            invariant
                entries@ == all.take(entries@.len() as int),
                entries@.len() <= all.len(),
                n == normalized@,
                forall|i: int, j: int| 0 <= i < j < all.len() ==> #[trigger] all[i].0@ != #[trigger] all[j].0@,
                forall|i: int| 0 <= i < all.len() ==> start.records().contains_key(#[trigger] all[i].0@)
                    && start.records()[all[i].0@] == all[i].1,
                forall|k: Seq<char>| #[trigger] start.records().contains_key(k) ==> exists|i: int| 0 <= i < all.len() && #[trigger] all[i].0@ == k,
                self.records().dom() == start.records().dom(),
                self.client_records() == start.client_records(),
                forall|i: int| entries@.len() <= i < all.len() ==> self.records()[#[trigger] all[i].0@]
                    == Self::evicted(start.records()[all[i].0@], n),
                forall|i: int| 0 <= i < entries@.len() ==> self.records()[#[trigger] all[i].0@] == start.records()[all[i].0@],
            decreases entries.len(),
        {
            let (sid, rec) = entries.pop().unwrap();
            let ghost k = entries@.len() as int;
            assert(all[k] == (sid, rec));
            let hit = match &rec.roots {
                Some(v) => strings_contain(v, &normalized),
                None => false,
            };
            if hit {
                let mut rec2 = rec;
                rec2.search_cache = None;
                self.store(sid.as_str(), rec2);
            }
            proof {
                assert forall|i: int| k <= i < all.len() implies self.records()[#[trigger] all[i].0@]
                    == Self::evicted(start.records()[all[i].0@], n) by {
                    if i > k {
                        assert(all[i].0@ != all[k].0@);
                    }
                }
                assert forall|i: int| 0 <= i < k implies self.records()[#[trigger] all[i].0@] == start.records()[all[i].0@] by {
                    assert(all[i].0@ != all[k].0@);
                }
            }
        }
        proof {
            let sr = start.records();
            let nr = self.records();
            assert forall|key: Seq<char>| #[trigger] sr.contains_key(key) implies nr[key] == Self::evicted(sr[key], n) by {
                let i = choose|i: int| 0 <= i < all.len() && #[trigger] all[i].0@ == key;
            }
            let target = Map::new(
                |sid: Seq<char>| start.search_cache().contains_key(sid) && !(start.reported().contains_key(sid)
                    && start.reported()[sid].contains(n)),
                |sid: Seq<char>| start.search_cache()[sid],
            );
            assert(self.search_cache() =~= target);
            assert(self.pinned() =~= start.pinned());
            assert(self.last_resolution() =~= start.last_resolution());
            assert(self.reported() =~= start.reported());
            assert(self.candidates() =~= start.candidates());
            assert(self.roots_capable() =~= start.roots_capable());
            assert(self.last_probe() =~= start.last_probe());
            assert(self.first_seen() =~= start.first_seen());
        }
    }

    /// Number of sessions with reported roots.
    pub fn len(&self) -> (n: usize)
        ensures
            self.reported().dom().finite(),
            n == self.reported().dom().len(),
    {
        let entries = session_entries(&self.sessions);
        let mut count: usize = 0;
        let ghost mut keys: Seq<Seq<char>> = Seq::empty();
        let mut i: usize = 0;
        while i < entries.len()
            invariant
                i <= entries@.len(),
                count == keys.len(),
                count <= i,
                keys.no_duplicates(),
                forall|a: int, b: int| 0 <= a < b < entries@.len() ==> #[trigger] entries@[a].0@ != #[trigger] entries@[b].0@,
                forall|a: int| 0 <= a < entries@.len() ==> self.records().contains_key(#[trigger] entries@[a].0@)
                    && self.records()[entries@[a].0@] == entries@[a].1,
                forall|x: Seq<char>| #[trigger] keys.contains(x) <==> exists|a: int|
                    0 <= a < i && #[trigger] entries@[a].0@ == x && entries@[a].1.roots is Some,
            decreases entries.len() - i,
        {
            if entries[i].1.roots.is_some() {
                proof {
                    lemma_push_contains(keys, entries@[i as int].0@);
                    assert forall|q: int| 0 <= q < keys.len() implies keys[q] != entries@[i as int].0@ by {
                        assert(keys.contains(keys[q]));
                    }
                    keys = keys.push(entries@[i as int].0@);
                }
                count = count + 1;
            }
            i = i + 1;
        }
        proof {
            assert forall|x: Seq<char>| #[trigger] keys.to_set().contains(x) <==> self.reported().dom().contains(x) by {
                if self.reported().dom().contains(x) {
                    let a = choose|a: int| 0 <= a < entries@.len() && #[trigger] entries@[a].0@ == x;
                    assert(keys.contains(x));
                }
            }
            assert(keys.to_set() =~= self.reported().dom());
            keys.unique_seq_to_set();
        }
        count
    }

    /// Whether no session has reported roots.
    pub fn is_empty(&self) -> (b: bool)
        ensures
            b == (self.reported().dom().len() == 0),
    {
        self.len() == 0
    }
}

impl Default for SessionRootsRegistry {
    fn default() -> (r: Self)
        ensures
            r.reported().dom() == Set::<Seq<char>>::empty(),
            r.records().dom() == Set::<Seq<char>>::empty(),
            r.client_records().dom() == Set::<Seq<char>>::empty(),
    {
        Self::new()
    }
}

} // verus!

verus! {

/// A pinned root shadows the reported roots: once `raw` is pinned to
/// `sid`, storing any reported roots for `sid` leaves [`SessionRootsRegistry::get`]
/// answering the pinned root alone.
pub proof fn law_pin_shadows_reported(
    a: SessionRootsRegistry,
    b: SessionRootsRegistry,
    c: SessionRootsRegistry,
    sid: Seq<char>,
    raw: Seq<char>,
    roots: Seq<Seq<char>>,
)
    requires
        normalized_root(raw).len() > 0,
        a.pinned_to(b, sid, raw),
        c.reported() == b.reported().insert(sid, roots),
        c.same_pin_state(b),
    ensures
        c.effective_roots(sid) == Some(seq![normalized_root(raw)]),
{
}

/// Recording a resolution twice in a row reports a change at most once:
/// after recording `v`, recording `v` again finds it unchanged.
pub proof fn law_resolution_recorded_once(last: Map<Seq<char>, Option<Seq<char>>>, sid: Seq<char>, v: Option<Seq<char>>)
    ensures
        last.insert(sid, v).contains_key(sid) && last.insert(sid, v)[sid] == v,
{
}

/// After [`SessionRootsRegistry::remove`] nothing of the session is left:
/// no roots, no pin, no snapshot (so the next resolution counts as a
/// change), no folder set (so every root is a candidate again).
pub proof fn law_remove_forgets_session(a: SessionRootsRegistry, b: SessionRootsRegistry, sid: Seq<char>)
    requires
        b.reported() == a.reported().remove(sid),
        b.last_resolution() == a.last_resolution().remove(sid),
        b.pinned() == a.pinned().remove(sid),
        b.candidates() == a.candidates().remove(sid),
    ensures
        b.effective_roots(sid) is None,
        !b.last_resolution().contains_key(sid),
        !b.candidates().contains_key(sid),
{
}

/// Forgetting unmapped roots leaves a session whose roots are all accepted
/// untouched: same roots, same snapshot, same probe stamps.
pub proof fn law_forget_keeps_mapped_sessions(
    a: SessionRootsRegistry,
    b: SessionRootsRegistry,
    keep: spec_fn(Seq<char>) -> bool,
    sid: Seq<char>,
)
    requires
        a.forgotten(b, keep),
        a.reported().contains_key(sid),
        forall|x: Seq<char>| #[trigger] a.reported()[sid].contains(x) ==> keep(x),
    ensures
        b.reported().contains_key(sid),
        b.reported()[sid] == a.reported()[sid],
        b.last_resolution().contains_key(sid) == a.last_resolution().contains_key(sid),
        b.first_seen().contains_key(sid) == a.first_seen().contains_key(sid),
        b.effective_roots(sid) == a.effective_roots(sid),
{
    lemma_keep_roots(a.reported()[sid], keep);
}

/// Forgetting unmapped roots removes a session none of whose roots are
/// accepted, so its next request probes its roots again.
pub proof fn law_forget_drops_unmapped_sessions(
    a: SessionRootsRegistry,
    b: SessionRootsRegistry,
    keep: spec_fn(Seq<char>) -> bool,
    sid: Seq<char>,
)
    requires
        a.forgotten(b, keep),
        a.reported().contains_key(sid),
        a.reported()[sid].len() > 0,
        forall|x: Seq<char>| #[trigger] a.reported()[sid].contains(x) ==> !keep(x),
    ensures
        !b.reported().contains_key(sid),
        !b.last_resolution().contains_key(sid),
        !b.last_probe().contains_key(sid),
        !b.first_seen().contains_key(sid),
{
    lemma_keep_roots(a.reported()[sid], keep);
    let k = keep_roots(a.reported()[sid], keep);
    if k.len() > 0 {
        assert(k.contains(k[0]));
    }
}

proof fn lemma_candidate_paths_from_plain_pieces(pieces: Seq<Seq<char>>)
    ensures
        forall|c: Seq<char>| #[trigger] candidate_paths(pieces).contains(c) ==> exists|j: int|
            0 <= j < pieces.len() && !contains_seq(#[trigger] pieces[j], template_marker())
                && normalized_root(pieces[j]) == c,
    decreases pieces.len(),
{
    if pieces.len() > 0 {
        let d = pieces.drop_last();
        lemma_candidate_paths_from_plain_pieces(d);
        let rest = candidate_paths(d);
        let p = pieces.last();
        assert forall|c: Seq<char>| #[trigger] candidate_paths(pieces).contains(c) implies exists|j: int|
            0 <= j < pieces.len() && !contains_seq(#[trigger] pieces[j], template_marker())
                && normalized_root(pieces[j]) == c by {
            let all = candidate_paths(pieces);
            let k = choose|k: int| 0 <= k < all.len() && all[k] == c;
            if k < rest.len() {
                assert(rest[k] == c);
                assert(rest.contains(c));
                let j = choose|j: int|
                    0 <= j < d.len() && !contains_seq(#[trigger] d[j], template_marker())
                        && normalized_root(d[j]) == c;
                assert(pieces[j] == d[j]);
            } else {
                assert(pieces[pieces.len() - 1] == p);
            }
        }
    }
}

/// An unexpanded template never becomes a candidate: every folder that an
/// `X-Mcpmux-Workspace-Set` value parses to is the normalized form of one of
/// its comma-separated pieces that carries no `${`, so a value whose pieces
/// all carry one gives no candidates at all.
pub proof fn law_templates_never_become_candidates(raw: Seq<char>)
    ensures
        forall|c: Seq<char>| #[trigger] parsed_candidates(raw).contains(c) ==> exists|j: int|
            0 <= j < split_commas(raw).len() && !contains_seq(#[trigger] split_commas(raw)[j], template_marker())
                && normalized_root(split_commas(raw)[j]) == c,
        (forall|j: int| 0 <= j < split_commas(raw).len() ==> contains_seq(#[trigger] split_commas(raw)[j], template_marker()))
            ==> parsed_candidates(raw).len() == 0,
{
    let pieces = split_commas(raw);
    lemma_candidate_paths_from_plain_pieces(pieces);
    lemma_sorted_set_of_exists(candidate_paths(pieces));
    let q = parsed_candidates(raw);
    if q.len() > 0 && (forall|j: int| 0 <= j < pieces.len() ==> contains_seq(#[trigger] pieces[j], template_marker())) {
        assert(q.contains(q[0]));
        assert(candidate_paths(pieces).contains(q[0]));
    }
}

} // verus!
