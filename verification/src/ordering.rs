//! Lexicographic order on strings (the order of `String`'s `Ord`: by
//! Unicode scalar value, character by character) and sorted, deduplicated
//! string lists.

use vstd::prelude::*;
use crate::text::{chars_eq, chars_of};

verus! {

/// `a` sorts strictly before `b`.
pub open spec fn lex_lt(a: Seq<char>, b: Seq<char>) -> bool
    decreases a.len(),
{
    if b.len() == 0 {
        false
    } else if a.len() == 0 {
        true
    } else if a[0] != b[0] {
        a[0] < b[0]
    } else {
        lex_lt(a.drop_first(), b.drop_first())
    }
}

pub proof fn lemma_lex_irreflexive(a: Seq<char>)
    ensures
        !lex_lt(a, a),
    decreases a.len(),
{
    if a.len() > 0 {
        lemma_lex_irreflexive(a.drop_first());
    }
}

pub proof fn lemma_lex_transitive(a: Seq<char>, b: Seq<char>, c: Seq<char>)
    requires
        lex_lt(a, b),
        lex_lt(b, c),
    ensures
        lex_lt(a, c),
    decreases a.len(),
{
    if a.len() > 0 && b.len() > 0 && c.len() > 0 {
        if a[0] == b[0] && b[0] == c[0] {
            lemma_lex_transitive(a.drop_first(), b.drop_first(), c.drop_first());
        }
    }
}

pub proof fn lemma_lex_total(a: Seq<char>, b: Seq<char>)
    requires
        a != b,
    ensures
        lex_lt(a, b) || lex_lt(b, a),
    decreases a.len(),
{
    if a.len() > 0 && b.len() > 0 && a[0] == b[0] {
        if a.drop_first() == b.drop_first() {
            assert(a =~= seq![a[0]] + a.drop_first());
            assert(b =~= seq![b[0]] + b.drop_first());
        }
        lemma_lex_total(a.drop_first(), b.drop_first());
    } else if a.len() == 0 && b.len() == 0 {
        assert(a =~= b);
    }
}

pub proof fn lemma_lex_asymmetric(a: Seq<char>, b: Seq<char>)
    requires
        lex_lt(a, b),
    ensures
        !lex_lt(b, a),
    decreases a.len(),
{
    if a.len() > 0 && b.len() > 0 && a[0] == b[0] {
        lemma_lex_asymmetric(a.drop_first(), b.drop_first());
    }
}

/// Whether `a` sorts strictly before `b`.
pub fn lex_less(a: &[char], b: &[char]) -> (r: bool)
    ensures
        r == lex_lt(a@, b@),
{
    let mut i: usize = 0;
    assert(a@.skip(0) =~= a@);
    assert(b@.skip(0) =~= b@);
    while i < a.len() && i < b.len() && a[i] == b[i]
        invariant
            i <= a@.len(),
            i <= b@.len(),
            lex_lt(a@, b@) == lex_lt(a@.skip(i as int), b@.skip(i as int)),
        decreases a.len() - i,
    {
        proof {
            let sa = a@.skip(i as int);
            let sb = b@.skip(i as int);
            assert(sa.drop_first() =~= a@.skip(i + 1));
            assert(sb.drop_first() =~= b@.skip(i + 1));
        }
        i = i + 1;
    }
    if i == b.len() {
        return false;
    }
    if i == a.len() {
        return true;
    }
    proof {
        assert(a@.skip(i as int)[0] == a@[i as int]);
        assert(b@.skip(i as int)[0] == b@[i as int]);
    }
    a[i] < b[i]
}

/// Every element sorts strictly before every later one.
pub open spec fn strictly_sorted(s: Seq<Seq<char>>) -> bool {
    forall|i: int, j: int| 0 <= i < j < s.len() ==> lex_lt(#[trigger] s[i], #[trigger] s[j])
}

/// Two strictly sorted sequences with the same elements are equal.
pub proof fn lemma_sorted_unique_determined(a: Seq<Seq<char>>, b: Seq<Seq<char>>)
    requires
        strictly_sorted(a),
        strictly_sorted(b),
        forall|x: Seq<char>| a.contains(x) <==> b.contains(x),
    ensures
        a == b,
    decreases a.len(),
{
    if a.len() == 0 {
        if b.len() > 0 {
            assert(b.contains(b[0]));
        }
        assert(a =~= b);
    } else {
        assert(a.contains(a[0]));
        assert(b.len() > 0);
        assert(b.contains(b[0]));
        let ia = choose|i: int| 0 <= i < a.len() && a[i] == b[0];
        let ib = choose|i: int| 0 <= i < b.len() && b[i] == a[0];
        if a[0] != b[0] {
            assert(ia > 0 && ib > 0);
            assert(lex_lt(a[0], a[ia]));
            assert(lex_lt(b[0], b[ib]));
            lemma_lex_asymmetric(a[0], b[0]);
        }
        let a1 = a.drop_first();
        let b1 = b.drop_first();
        assert forall|x: Seq<char>| a1.contains(x) <==> b1.contains(x) by {
            if a1.contains(x) {
                let i = choose|i: int| 0 <= i < a1.len() && a1[i] == x;
                assert(a[i + 1] == x);
                assert(lex_lt(a[0], x));
                lemma_lex_irreflexive(x);
                assert(b.contains(x));
                let j = choose|j: int| 0 <= j < b.len() && b[j] == x;
                assert(j != 0);
                assert(b1[j - 1] == x);
            }
            if b1.contains(x) {
                let i = choose|i: int| 0 <= i < b1.len() && b1[i] == x;
                assert(b[i + 1] == x);
                assert(lex_lt(b[0], x));
                lemma_lex_irreflexive(x);
                assert(a.contains(x));
                let j = choose|j: int| 0 <= j < a.len() && a[j] == x;
                assert(j != 0);
                assert(a1[j - 1] == x);
            }
        }
        lemma_sorted_unique_determined(a1, b1);
        assert(a =~= seq![a[0]] + a1);
        assert(b =~= seq![b[0]] + b1);
    }
}

/// The elements of `s`, sorted and without duplicates.
pub open spec fn sorted_set_of(s: Seq<Seq<char>>) -> Seq<Seq<char>> {
    choose|q: Seq<Seq<char>>| strictly_sorted(q) && forall|x: Seq<char>| q.contains(x) <==> s.contains(x)
}

/// A strictly sorted sequence with the elements of `s` is `sorted_set_of(s)`.
pub proof fn lemma_sorted_set_of(q: Seq<Seq<char>>, s: Seq<Seq<char>>)
    requires
        strictly_sorted(q),
        forall|x: Seq<char>| q.contains(x) <==> s.contains(x),
    ensures
        sorted_set_of(s) == q,
{
    let c = sorted_set_of(s);
    assert(strictly_sorted(c) && forall|x: Seq<char>| c.contains(x) <==> s.contains(x));
    lemma_sorted_unique_determined(c, q);
}

/// `q` with `x` put in its place (unchanged when `x` is already there).
pub open spec fn insert_sorted(q: Seq<Seq<char>>, x: Seq<char>) -> Seq<Seq<char>>
    decreases q.len(),
{
    if q.len() == 0 {
        seq![x]
    } else if q[0] == x {
        q
    } else if lex_lt(x, q[0]) {
        seq![x] + q
    } else {
        seq![q[0]] + insert_sorted(q.drop_first(), x)
    }
}

proof fn lemma_insert_sorted(q: Seq<Seq<char>>, x: Seq<char>)
    requires
        strictly_sorted(q),
    ensures
        strictly_sorted(insert_sorted(q, x)),
        forall|y: Seq<char>| #[trigger] insert_sorted(q, x).contains(y) <==> (q.contains(y) || y == x),
    decreases q.len(),
{
    let r = insert_sorted(q, x);
    if q.len() == 0 {
        assert(r =~= seq![x]);
        assert forall|y: Seq<char>| r.contains(y) <==> (q.contains(y) || y == x) by {
            if r.contains(y) {
                let k = choose|k: int| 0 <= k < r.len() && r[k] == y;
                assert(k == 0);
            }
            if y == x {
                assert(r[0] == y);
            }
        }
    } else if q[0] == x {
        assert(q.contains(q[0]));
    } else if lex_lt(x, q[0]) {
        assert forall|i: int, j: int| 0 <= i < j < r.len() implies lex_lt(#[trigger] r[i], #[trigger] r[j]) by {
            if i == 0 {
                if j > 1 {
                    assert(lex_lt(q[0], q[j - 1]));
                    lemma_lex_transitive(x, q[0], q[j - 1]);
                }
            } else {
                assert(lex_lt(q[i - 1], q[j - 1]));
            }
        }
        assert forall|y: Seq<char>| r.contains(y) <==> (q.contains(y) || y == x) by {
            if r.contains(y) {
                let k = choose|k: int| 0 <= k < r.len() && r[k] == y;
                if k > 0 {
                    assert(q[k - 1] == y);
                }
            }
            if q.contains(y) {
                let k = choose|k: int| 0 <= k < q.len() && q[k] == y;
                assert(r[k + 1] == y);
            }
            if y == x {
                assert(r[0] == y);
            }
        }
    } else {
        let q1 = q.drop_first();
        assert forall|i: int, j: int| 0 <= i < j < q1.len() implies lex_lt(#[trigger] q1[i], #[trigger] q1[j]) by {
            assert(q1[i] == q[i + 1] && q1[j] == q[j + 1]);
        }
        lemma_insert_sorted(q1, x);
        let r1 = insert_sorted(q1, x);
        lemma_lex_total(x, q[0]);
        assert forall|y: Seq<char>| r1.contains(y) implies lex_lt(q[0], y) by {
            if q1.contains(y) {
                let k = choose|k: int| 0 <= k < q1.len() && q1[k] == y;
                assert(q[k + 1] == y);
                assert(lex_lt(q[0], q[k + 1]));
            }
        }
        assert forall|i: int, j: int| 0 <= i < j < r.len() implies lex_lt(#[trigger] r[i], #[trigger] r[j]) by {
            if i == 0 {
                assert(r[j] == r1[j - 1]);
                assert(r1.contains(r1[j - 1]));
            } else {
                assert(r[i] == r1[i - 1] && r[j] == r1[j - 1]);
            }
        }
        assert forall|y: Seq<char>| r.contains(y) <==> (q.contains(y) || y == x) by {
            if r.contains(y) {
                let k = choose|k: int| 0 <= k < r.len() && r[k] == y;
                if k > 0 {
                    assert(r1[k - 1] == y);
                    assert(r1.contains(y));
                    if q1.contains(y) {
                        let m = choose|m: int| 0 <= m < q1.len() && q1[m] == y;
                        assert(q[m + 1] == y);
                    }
                } else {
                    assert(q[0] == y);
                }
            }
            if q.contains(y) {
                let k = choose|k: int| 0 <= k < q.len() && q[k] == y;
                if k == 0 {
                    assert(r[0] == y);
                } else {
                    assert(q1[k - 1] == y);
                    assert(q1.contains(y));
                    assert(r1.contains(y));
                    let m = choose|m: int| 0 <= m < r1.len() && r1[m] == y;
                    assert(r[m + 1] == y);
                }
            }
            if y == x {
                assert(r1.contains(y));
                let m = choose|m: int| 0 <= m < r1.len() && r1[m] == y;
                assert(r[m + 1] == y);
            }
        }
    }
}

/// Every list of strings has a sorted, deduplicated form: `sorted_set_of(s)`
/// is strictly sorted and holds exactly the elements of `s`.
pub proof fn lemma_sorted_set_of_exists(s: Seq<Seq<char>>)
    ensures
        strictly_sorted(sorted_set_of(s)),
        forall|x: Seq<char>| sorted_set_of(s).contains(x) <==> s.contains(x),
    decreases s.len(),
{
    let q: Seq<Seq<char>> = if s.len() == 0 {
        Seq::empty()
    } else {
        lemma_sorted_set_of_exists(s.drop_last());
        let q1 = sorted_set_of(s.drop_last());
        lemma_insert_sorted(q1, s.last());
        insert_sorted(q1, s.last())
    };
    assert forall|x: Seq<char>| q.contains(x) <==> s.contains(x) by {
        if s.len() > 0 {
            let d = s.drop_last();
            if d.contains(x) {
                let k = choose|k: int| 0 <= k < d.len() && d[k] == x;
                assert(s[k] == x);
            }
            if s.contains(x) {
                let k = choose|k: int| 0 <= k < s.len() && s[k] == x;
                if k < s.len() - 1 {
                    assert(d[k] == x);
                }
            }
        }
    }
    lemma_sorted_set_of(q, s);
}

/// The strings of `v`, sorted and without duplicates.
pub fn sorted_unique(v: &Vec<String>) -> (r: Vec<String>)
    ensures
        strictly_sorted(r.deep_view()),
        forall|x: Seq<char>| r.deep_view().contains(x) <==> v.deep_view().contains(x),
        r.deep_view() == sorted_set_of(v.deep_view()),
{
    let mut out: Vec<String> = Vec::new();
    let ghost vs = v.deep_view();
    let mut i: usize = 0;
    while i < v.len()
        invariant
            i <= v@.len(),
            vs == v.deep_view(),
            strictly_sorted(out.deep_view()),
            forall|x: Seq<char>| out.deep_view().contains(x) <==> vs.take(i as int).contains(x),
        decreases v.len() - i,
    {
        let s = chars_of(v[i].as_str());
        assert(vs[i as int] == s@);
        let ghost os = out.deep_view();
        let ghost pre = vs.take(i as int);
        assert(forall|x: Seq<char>| os.contains(x) <==> pre.contains(x));
        let mut p: usize = 0;
        while p < out.len() && lex_less(&chars_of(out[p].as_str()), &s)
            invariant
                p <= out@.len(),
                os == out.deep_view(),
                forall|j: int| 0 <= j < p ==> lex_lt(#[trigger] os[j], s@),
            decreases out.len() - p,
        {
            p = p + 1;
        }
        let dup = p < out.len() && chars_eq(&chars_of(out[p].as_str()), &s);
        if dup {
            assert(os[p as int] == s@);
        }
        if !dup {
            proof {
                if p < os.len() {
                    assert(!lex_lt(os[p as int], s@));
                    assert(os[p as int] != s@);
                    lemma_lex_total(os[p as int], s@);
                    assert forall|j: int| p < j < os.len() implies lex_lt(s@, #[trigger] os[j]) by {
                        lemma_lex_transitive(s@, os[p as int], os[j]);
                    }
                }
            }
            out.insert(p, v[i].clone());
            proof {
                let ns = out.deep_view();
                assert(ns =~= os.insert(p as int, s@));
                assert forall|a: int, b: int| 0 <= a < b < ns.len() implies lex_lt(#[trigger] ns[a], #[trigger] ns[b]) by {
                    if b < p {
                    } else if b == p {
                    } else if a < p {
                        assert(lex_lt(os[a], s@));
                        assert(lex_lt(s@, os[b - 1])) by {
                            if b - 1 > p {
                            }
                        }
                        lemma_lex_transitive(os[a], s@, os[b - 1]);
                    } else if a == p {
                    } else {
                        assert(lex_lt(os[a - 1], os[b - 1]));
                    }
                }
            }
        }
        proof {
            let ns = out.deep_view();
            if dup {
                assert(ns == os);
            }
            let post = vs.take(i + 1);
            assert(post =~= pre.push(s@));
            assert forall|x: Seq<char>| ns.contains(x) <==> post.contains(x) by {
                if ns.contains(x) {
                    let k = choose|k: int| 0 <= k < ns.len() && ns[k] == x;
                    if dup {
                        assert(os.contains(x));
                    } else if k == p {
                        assert(post[i as int] == x);
                    } else if k < p {
                        assert(os[k] == x);
                        assert(os.contains(x));
                    } else {
                        assert(os[k - 1] == x);
                        assert(os.contains(x));
                    }
                    if os.contains(x) {
                        let m = choose|m: int| 0 <= m < pre.len() && pre[m] == x;
                        assert(post[m] == x);
                    }
                }
                if post.contains(x) {
                    let m = choose|m: int| 0 <= m < post.len() && post[m] == x;
                    if m < i {
                        assert(pre[m] == x);
                        assert(pre.contains(x));
                        let k = choose|k: int| 0 <= k < os.len() && os[k] == x;
                        if dup {
                            assert(ns[k] == x);
                        } else if k < p {
                            assert(ns[k] == x);
                        } else {
                            assert(ns[k + 1] == x);
                        }
                    } else {
                        if dup {
                            assert(ns[p as int] == x);
                        } else {
                            assert(ns[p as int] == x);
                        }
                    }
                }
            }
        }
        i = i + 1;
    }
    assert(vs.take(vs.len() as int) =~= vs);
    proof {
        lemma_sorted_set_of(out.deep_view(), vs);
    }
    out
}

} // verus!

verus! {

/// No element sorts strictly before an earlier one.
pub open spec fn sorted_le(s: Seq<Seq<char>>) -> bool {
    forall|i: int, j: int| 0 <= i < j < s.len() ==> !lex_lt(#[trigger] s[j], #[trigger] s[i])
}

/// The strings of `v` in ascending order, duplicates kept (`slice::sort`).
pub fn sort_strings(v: &Vec<String>) -> (r: Vec<String>)
    ensures
        sorted_le(r.deep_view()),
        r.deep_view().to_multiset() == v.deep_view().to_multiset(),
{
    let mut out: Vec<String> = Vec::new();
    let ghost vs = v.deep_view();
    let mut i: usize = 0;
    proof {
        assert(vs.take(0) =~= Seq::<Seq<char>>::empty());
        assert(out.deep_view() =~= Seq::<Seq<char>>::empty());
    }
    while i < v.len()
        invariant
            i <= v@.len(),
            vs == v.deep_view(),
            sorted_le(out.deep_view()),
            out.deep_view().to_multiset() == vs.take(i as int).to_multiset(),
        decreases v.len() - i,
    {
        let s = chars_of(v[i].as_str());
        assert(vs[i as int] == s@);
        let ghost os = out.deep_view();
        let mut p: usize = 0;
        while p < out.len() && !lex_less(&s, &chars_of(out[p].as_str()))
            invariant
                p <= out@.len(),
                os == out.deep_view(),
                forall|j: int| 0 <= j < p ==> !lex_lt(s@, #[trigger] os[j]),
            decreases out.len() - p,
        {
            p = p + 1;
        }
        proof {
            if p < os.len() {
                assert(lex_lt(s@, os[p as int]));
            }
        }
        out.insert(p, v[i].clone());
        proof {
            let ns = out.deep_view();
            assert(ns =~= os.insert(p as int, s@));
            assert forall|a: int, b: int| 0 <= a < b < ns.len() implies !lex_lt(#[trigger] ns[b], #[trigger] ns[a]) by {
                if b < p {
                } else if b == p {
                    assert(!lex_lt(s@, os[a]));
                } else if a < p {
                    // os[a] <= s < os[p] <= os[b - 1]
                    if lex_lt(os[b - 1], os[a]) {
                        assert(!lex_lt(s@, os[a]));
                        if os[a] == s@ {
                            assert(lex_lt(s@, os[p as int]));
                            if b - 1 > p {
                                assert(!lex_lt(os[b - 1], os[p as int]));
                                if os[b - 1] != os[p as int] {
                                    lemma_lex_total(os[b - 1], os[p as int]);
                                    lemma_lex_transitive(s@, os[p as int], os[b - 1]);
                                }
                            }
                            lemma_lex_asymmetric(s@, os[b - 1]);
                        } else {
                            lemma_lex_total(os[a], s@);
                            lemma_lex_transitive(os[b - 1], os[a], s@);
                            assert(lex_lt(s@, os[p as int]));
                            if b - 1 > p {
                                if os[b - 1] != os[p as int] {
                                    lemma_lex_total(os[b - 1], os[p as int]);
                                    lemma_lex_transitive(s@, os[p as int], os[b - 1]);
                                }
                            }
                            lemma_lex_asymmetric(s@, os[b - 1]);
                        }
                    }
                } else if a == p {
                    // s < os[p] <= os[b - 1]
                    assert(lex_lt(s@, os[p as int]));
                    if b - 1 > p {
                        assert(!lex_lt(os[b - 1], os[p as int]));
                        if os[b - 1] != os[p as int] {
                            lemma_lex_total(os[b - 1], os[p as int]);
                            lemma_lex_transitive(s@, os[p as int], os[b - 1]);
                        }
                    }
                    lemma_lex_asymmetric(s@, os[b - 1]);
                } else {
                    assert(!lex_lt(os[b - 1], os[a - 1]));
                }
            }
            assert(vs.take(i + 1) =~= vs.take(i as int).push(s@));
            vstd::seq_lib::to_multiset_insert(os, p as int, s@);
            vstd::seq_lib::to_multiset_build(vs.take(i as int), s@);
        }
        i = i + 1;
    }
    assert(vs.take(vs.len() as int) =~= vs);
    out
}

} // verus!
