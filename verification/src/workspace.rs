//! Workspace roots: normalization of reported roots and the
//! longest-prefix-wins match of a root against workspace bindings.
//!
//! Bindings are the middle tier of FeatureSet resolution (pin > workspace
//! binding > Space active FeatureSet). A client's reported `file://` roots
//! are normalized here and matched against the bindings of its Space.

use vstd::prelude::*;
use crate::text::{
    all_ws, ascii_lower, chars_eq, chars_of, find_char, first_index, has_char, is_blank, replace_all,
    replace_chars, slice_chars, starts_with, string_of, strip_end_char, to_ascii_lower, trim_end_char,
};

verus! {

/// Name for what `urlencoding::decode` returns for a string: its
/// percent-decoded text, or `None` when the decoded bytes are not UTF-8.
pub uninterp spec fn percent_decoded(s: Seq<char>) -> Option<Seq<char>>;

/// `urlencoding::decode`. The contract claims that the result is
/// [`percent_decoded`] of the input, and that a string without `%` comes back
/// unchanged (the crate returns it borrowed as is).
#[verifier::external_body]
fn url_decode(s: &str) -> (r: Option<String>)
    ensures
        r is Some ==> percent_decoded(s@) == Some(r->0@),
        r is None ==> percent_decoded(s@) is None,
        !has_char(s@, '%') ==> r is Some && r->0@ == s@,
{
    match urlencoding::decode(s) {
        Ok(decoded) => Some(decoded.into_owned()),
        Err(_) => None,
    }
}

/// The characters of `file://`.
pub open spec fn file_scheme() -> Seq<char> {
    seq!['f', 'i', 'l', 'e', ':', '/', '/']
}

/// Drop a leading `file://` and, in the host form `file://host/abs`, the
/// host component before the first `/`.
pub open spec fn strip_file_scheme(s: Seq<char>) -> Seq<char> {
    if file_scheme().is_prefix_of(s) {
        let rest = s.skip(7);
        match first_index(rest, '/') {
            Some(n) => rest.skip(n),
            None => rest,
        }
    } else {
        s
    }
}

/// The canonical form of a workspace root used for every binding
/// comparison: blank input gives the empty string; otherwise the `file://`
/// scheme is dropped, percent escapes are decoded, and trailing `/` are
/// removed, keeping `/` itself for the root.
pub open spec fn normalized_root(input: Seq<char>) -> Seq<char> {
    if all_ws(input) {
        Seq::empty()
    } else {
        let w = strip_file_scheme(input);
        let d = match percent_decoded(w) {
            Some(x) => x,
            None => w,
        };
        let t = strip_end_char(d, '/');
        if t.len() == 0 {
            seq!['/']
        } else {
            t
        }
    }
}

proof fn lemma_strip_end_char_shape(s: Seq<char>, c: char)
    ensures
        strip_end_char(s, c).len() <= s.len(),
        strip_end_char(s, c).len() > 0 ==> strip_end_char(s, c).last() != c,
    decreases s.len(),
{
    if s.len() > 0 && s.last() == c {
        lemma_strip_end_char_shape(s.drop_last(), c);
    }
}

/// `path` without trailing `/`, keeping `/` itself for the root.
pub open spec fn without_trailing_slashes(path: Seq<char>) -> Seq<char> {
    let t = strip_end_char(path, '/');
    if t.len() == 0 {
        seq!['/']
    } else {
        t
    }
}

/// Normalize an absolute filesystem path or `file://` URI into the
/// canonical form used for binding comparisons (POSIX paths). Text without
/// `%` needs no decoding: it normalizes to its path without trailing `/`.
pub fn normalize_workspace_root(input: &str) -> (r: String)
    ensures
        r@ == normalized_root(input@),
        r@.len() == 0 <==> all_ws(input@),
        r@.len() > 1 ==> r@.last() != '/',
        !all_ws(input@) && !has_char(input@, '%') ==> r@ == without_trailing_slashes(strip_file_scheme(input@)),
{
    let v = chars_of(input);
    if is_blank(&v) {
        return String::new();
    }
    let decoded = decoded_path(&v);
    let trimmed = trim_end_char(&decoded, '/');
    proof {
        lemma_strip_end_char_shape(decoded@, '/');
    }
    if trimmed.len() == 0 {
        let root: Vec<char> = vec!['/'];
        string_of(&root)
    } else {
        string_of(&trimmed)
    }
}

/// The path of a root: without its `file://` scheme (and host), percent
/// escapes decoded, or left as is when the decoded bytes are not UTF-8.
pub open spec fn decoded_root_path(input: Seq<char>) -> Seq<char> {
    let w = strip_file_scheme(input);
    match percent_decoded(w) {
        Some(x) => x,
        None => w,
    }
}

/// The path of a root (see [`decoded_root_path`]); text without `%` keeps
/// its path as is.
fn decoded_path(v: &Vec<char>) -> (r: Vec<char>)
    ensures
        r@ == decoded_root_path(v@),
        !has_char(v@, '%') ==> r@ == strip_file_scheme(v@),
{
    let scheme: Vec<char> = vec!['f', 'i', 'l', 'e', ':', '/', '/'];
    assert(scheme@ =~= file_scheme());
    let without_scheme: Vec<char> = if starts_with(v, &scheme) {
        let rest = slice_chars(v, 7, v.len());
        assert(rest@ =~= v@.skip(7));
        match find_char(&rest, '/') {
            Some(n) => {
                let w = slice_chars(&rest, n, rest.len());
                proof {
                    if has_char(w@, '%') {
                        let i = choose|i: int| 0 <= i < w@.len() && w@[i] == '%';
                        assert(v@[7 + n + i] == '%');
                    }
                }
                w
            },
            None => {
                proof {
                    if has_char(rest@, '%') {
                        let i = choose|i: int| 0 <= i < rest@.len() && rest@[i] == '%';
                        assert(v@[7 + i] == '%');
                    }
                }
                rest
            },
        }
    } else {
        copy_chars(v)
    };
    assert(!has_char(v@, '%') ==> !has_char(without_scheme@, '%'));
    let text = string_of(&without_scheme);
    match url_decode(text.as_str()) {
        Some(d) => chars_of(d.as_str()),
        None => without_scheme,
    }
}

fn copy_chars(v: &Vec<char>) -> (r: Vec<char>)
    ensures
        r@ == v@,
{
    slice_chars(v, 0, v.len())
}

/// An ASCII letter.
pub open spec fn is_ascii_alpha(c: char) -> bool {
    ('a' <= c && c <= 'z') || ('A' <= c && c <= 'Z')
}

/// `s` starts with a drive letter and `:` (`D:`).
pub open spec fn has_drive(s: Seq<char>) -> bool {
    s.len() >= 2 && is_ascii_alpha(s[0]) && s[1] == ':'
}

/// A decoded root path in Windows form: the leading `/` of `/D:/...` (what
/// `file:///D:/...` decodes to) dropped, every `/` turned into `\`, and the
/// drive letter lowercased so `D:\` and `d:\` compare equal.
pub open spec fn windows_path(d: Seq<char>) -> Seq<char> {
    let s = if d.len() > 0 && d[0] == '/' && has_drive(d.skip(1)) { d.skip(1) } else { d };
    let b = replace_all(s, seq!['/'], seq!['\\']);
    if has_drive(b) {
        b.update(0, ascii_lower(b[0]))
    } else {
        b
    }
}

/// The canonical form of a workspace root on Windows: blank input gives the
/// empty string; otherwise the path (see [`decoded_root_path`]) in Windows
/// form without trailing separators (every `/` has become `\`), keeping `\`
/// for the root and `d:\` for a bare drive.
pub open spec fn normalized_root_windows(input: Seq<char>) -> Seq<char> {
    if all_ws(input) {
        Seq::empty()
    } else {
        let t = strip_end_char(windows_path(decoded_root_path(input)), '\\');
        if t.len() == 0 {
            seq!['\\']
        } else if t.last() == ':' {
            t.push('\\')
        } else {
            t
        }
    }
}

/// The canonical form of a root on the given platform.
pub open spec fn normalized_root_for(input: Seq<char>, windows: bool) -> Seq<char> {
    if windows {
        normalized_root_windows(input)
    } else {
        normalized_root(input)
    }
}

fn is_ascii_letter(c: char) -> (b: bool)
    ensures
        b == is_ascii_alpha(c),
{
    ('a' <= c && c <= 'z') || ('A' <= c && c <= 'Z')
}

fn normalize_windows_root(input: &str) -> (r: String)
    ensures
        r@ == normalized_root_windows(input@),
{
    let v = chars_of(input);
    if is_blank(&v) {
        return String::new();
    }
    let d = decoded_path(&v);
    let s = if d.len() >= 3 && d[0] == '/' && is_ascii_letter(d[1]) && d[2] == ':' {
        slice_chars(&d, 1, d.len())
    } else {
        d
    };
    proof {
        let dd = decoded_root_path(input@);
        if dd.len() > 0 && dd[0] == '/' {
            assert(dd.skip(1).len() == dd.len() - 1);
            if dd.len() >= 3 {
                assert(dd.skip(1)[0] == dd[1] && dd.skip(1)[1] == dd[2]);
            }
        }
        assert(d@.len() >= 3 ==> d@.subrange(1, d@.len() as int) =~= d@.skip(1));
    }
    let slash: Vec<char> = vec!['/'];
    let back: Vec<char> = vec!['\\'];
    assert(slash@ =~= seq!['/']);
    assert(back@ =~= seq!['\\']);
    let mut c = replace_chars(&s, &slash, &back);
    if c.len() >= 2 && is_ascii_letter(c[0]) && c[1] == ':' {
        let l = to_ascii_lower(c[0]);
        c.set(0, l);
    }
    let t = trim_end_char(&c, '\\');
    if t.len() == 0 {
        let root: Vec<char> = vec!['\\'];
        string_of(&root)
    } else if t[t.len() - 1] == ':' {
        let mut u = t;
        u.push('\\');
        string_of(&u)
    } else {
        string_of(&t)
    }
}

/// Normalize a root on the given platform: [`normalize_workspace_root`] for
/// POSIX paths, and on Windows the same steps with Windows separators and
/// drive letters (see [`normalized_root_windows`]).
pub fn normalize_workspace_root_for(input: &str, windows: bool) -> (r: String)
    ensures
        r@ == normalized_root_for(input@, windows),
{
    if windows {
        normalize_windows_root(input)
    } else {
        normalize_workspace_root(input)
    }
}

/// UTF-8 length of a string (what `str::len` counts).
pub open spec fn byte_len(s: Seq<char>) -> nat {
    vstd::utf8::encode_utf8(s).len()
}

/// A path-component separator: `/`, and on Windows also `\`.
pub open spec fn is_separator(c: char, windows: bool) -> bool {
    c == '/' || (windows && c == '\\')
}

/// `candidate` is `query` itself or an ancestor of it at a path-component
/// boundary (`/a/b` covers `/a/b/c` but not `/a/b-extra`), with Windows
/// separators when `windows` holds.
pub open spec fn covers_on(candidate: Seq<char>, query: Seq<char>, windows: bool) -> bool {
    ||| query == candidate
    ||| (candidate.is_prefix_of(query) && query.len() > candidate.len()
        && is_separator(query[candidate.len() as int], windows))
}

/// [`covers_on`] for POSIX paths.
pub open spec fn covers(candidate: Seq<char>, query: Seq<char>) -> bool {
    covers_on(candidate, query, false)
}

/// `candidates[i]` is the binding root chosen for `query`: it covers the
/// query, no covering candidate is longer, and every covering candidate
/// before it is strictly shorter (the first of the longest wins).
pub open spec fn is_longest_cover_on(query: Seq<char>, candidates: Seq<Seq<char>>, i: int, windows: bool) -> bool {
    &&& 0 <= i < candidates.len()
    &&& covers_on(candidates[i], query, windows)
    &&& forall|j: int| 0 <= j < candidates.len() && covers_on(candidates[j], query, windows)
        ==> byte_len(candidates[j]) <= byte_len(candidates[i])
    &&& forall|j: int| 0 <= j < i && covers_on(candidates[j], query, windows)
        ==> byte_len(candidates[j]) < byte_len(candidates[i])
}

/// [`is_longest_cover_on`] for POSIX paths.
pub open spec fn is_longest_cover(query: Seq<char>, candidates: Seq<Seq<char>>, i: int) -> bool {
    is_longest_cover_on(query, candidates, i, false)
}

/// Whether `candidate` covers `query`, on character vectors.
fn covers_exec(candidate: &[char], query: &[char], windows: bool) -> (b: bool)
    ensures
        b == covers_on(candidate@, query@, windows),
{
    if chars_eq(query, candidate) {
        return true;
    }
    starts_with(query, candidate) && query.len() > candidate.len()
        && (query[candidate.len()] == '/' || (windows && query[candidate.len()] == '\\'))
}

/// The view of each string slice in `v`.
pub open spec fn strs_view(v: Seq<&str>) -> Seq<Seq<char>> {
    v.map_values(|s: &str| s@)
}

/// Returns the entry of `candidates` whose path is the longest prefix of
/// `query` at a component boundary (see [`is_longest_cover`]); `None` when
/// no candidate covers it. Both sides must already be normalized.
pub fn longest_prefix_match<'a>(query: &str, candidates: &[&'a str]) -> (r: Option<&'a str>)
    ensures
        r is None <==> forall|i: int| 0 <= i < candidates@.len() ==> !covers(#[trigger] candidates@[i]@, query@),
        r matches Some(x) ==> exists|i: int| is_longest_cover(query@, strs_view(candidates@), i)
            && candidates@[i] == x,
{
    longest_prefix_match_on(query, candidates, false)
}

/// [`longest_prefix_match`] with the separators of the given platform:
/// Windows paths also break components at `\`.
pub fn longest_prefix_match_on<'a>(query: &str, candidates: &[&'a str], windows: bool) -> (r: Option<&'a str>)
    ensures
        r is None <==> forall|i: int| 0 <= i < candidates@.len() ==> !covers_on(#[trigger] candidates@[i]@, query@, windows),
        r matches Some(x) ==> exists|i: int| is_longest_cover_on(query@, strs_view(candidates@), i, windows)
            && candidates@[i] == x,
{
    let q = chars_of(query);
    let mut best: Option<&'a str> = None;
    let mut best_len: usize = 0;
    let ghost mut best_idx: int = -1;
    let ghost cs = strs_view(candidates@);
    let mut i: usize = 0;
    while i < candidates.len()
        invariant
            i <= candidates@.len(),
            q@ == query@,
            cs == strs_view(candidates@),
            cs.len() == candidates@.len(),
            best is None <==> forall|k: int| 0 <= k < i ==> !covers_on(#[trigger] candidates@[k]@, query@, windows),
            best is Some ==> {
                &&& 0 <= best_idx < i
                &&& best == Some(candidates@[best_idx])
                &&& covers_on(cs[best_idx], query@, windows)
                &&& best_len == byte_len(cs[best_idx])
                &&& forall|j: int| 0 <= j < i && covers_on(cs[j], query@, windows) ==> byte_len(cs[j]) <= best_len
                &&& forall|j: int| 0 <= j < best_idx && covers_on(cs[j], query@, windows) ==> byte_len(cs[j]) < best_len
            },
        decreases candidates.len() - i,
    {
        let cand: &'a str = candidates[i];
        let c = chars_of(cand);
        assert(cs[i as int] == cand@);
        if covers_exec(&c, &q, windows) {
            let n = cand.as_bytes().len();
            assert(n == byte_len(cand@));
            if best.is_none() || n > best_len {
                best = Some(cand);
                best_len = n;
                proof {
                    best_idx = i as int;
                }
            }
        }
        i = i + 1;
    }
    proof {
        if best is Some {
            assert(is_longest_cover_on(query@, cs, best_idx, windows));
        }
    }
    best
}

/// At most one candidate is the longest cover of a query.
pub proof fn lemma_longest_cover_unique(query: Seq<char>, candidates: Seq<Seq<char>>, i: int, k: int)
    requires
        is_longest_cover(query, candidates, i),
        is_longest_cover(query, candidates, k),
    ensures
        i == k,
{
}

/// The binding root that `root` selects among `binding_roots`, if any.
pub open spec fn root_winner(binding_roots: Seq<Seq<char>>, root: Seq<char>) -> Option<Seq<char>> {
    if exists|i: int| is_longest_cover(root, binding_roots, i) {
        Some(binding_roots[choose|i: int| is_longest_cover(root, binding_roots, i)])
    } else {
        None
    }
}

/// The winning binding root across the reported `roots`: each root picks
/// its longest covering binding root, and a later root's pick replaces the
/// current one only when its UTF-8 length is strictly greater.
pub open spec fn best_root_winner(binding_roots: Seq<Seq<char>>, roots: Seq<Seq<char>>) -> Option<Seq<char>>
    decreases roots.len(),
{
    if roots.len() == 0 {
        None
    } else {
        let prev = best_root_winner(binding_roots, roots.drop_last());
        match root_winner(binding_roots, roots.last()) {
            None => prev,
            Some(w) => match prev {
                None => Some(w),
                Some(p) => if byte_len(w) > byte_len(p) {
                    Some(w)
                } else {
                    prev
                },
            },
        }
    }
}

/// Index of the first binding whose root is `w`.
pub open spec fn first_binding_with_root(binding_roots: Seq<Seq<char>>, w: Seq<char>) -> Option<int> {
    if exists|i: int| 0 <= i < binding_roots.len() && binding_roots[i] == w {
        Some(choose|i: int| 0 <= i < binding_roots.len() && binding_roots[i] == w
            && forall|j: int| 0 <= j < i ==> binding_roots[j] != w)
    } else {
        None
    }
}

/// The binding selected for a session that reported `roots`.
pub open spec fn binding_pick(binding_roots: Seq<Seq<char>>, roots: Seq<Seq<char>>) -> Option<int> {
    match best_root_winner(binding_roots, roots) {
        Some(w) => first_binding_with_root(binding_roots, w),
        None => None,
    }
}

/// Borrowed views of each string in `v`.
fn as_strs(v: &Vec<String>) -> (r: Vec<&str>)
    ensures
        strs_view(r@) == v.deep_view(),
        r@.len() == v@.len(),
{
    let mut r: Vec<&str> = Vec::new();
    let mut b: usize = 0;
    while b < v.len()
        invariant
            b <= v@.len(),
            strs_view(r@) =~= v.deep_view().take(b as int),
            r@.len() == b,
        decreases v.len() - b,
    {
        r.push(v[b].as_str());
        b = b + 1;
        assert(strs_view(r@) =~= v.deep_view().take(b as int));
    }
    assert(v.deep_view().take(v@.len() as int) =~= v.deep_view());
    r
}

/// Position of the first entry of `cands` equal to `w`.
fn first_equal(cands: &Vec<&str>, w: &str) -> (r: Option<usize>)
    ensures
        r matches Some(k) ==> k < cands@.len() && Some(k as int) == first_binding_with_root(strs_view(cands@), w@),
        r is None ==> first_binding_with_root(strs_view(cands@), w@) is None,
{
    let ghost brs = strs_view(cands@);
    let want = chars_of(w);
    let mut k: usize = 0;
    while k < cands.len()
        invariant
            k <= cands@.len(),
            brs == strs_view(cands@),
            brs.len() == cands@.len(),
            want@ == w@,
            forall|j: int| 0 <= j < k ==> brs[j] != w@,
        decreases cands.len() - k,
    {
        let here = chars_of(cands[k]);
        assert(brs[k as int] == cands@[k as int]@);
        if chars_eq(&here, &want) {
            proof {
                let f = choose|f: int| 0 <= f < brs.len() && brs[f] == w@
                    && forall|j: int| 0 <= j < f ==> brs[j] != w@;
                assert(0 <= k < brs.len() && brs[k as int] == w@);
                if f < k {
                } else if f > k {
                }
            }
            return Some(k);
        }
        k = k + 1;
    }
    None
}

/// One step of [`best_root_winner`]: the winner after also considering
/// `root`, given the winner `prev` for the roots before it.
proof fn lemma_best_step(brs: Seq<Seq<char>>, rs: Seq<Seq<char>>, i: int)
    requires
        0 <= i < rs.len(),
    ensures
        best_root_winner(brs, rs.take(i + 1)) == ({
            let prev = best_root_winner(brs, rs.take(i));
            match root_winner(brs, rs[i]) {
                None => prev,
                Some(w) => match prev {
                    None => Some(w),
                    Some(p) => if byte_len(w) > byte_len(p) {
                        Some(w)
                    } else {
                        prev
                    },
                },
            }
        }),
{
    assert(rs.take(i + 1).drop_last() =~= rs.take(i));
}

/// Index into `binding_roots` of the binding that wins for the reported
/// `roots` (longest-prefix-wins across every root; see [`binding_pick`]).
#[verifier::rlimit(40)]
pub fn find_longest_prefix_binding(binding_roots: &Vec<String>, roots: &Vec<String>) -> (r: Option<usize>)
    ensures
        r matches Some(k) ==> k < binding_roots@.len() && Some(k as int) == binding_pick(binding_roots.deep_view(), roots.deep_view()),
        r is None ==> binding_pick(binding_roots.deep_view(), roots.deep_view()) is None,
{
    let ghost brs = binding_roots.deep_view();
    let ghost rs = roots.deep_view();
    let cands = as_strs(binding_roots);
    let mut best: Option<&str> = None;
    let mut best_len: usize = 0;
    let mut i: usize = 0;
    while i < roots.len()
        invariant
            i <= roots@.len(),
            rs == roots.deep_view(),
            strs_view(cands@) == brs,
            best is None ==> best_root_winner(brs, rs.take(i as int)) is None,
            best matches Some(x) ==> best_root_winner(brs, rs.take(i as int)) == Some(x@)
                && best_len == byte_len(x@),
        decreases roots.len() - i,
    {
        let winner = longest_prefix_match(roots[i].as_str(), &cands);
        proof {
            lemma_best_step(brs, rs, i as int);
            let root = roots@[i as int]@;
            assert(rs[i as int] == root);
            match winner {
                Some(x) => {
                    let k = choose|k: int| is_longest_cover(root, strs_view(cands@), k) && cands@[k] == x;
                    let c = choose|c: int| is_longest_cover(root, brs, c);
                    lemma_longest_cover_unique(root, brs, k, c);
                    assert(root_winner(brs, root) == Some(x@));
                },
                None => {
                    if exists|c: int| is_longest_cover(root, brs, c) {
                        let c = choose|c: int| is_longest_cover(root, brs, c);
                        assert(!covers(cands@[c]@, root));
                    }
                    assert(root_winner(brs, root) is None);
                },
            }
        }
        match winner {
            Some(x) => {
                let n = x.as_bytes().len();
                if best.is_none() || n > best_len {
                    best = Some(x);
                    best_len = n;
                }
            },
            None => {},
        }
        i = i + 1;
    }
    assert(rs.take(rs.len() as int) =~= rs);
    match best {
        None => None,
        Some(w) => first_equal(&cands, w),
    }
}

proof fn lemma_longest_cover_exists(q: Seq<char>, cs: Seq<Seq<char>>)
    requires
        exists|i: int| 0 <= i < cs.len() && covers(#[trigger] cs[i], q),
    ensures
        exists|i: int| is_longest_cover(q, cs, i),
    decreases cs.len(),
{
    let d = cs.drop_last();
    let n = cs.len() - 1;
    if exists|i: int| 0 <= i < d.len() && covers(#[trigger] d[i], q) {
        lemma_longest_cover_exists(q, d);
        let i = choose|i: int| is_longest_cover(q, d, i);
        assert(d[i] == cs[i]);
        if covers(cs[n], q) && byte_len(cs[n]) > byte_len(cs[i]) {
            assert forall|j: int| 0 <= j < cs.len() && covers(cs[j], q) implies byte_len(cs[j]) <= byte_len(cs[n]) by {
                if j < n {
                    assert(d[j] == cs[j]);
                }
            }
            assert forall|j: int| 0 <= j < n && covers(cs[j], q) implies byte_len(cs[j]) < byte_len(cs[n]) by {
                assert(d[j] == cs[j]);
            }
            assert(is_longest_cover(q, cs, n));
        } else {
            assert forall|j: int| 0 <= j < cs.len() && covers(cs[j], q) implies byte_len(cs[j]) <= byte_len(cs[i]) by {
                if j < n {
                    assert(d[j] == cs[j]);
                }
            }
            assert forall|j: int| 0 <= j < i && covers(cs[j], q) implies byte_len(cs[j]) < byte_len(cs[i]) by {
                assert(d[j] == cs[j]);
            }
            assert(is_longest_cover(q, cs, i));
        }
    } else {
        let i = choose|i: int| 0 <= i < cs.len() && covers(#[trigger] cs[i], q);
        if i < n {
            assert(d[i] == cs[i]);
        }
        assert forall|j: int| 0 <= j < n implies !covers(#[trigger] cs[j], q) by {
            assert(d[j] == cs[j]);
        }
        assert(is_longest_cover(q, cs, n));
    }
}

proof fn lemma_first_with_root(brs: Seq<Seq<char>>, w: Seq<char>)
    requires
        exists|i: int| 0 <= i < brs.len() && brs[i] == w,
    ensures
        exists|i: int| 0 <= i < brs.len() && brs[i] == w && forall|j: int| 0 <= j < i ==> brs[j] != w,
    decreases brs.len(),
{
    let d = brs.drop_last();
    if exists|i: int| 0 <= i < d.len() && d[i] == w {
        lemma_first_with_root(d, w);
        let i = choose|i: int| 0 <= i < d.len() && d[i] == w && forall|j: int| 0 <= j < i ==> d[j] != w;
        assert(brs[i] == w);
        assert forall|j: int| 0 <= j < i implies brs[j] != w by {
            assert(d[j] == brs[j]);
        }
    } else {
        let n = brs.len() - 1;
        let k = choose|i: int| 0 <= i < brs.len() && brs[i] == w;
        if k < n {
            assert(d[k] == brs[k]);
        }
        assert forall|j: int| 0 <= j < n implies brs[j] != w by {
            assert(d[j] == brs[j]);
        }
    }
}

/// A root's winner exists exactly when some binding covers the root.
proof fn lemma_root_winner(brs: Seq<Seq<char>>, r: Seq<char>)
    ensures
        root_winner(brs, r) is Some <==> exists|i: int| 0 <= i < brs.len() && covers(#[trigger] brs[i], r),
        root_winner(brs, r) matches Some(w) ==> exists|i: int| 0 <= i < brs.len() && brs[i] == w,
{
    if exists|i: int| 0 <= i < brs.len() && covers(#[trigger] brs[i], r) {
        lemma_longest_cover_exists(r, brs);
    }
    if exists|i: int| is_longest_cover(r, brs, i) {
        let i = choose|i: int| is_longest_cover(r, brs, i);
        assert(covers(brs[i], r));
    }
}

proof fn lemma_best_root_winner(brs: Seq<Seq<char>>, roots: Seq<Seq<char>>)
    ensures
        best_root_winner(brs, roots) is None <==> forall|j: int| 0 <= j < roots.len() ==> #[trigger] root_winner(brs, roots[j]) is None,
        best_root_winner(brs, roots) matches Some(w) ==> exists|j: int| {
            &&& 0 <= j < roots.len()
            &&& root_winner(brs, roots[j]) == Some(w)
            &&& forall|j2: int| 0 <= j2 < roots.len() ==> (#[trigger] root_winner(brs, roots[j2]) matches Some(x) ==> byte_len(x) <= byte_len(w))
            &&& forall|j2: int| 0 <= j2 < j ==> (#[trigger] root_winner(brs, roots[j2]) matches Some(x) ==> byte_len(x) < byte_len(w))
        },
    decreases roots.len(),
{
    if roots.len() > 0 {
        let d = roots.drop_last();
        let n = roots.len() - 1;
        lemma_best_root_winner(brs, d);
        assert forall|j: int| 0 <= j < n implies #[trigger] roots[j] == d[j] by {}
        let prev = best_root_winner(brs, d);
        match root_winner(brs, roots[n]) {
            None => {
                if let Some(p) = prev {
                    let j = choose|j: int| {
                        &&& 0 <= j < d.len()
                        &&& root_winner(brs, d[j]) == Some(p)
                        &&& forall|j2: int| 0 <= j2 < d.len() ==> (#[trigger] root_winner(brs, d[j2]) matches Some(x) ==> byte_len(x) <= byte_len(p))
                        &&& forall|j2: int| 0 <= j2 < j ==> (#[trigger] root_winner(brs, d[j2]) matches Some(x) ==> byte_len(x) < byte_len(p))
                    };
                    assert(roots[j] == d[j]);
                    assert forall|j2: int| 0 <= j2 < roots.len() implies (#[trigger] root_winner(brs, roots[j2]) matches Some(x) ==> byte_len(x) <= byte_len(p)) by {
                        if j2 < n {
                            assert(roots[j2] == d[j2]);
                        }
                    }
                    assert forall|j2: int| 0 <= j2 < j implies (#[trigger] root_winner(brs, roots[j2]) matches Some(x) ==> byte_len(x) < byte_len(p)) by {
                        assert(roots[j2] == d[j2]);
                    }
                } else {
                    assert forall|j: int| 0 <= j < roots.len() implies #[trigger] root_winner(brs, roots[j]) is None by {
                        if j < n {
                            assert(roots[j] == d[j]);
                        }
                    }
                }
            },
            Some(w) => {
                match prev {
                    None => {
                        assert forall|j2: int| 0 <= j2 < roots.len() implies (#[trigger] root_winner(brs, roots[j2]) matches Some(x) ==> byte_len(x) <= byte_len(w)) by {
                            if j2 < n {
                                assert(roots[j2] == d[j2]);
                            }
                        }
                        assert forall|j2: int| 0 <= j2 < n implies (#[trigger] root_winner(brs, roots[j2]) matches Some(x) ==> byte_len(x) < byte_len(w)) by {
                            assert(roots[j2] == d[j2]);
                        }
                    },
                    Some(p) => {
                        let j = choose|j: int| {
                            &&& 0 <= j < d.len()
                            &&& root_winner(brs, d[j]) == Some(p)
                            &&& forall|j2: int| 0 <= j2 < d.len() ==> (#[trigger] root_winner(brs, d[j2]) matches Some(x) ==> byte_len(x) <= byte_len(p))
                            &&& forall|j2: int| 0 <= j2 < j ==> (#[trigger] root_winner(brs, d[j2]) matches Some(x) ==> byte_len(x) < byte_len(p))
                        };
                        assert(roots[j] == d[j]);
                        if byte_len(w) > byte_len(p) {
                            assert forall|j2: int| 0 <= j2 < roots.len() implies (#[trigger] root_winner(brs, roots[j2]) matches Some(x) ==> byte_len(x) <= byte_len(w)) by {
                                if j2 < n {
                                    assert(roots[j2] == d[j2]);
                                }
                            }
                            assert forall|j2: int| 0 <= j2 < n implies (#[trigger] root_winner(brs, roots[j2]) matches Some(x) ==> byte_len(x) < byte_len(w)) by {
                                assert(roots[j2] == d[j2]);
                            }
                        } else {
                            assert forall|j2: int| 0 <= j2 < roots.len() implies (#[trigger] root_winner(brs, roots[j2]) matches Some(x) ==> byte_len(x) <= byte_len(p)) by {
                                if j2 < n {
                                    assert(roots[j2] == d[j2]);
                                }
                            }
                            assert forall|j2: int| 0 <= j2 < j implies (#[trigger] root_winner(brs, roots[j2]) matches Some(x) ==> byte_len(x) < byte_len(p)) by {
                                assert(roots[j2] == d[j2]);
                            }
                        }
                    },
                }
            },
        }
    }
}

/// The binding chosen across several reported roots: none exactly when no
/// binding covers any root; otherwise the first binding with the root that
/// is the longest cover of some reported root, no root's longest cover being
/// longer, and the first such root winning ties.
pub proof fn law_binding_choice(brs: Seq<Seq<char>>, roots: Seq<Seq<char>>)
    ensures
        binding_pick(brs, roots) is None <==> forall|j: int, i: int|
            0 <= j < roots.len() && 0 <= i < brs.len() ==> !covers(#[trigger] brs[i], #[trigger] roots[j]),
        binding_pick(brs, roots) matches Some(k) ==> {
            &&& 0 <= k < brs.len()
            &&& forall|i: int| 0 <= i < k ==> brs[i] != brs[k]
            &&& exists|j: int| {
                &&& 0 <= j < roots.len()
                &&& root_winner(brs, roots[j]) == Some(brs[k])
                &&& forall|j2: int| 0 <= j2 < roots.len() ==> (#[trigger] root_winner(brs, roots[j2]) matches Some(x) ==> byte_len(x) <= byte_len(brs[k]))
                &&& forall|j2: int| 0 <= j2 < j ==> (#[trigger] root_winner(brs, roots[j2]) matches Some(x) ==> byte_len(x) < byte_len(brs[k]))
            }
        },
        forall|r: Seq<char>| #[trigger] root_winner(brs, r) matches Some(w) ==> exists|i: int| is_longest_cover(r, brs, i) && brs[i] == w,
{
    lemma_best_root_winner(brs, roots);
    assert forall|j: int| 0 <= j < roots.len() implies
        (#[trigger] root_winner(brs, roots[j]) is None <==> forall|i: int| 0 <= i < brs.len() ==> !covers(#[trigger] brs[i], roots[j])) by {
        lemma_root_winner(brs, roots[j]);
    }
    match best_root_winner(brs, roots) {
        Some(w) => {
            let j = choose|j: int| {
                &&& 0 <= j < roots.len()
                &&& root_winner(brs, roots[j]) == Some(w)
                &&& forall|j2: int| 0 <= j2 < roots.len() ==> (#[trigger] root_winner(brs, roots[j2]) matches Some(x) ==> byte_len(x) <= byte_len(w))
                &&& forall|j2: int| 0 <= j2 < j ==> (#[trigger] root_winner(brs, roots[j2]) matches Some(x) ==> byte_len(x) < byte_len(w))
            };
            lemma_root_winner(brs, roots[j]);
            lemma_first_with_root(brs, w);
            let k = binding_pick(brs, roots)->0;
            assert(brs[k] == w);
            let i0 = choose|i: int| 0 <= i < brs.len() && covers(#[trigger] brs[i], roots[j]);
            assert(!(forall|j3: int, i: int| 0 <= j3 < roots.len() && 0 <= i < brs.len() ==> !covers(#[trigger] brs[i], #[trigger] roots[j3])));
        },
        None => {
            assert forall|j: int, i: int| 0 <= j < roots.len() && 0 <= i < brs.len() implies !covers(#[trigger] brs[i], #[trigger] roots[j]) by {
                assert(root_winner(brs, roots[j]) is None);
            }
        },
    }
}

} // verus!
