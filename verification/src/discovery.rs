//! Discovery helpers: tokenizing text for search, the token-overlap filter,
//! result pagination, near-miss tool name suggestions and the detail level
//! of search results.

use vstd::prelude::*;
use crate::ordering::lex_lt;
use crate::ordering::{lemma_lex_asymmetric, lemma_lex_irreflexive, lemma_lex_total, lemma_lex_transitive, lex_less};
use crate::package::{str_is, strings_view};
use crate::text::{chars_eq, chars_of, decimal, decimal_chars, parse_u64, parse_u64_spec, string_of};

verus! {

/// Name for what `str::to_lowercase` returns for a string: its Unicode
/// lowercase mapping.
pub uninterp spec fn lowercase(s: Seq<char>) -> Seq<char>;

/// Name for what `char::is_alphanumeric` answers for a character.
pub uninterp spec fn alphanumeric(c: char) -> bool;

/// Levenshtein distance over characters: the fewest single-character
/// insertions, deletions and substitutions that turn `a` into `b`.
pub open spec fn edit_distance(a: Seq<char>, b: Seq<char>) -> nat
    decreases a.len() + b.len(),
{
    if a.len() == 0 {
        b.len()
    } else if b.len() == 0 {
        a.len()
    } else {
        let keep = edit_distance(a.drop_last(), b.drop_last()) + (if a.last() == b.last() { 0nat } else { 1nat });
        let delete = edit_distance(a.drop_last(), b) + 1;
        let insert = edit_distance(a, b.drop_last()) + 1;
        if keep <= delete && keep <= insert {
            keep
        } else if delete <= insert {
            delete
        } else {
            insert
        }
    }
}

/// `str::to_lowercase`: the contract claims the result is [`lowercase`] of
/// the input.
#[verifier::external_body]
fn to_lower(s: &str) -> (r: String)
    ensures
        r@ == lowercase(s@),
{
    s.to_lowercase()
}

/// `char::is_alphanumeric`: the contract claims the answer is
/// [`alphanumeric`] of the character.
#[verifier::external_body]
fn is_alnum(c: char) -> (b: bool)
    ensures
        b == alphanumeric(c),
{
    c.is_alphanumeric()
}

/// `strsim::levenshtein`: the contract claims the result is the minimum
/// number of single-character insertions, deletions and substitutions that
/// turn one string into the other, counted over chars.
#[verifier::external_body]
fn levenshtein(a: &str, b: &str) -> (r: usize)
    ensures
        r == edit_distance(a@, b@),
{
    strsim::levenshtein(a, b)
}

/// The tokens collected so far and the run being read.
pub open spec fn token_scan(s: Seq<char>) -> (Seq<Seq<char>>, Seq<char>)
    decreases s.len(),
{
    if s.len() == 0 {
        (Seq::empty(), Seq::empty())
    } else {
        let (done, run) = token_scan(s.drop_last());
        if alphanumeric(s.last()) {
            (done, run.push(s.last()))
        } else {
            (flush_token(done, run), Seq::empty())
        }
    }
}

/// `done` with `run` appended when it is not empty.
pub open spec fn flush_token(done: Seq<Seq<char>>, run: Seq<char>) -> Seq<Seq<char>> {
    if run.len() > 0 {
        done.push(run)
    } else {
        done
    }
}

/// The maximal runs of alphanumeric characters of `s`, in order.
pub open spec fn words_of(s: Seq<char>) -> Seq<Seq<char>> {
    flush_token(token_scan(s).0, token_scan(s).1)
}

/// The search tokens of a text: the alphanumeric runs of its lowercase form.
pub open spec fn tokens(text: Seq<char>) -> Seq<Seq<char>> {
    words_of(lowercase(text))
}

/// Split `text` into lowercase alphanumeric tokens.
pub fn tokenize(text: &str) -> (r: Vec<String>)
    ensures
        strings_view(r@) == tokens(text@),
{
    let lower = to_lower(text);
    let chars = chars_of(lower.as_str());
    let mut done: Vec<String> = Vec::new();
    let mut run: Vec<char> = Vec::new();
    let mut i: usize = 0;
    assert(chars@.take(0) =~= Seq::<char>::empty());
    while i < chars.len()
        invariant
            i <= chars@.len(),
            chars@ == lowercase(text@),
            strings_view(done@) == token_scan(chars@.take(i as int)).0,
            run@ == token_scan(chars@.take(i as int)).1,
        decreases chars.len() - i,
    {
        let c = chars[i];
        assert(chars@.take(i + 1).drop_last() =~= chars@.take(i as int));
        assert(chars@.take(i + 1).last() == c);
        if is_alnum(c) {
            run.push(c);
        } else {
            if run.len() > 0 {
                let ghost before = done@;
                done.push(string_of(&run));
                assert(strings_view(done@) =~= strings_view(before).push(run@));
            }
            run = Vec::new();
        }
        i = i + 1;
    }
    assert(chars@.take(chars@.len() as int) =~= chars@);
    if run.len() > 0 {
        let ghost before = done@;
        done.push(string_of(&run));
        assert(strings_view(done@) =~= strings_view(before).push(run@));
    }
    done
}

fn contains_token(tokens: &Vec<String>, t: &String) -> (r: bool)
    ensures
        r == strings_view(tokens@).contains(t@),
{
    let mut i: usize = 0;
    while i < tokens.len()
        invariant
            i <= tokens@.len(),
            forall|k: int| 0 <= k < i ==> tokens@[k]@ != t@,
        decreases tokens.len() - i,
    {
        if tokens[i] == *t {
            assert(strings_view(tokens@)[i as int] == t@);
            return true;
        }
        i = i + 1;
    }
    proof {
        if strings_view(tokens@).contains(t@) {
            let k = choose|k: int| 0 <= k < tokens@.len() && strings_view(tokens@)[k] == t@;
            assert(tokens@[k]@ == t@);
        }
    }
    false
}

/// At least one query token is a token of `haystack`; always true for no
/// query tokens.
pub fn matches_token_overlap(query_tokens: &[String], haystack: &str) -> (b: bool)
    ensures
        b == (query_tokens@.len() == 0 || exists|i: int|
            0 <= i < query_tokens@.len() && #[trigger] tokens(haystack@).contains(query_tokens@[i]@)),
{
    if query_tokens.len() == 0 {
        return true;
    }
    let doc = tokenize(haystack);
    let mut i: usize = 0;
    while i < query_tokens.len()
        invariant
            i <= query_tokens@.len(),
            strings_view(doc@) == tokens(haystack@),
            forall|k: int| 0 <= k < i ==> !(#[trigger] tokens(haystack@).contains(query_tokens@[k]@)),
        decreases query_tokens.len() - i,
    {
        if contains_token(&doc, &query_tokens[i]) {
            return true;
        }
        i = i + 1;
    }
    false
}

/// Every query token is a token of `haystack`; false for no query tokens.
pub fn all_tokens_present(query_tokens: &[String], haystack: &str) -> (b: bool)
    ensures
        b == (query_tokens@.len() > 0 && forall|i: int|
            0 <= i < query_tokens@.len() ==> #[trigger] tokens(haystack@).contains(query_tokens@[i]@)),
{
    if query_tokens.len() == 0 {
        return false;
    }
    let doc = tokenize(haystack);
    let mut i: usize = 0;
    while i < query_tokens.len()
        invariant
            i <= query_tokens@.len(),
            strings_view(doc@) == tokens(haystack@),
            forall|k: int| 0 <= k < i ==> #[trigger] tokens(haystack@).contains(query_tokens@[k]@),
        decreases query_tokens.len() - i,
    {
        if !contains_token(&doc, &query_tokens[i]) {
            return false;
        }
        i = i + 1;
    }
    true
}

/// What the discovery filter reads of an index entry.
#[derive(Debug, Clone)]
pub struct DiscoveryEntry {
    pub server_id: String,
    pub haystack: String,
}

/// Whether an entry passes the filter: it is on `server_id` when one is
/// given, and shares a token with the query when the query has any.
pub open spec fn passes_filter(e: DiscoveryEntry, query_tokens: Seq<Seq<char>>, server_id: Option<Seq<char>>) -> bool {
    &&& (server_id matches Some(sid) ==> e.server_id@ == sid)
    &&& (query_tokens.len() == 0 || exists|i: int|
        0 <= i < query_tokens.len() && #[trigger] tokens(e.haystack@).contains(query_tokens[i]))
}

/// Positions of the entries that pass the filter, in index order.
pub open spec fn filtered(entries: Seq<DiscoveryEntry>, query_tokens: Seq<Seq<char>>, server_id: Option<Seq<char>>) -> Seq<int>
    decreases entries.len(),
{
    if entries.len() == 0 {
        Seq::empty()
    } else {
        let rest = filtered(entries.drop_last(), query_tokens, server_id);
        if passes_filter(entries.last(), query_tokens, server_id) {
            rest.push(entries.len() - 1)
        } else {
            rest
        }
    }
}

/// The tokens of an optional query (none without a query).
pub open spec fn query_tokens_of(query: Option<Seq<char>>) -> Seq<Seq<char>> {
    match query {
        Some(q) => tokens(q),
        None => Seq::empty(),
    }
}

/// The view of an optional string slice.
pub open spec fn opt_str(o: Option<&str>) -> Option<Seq<char>> {
    match o {
        Some(s) => Some(s@),
        None => None,
    }
}

/// The filter step of discovery ranking: positions of the entries on
/// `server_id` (when given) that share a token with `query` (when it has
/// any), in index order. Ordering the survivors by relevance is left to the
/// caller.
pub fn discovery_filter(entries: &[DiscoveryEntry], query: Option<&str>, server_id: Option<&str>) -> (r: Vec<usize>)
    ensures
        r@.map_values(|x: usize| x as int) == filtered(entries@, query_tokens_of(opt_str(query)), opt_str(server_id)),
{
    let ghost qv = opt_str(query);
    let ghost sv = opt_str(server_id);
    let query_tokens: Vec<String> = match query {
        Some(q) => tokenize(q),
        None => Vec::new(),
    };
    let ghost qt = query_tokens_of(qv);
    assert(strings_view(query_tokens@) =~= qt);
    let sid_chars: Option<Vec<char>> = match server_id {
        Some(s) => Some(chars_of(s)),
        None => None,
    };
    let mut out: Vec<usize> = Vec::new();
    let mut i: usize = 0;
    while i < entries.len()
        invariant
            i <= entries@.len(),
            strings_view(query_tokens@) == qt,
            qt == query_tokens_of(qv),
            sid_chars is Some <==> sv is Some,
            sid_chars matches Some(c) ==> sv == Some(c@),
            out@.map_values(|x: usize| x as int) == filtered(entries@.take(i as int), qt, sv),
        decreases entries.len() - i,
    {
        let e = &entries[i];
        assert(entries@.take(i + 1).drop_last() =~= entries@.take(i as int));
        assert(entries@.take(i + 1).last() == *e);
        let on_server = match &sid_chars {
            Some(c) => str_is(e.server_id.as_str(), c),
            None => true,
        };
        let keep = on_server && matches_token_overlap(&query_tokens, e.haystack.as_str());
        proof {
            if on_server {
                assert forall|k: int| 0 <= k < qt.len() implies #[trigger] tokens(e.haystack@).contains(qt[k])
                    == tokens(e.haystack@).contains(query_tokens@[k]@) by {
                    assert(qt[k] == query_tokens@[k]@);
                }
            }
        }
        let ghost before = out@;
        if keep {
            out.push(i);
            assert(out@.map_values(|x: usize| x as int) =~= before.map_values(|x: usize| x as int).push(i as int));
        }
        proof {
            assert(keep == passes_filter(*e, qt, sv)) by {
                if on_server && (qt.len() == 0 || exists|k: int| 0 <= k < qt.len() && #[trigger] tokens(e.haystack@).contains(qt[k])) {
                    if qt.len() > 0 {
                        let k = choose|k: int| 0 <= k < qt.len() && #[trigger] tokens(e.haystack@).contains(qt[k]);
                        assert(tokens(e.haystack@).contains(query_tokens@[k]@));
                    }
                }
                if keep && qt.len() > 0 {
                    let k = choose|k: int| 0 <= k < query_tokens@.len() && #[trigger] tokens(e.haystack@).contains(query_tokens@[k]@);
                    assert(tokens(e.haystack@).contains(qt[k]));
                }
            }
            assert(entries@.take(i + 1).len() - 1 == i);
        }
        i = i + 1;
    }
    assert(entries@.take(entries@.len() as int) =~= entries@);
    out
}

/// Haystack text of a tool for lexical and semantic ranking: feature name,
/// qualified name and description, separated by spaces.
pub fn search_haystack(feature_name: &str, qualified_name: &str, description: Option<&str>) -> (r: String)
    ensures
        r@ == feature_name@ + seq![' '] + qualified_name@ + seq![' '] + match description {
            Some(d) => d@,
            None => Seq::empty(),
        },
{
    let mut out = chars_of(feature_name);
    out.push(' ');
    let q = chars_of(qualified_name);
    let mut i: usize = 0;
    let ghost base = out@;
    while i < q.len()
        invariant
            i <= q@.len(),
            out@ == base + q@.take(i as int),
        decreases q.len() - i,
    {
        out.push(q[i]);
        assert(out@ =~= base + q@.take(i + 1));
        i = i + 1;
    }
    assert(q@.take(q@.len() as int) =~= q@);
    out.push(' ');
    let d: Vec<char> = match description {
        Some(s) => chars_of(s),
        None => Vec::new(),
    };
    let ghost base2 = out@;
    let mut j: usize = 0;
    while j < d.len()
        invariant
            j <= d@.len(),
            out@ == base2 + d@.take(j as int),
        decreases d.len() - j,
    {
        out.push(d[j]);
        assert(out@ =~= base2 + d@.take(j + 1));
        j = j + 1;
    }
    assert(d@.take(d@.len() as int) =~= d@);
    string_of(&out)
}

/// How much detail search results include per matched tool.
#[derive(Debug, Clone, Copy, PartialEq, Eq, Structural)]
pub enum DetailLevel {
    Name,
    Description,
    Schema,
}

pub open spec fn lit_name() -> Seq<char> {
    seq!['n', 'a', 'm', 'e']
}

pub open spec fn lit_description() -> Seq<char> {
    seq!['d', 'e', 's', 'c', 'r', 'i', 'p', 't', 'i', 'o', 'n']
}

pub open spec fn lit_schema() -> Seq<char> {
    seq!['s', 'c', 'h', 'e', 'm', 'a']
}

impl DetailLevel {
    /// Parse a wire-level detail level: `name`, `description` or `schema`.
    pub fn parse(s: &str) -> (r: Option<DetailLevel>)
        ensures
            r == (if s@ == lit_name() {
                Some(DetailLevel::Name)
            } else if s@ == lit_description() {
                Some(DetailLevel::Description)
            } else if s@ == lit_schema() {
                Some(DetailLevel::Schema)
            } else {
                None
            }),
    {
        let name: Vec<char> = vec!['n', 'a', 'm', 'e'];
        let description: Vec<char> = vec!['d', 'e', 's', 'c', 'r', 'i', 'p', 't', 'i', 'o', 'n'];
        let schema: Vec<char> = vec!['s', 'c', 'h', 'e', 'm', 'a'];
        assert(name@ =~= lit_name());
        assert(description@ =~= lit_description());
        assert(schema@ =~= lit_schema());
        if str_is(s, &name) {
            Some(DetailLevel::Name)
        } else if str_is(s, &description) {
            Some(DetailLevel::Description)
        } else if str_is(s, &schema) {
            Some(DetailLevel::Schema)
        } else {
            None
        }
    }
}

/// Optional tracing context for tool search ranking.
pub struct RankTraceContext<'a> {
    pub query_id: &'a str,
}

/// One page of `total` ranked results.
#[derive(Debug, Clone)]
pub struct PageWindow {
    /// Position of the first result on the page.
    pub offset: usize,
    /// Number of results on the page.
    pub len: usize,
    /// Cursor of the next page, when results remain.
    pub next_cursor: Option<String>,
}

/// `limit` clamped to `1..=100`.
pub open spec fn clamp_limit(limit: usize) -> int {
    if limit < 1 {
        1
    } else if limit > 100 {
        100
    } else {
        limit as int
    }
}

/// The offset a cursor names: its decimal value when it parses as a
/// `usize`, else the start.
pub open spec fn cursor_offset(cursor: Option<Seq<char>>) -> int {
    match cursor {
        Some(c) => match parse_u64_spec(c) {
            Some(n) if n <= usize::MAX => n as int,
            _ => 0,
        },
        None => 0,
    }
}

/// The page of `total` ranked results selected by `limit` (clamped to
/// `1..=100`) and `cursor` (a decimal offset; anything else means the
/// start), with the cursor of the following page when results remain.
pub fn page_window(total: usize, limit: usize, cursor: Option<&str>) -> (w: PageWindow)
    ensures
        ({
            let off = cursor_offset(match cursor { Some(c) => Some(c@), None => None });
            let avail = if off < total { total - off } else { 0 };
            let len = if avail < clamp_limit(limit) { avail } else { clamp_limit(limit) };
            &&& w.offset as int == off
            &&& w.len as int == len
            &&& (off + len < total) == (w.next_cursor is Some)
            &&& (w.next_cursor matches Some(c) ==> c@ == decimal((off + len) as nat))
        }),
{
    let limit = if limit < 1 {
        1
    } else if limit > 100 {
        100
    } else {
        limit
    };
    let offset: usize = match cursor {
        Some(c) => match parse_u64(&chars_of(c)) {
            Some(n) => {
                if n <= usize::MAX as u64 {
                    n as usize
                } else {
                    0
                }
            },
            None => 0,
        },
        None => 0,
    };
    let avail: usize = if offset < total { total - offset } else { 0 };
    let len: usize = if avail < limit { avail } else { limit };
    let next = offset + len;
    let next_cursor = if next < total {
        Some(string_of(&decimal_chars(next as u64)))
    } else {
        None
    };
    PageWindow { offset, len, next_cursor }
}

/// A candidate and its distance from the query.
pub open spec fn scored_before(a: (nat, Seq<char>), b: (nat, Seq<char>)) -> bool {
    a.0 < b.0 || (a.0 == b.0 && lex_lt(a.1, b.1))
}

/// No scored entry sorts strictly before an earlier one.
pub open spec fn scored_sorted(s: Seq<(nat, Seq<char>)>) -> bool {
    forall|i: int, j: int| 0 <= i < j < s.len() ==> !scored_before(#[trigger] s[j], #[trigger] s[i])
}

/// The view of scored candidates.
pub open spec fn scored_view(v: Seq<(usize, String)>) -> Seq<(nat, Seq<char>)> {
    v.map_values(|p: (usize, String)| (p.0 as nat, p.1@))
}

/// Each candidate with its edit distance from the lowercase query.
pub open spec fn scored_candidates(query: Seq<char>, candidates: Seq<String>) -> Seq<(nat, Seq<char>)> {
    candidates.map_values(|c: String| (edit_distance(lowercase(query), lowercase(c@)), c@))
}

proof fn lemma_scored_order(a: (nat, Seq<char>), b: (nat, Seq<char>), c: (nat, Seq<char>))
    ensures
        scored_before(a, b) && scored_before(b, c) ==> scored_before(a, c),
        scored_before(a, b) ==> !scored_before(b, a),
        a != b ==> scored_before(a, b) || scored_before(b, a),
        !scored_before(a, a),
{
    lemma_lex_irreflexive(a.1);
    if scored_before(a, b) && scored_before(b, c) {
        if a.0 == b.0 && b.0 == c.0 {
            lemma_lex_transitive(a.1, b.1, c.1);
        }
    }
    if scored_before(a, b) && a.0 == b.0 {
        lemma_lex_asymmetric(a.1, b.1);
    }
    if a != b && a.0 == b.0 {
        assert(a.1 != b.1);
        lemma_lex_total(a.1, b.1);
    }
}

fn scored_less(a: &(usize, String), b: &(usize, String)) -> (r: bool)
    ensures
        r == scored_before((a.0 as nat, a.1@), (b.0 as nat, b.1@)),
{
    a.0 < b.0 || (a.0 == b.0 && lex_less(&chars_of(a.1.as_str()), &chars_of(b.1.as_str())))
}

/// `r` is what a suggestion lookup answers: nothing for an empty query, no
/// candidates or a zero limit; else the first `limit` candidates once all are
/// ordered by edit distance from the query over lowercase text, nearest
/// first, ties by name.
pub open spec fn suggests(query: Seq<char>, candidates: Seq<String>, limit: usize, r: Seq<Seq<char>>) -> bool {
    if query.len() == 0 || candidates.len() == 0 || limit == 0 {
        r.len() == 0
    } else {
        exists|s: Seq<(nat, Seq<char>)>|
            scored_sorted(s) && s.to_multiset() == scored_candidates(query, candidates).to_multiset()
            && r.len() == (if s.len() < limit { s.len() as int } else { limit as int })
            && forall|i: int| 0 <= i < r.len() ==> #[trigger] r[i] == s[i].1
    }
}

/// Up to `limit` candidates nearest to `query` by edit distance over
/// lowercase text, nearest first, ties by name (see [`suggests`]).
pub fn levenshtein_suggestions(query: &str, candidates: &[String], limit: usize) -> (r: Vec<String>)
    ensures
        suggests(query@, candidates@, limit, strings_view(r@)),
{
    if query.is_empty() || candidates.len() == 0 || limit == 0 {
        return Vec::new();
    }
    let query_lower = to_lower(query);
    let mut scored: Vec<(usize, String)> = Vec::new();
    let ghost all = scored_candidates(query@, candidates@);
    assert(scored_view(scored@) =~= all.take(0));
    let mut i: usize = 0;
    while i < candidates.len()
        invariant
            i <= candidates@.len(),
            query_lower@ == lowercase(query@),
            all == scored_candidates(query@, candidates@),
            scored_sorted(scored_view(scored@)),
            scored_view(scored@).to_multiset() == all.take(i as int).to_multiset(),
        decreases candidates.len() - i,
    {
        let c = &candidates[i];
        let lowered = to_lower(c.as_str());
        let d = levenshtein(query_lower.as_str(), lowered.as_str());
        let item = (d, c.clone());
        let ghost iv = (d as nat, c@);
        assert(all[i as int] == iv);
        let ghost os = scored_view(scored@);
        let mut p: usize = 0;
        while p < scored.len() && !scored_less(&item, &scored[p])
            invariant
                p <= scored@.len(),
                os == scored_view(scored@),
                iv == (item.0 as nat, item.1@),
                forall|j: int| 0 <= j < p ==> !scored_before(iv, #[trigger] os[j]),
            decreases scored.len() - p,
        {
            p = p + 1;
        }
        scored.insert(p, item);
        proof {
            let ns = scored_view(scored@);
            assert(ns =~= os.insert(p as int, iv));
            assert forall|a: int, b: int| 0 <= a < b < ns.len() implies !scored_before(#[trigger] ns[b], #[trigger] ns[a]) by {
                if b < p {
                } else if b == p {
                    lemma_scored_order(ns[b], ns[a], ns[a]);
                    if scored_before(iv, os[a]) {
                    }
                } else if a < p {
                    lemma_scored_order(os[b - 1], os[a], iv);
                    lemma_scored_order(iv, os[p as int], os[b - 1]);
                    lemma_scored_order(os[b - 1], os[p as int], iv);
                    lemma_scored_order(os[a], iv, os[b - 1]);
                    lemma_scored_order(os[b - 1], iv, os[a]);
                    lemma_scored_order(os[p as int], os[b - 1], iv);
                    if b - 1 > p {
                        assert(!scored_before(os[b - 1], os[p as int]));
                    }
                    assert(scored_before(iv, os[p as int]));
                } else if a == p {
                    assert(scored_before(iv, os[p as int]));
                    lemma_scored_order(iv, os[p as int], os[b - 1]);
                    lemma_scored_order(os[p as int], os[b - 1], iv);
                    lemma_scored_order(os[b - 1], iv, os[p as int]);
                    if b - 1 > p {
                        assert(!scored_before(os[b - 1], os[p as int]));
                    }
                } else {
                    assert(!scored_before(os[b - 1], os[a - 1]));
                }
            }
            vstd::seq_lib::to_multiset_insert(os, p as int, iv);
            assert(all.take(i + 1) =~= all.take(i as int).push(iv));
            vstd::seq_lib::to_multiset_build(all.take(i as int), iv);
        }
        i = i + 1;
    }
    assert(all.take(all.len() as int) =~= all);
    let ghost s = scored_view(scored@);
    let mut out: Vec<String> = Vec::new();
    let mut k: usize = 0;
    while k < scored.len() && k < limit
        invariant
            k <= scored@.len(),
            k <= limit,
            s == scored_view(scored@),
            out@.len() == k,
            forall|j: int| 0 <= j < k ==> #[trigger] out@[j]@ == s[j].1,
        decreases scored.len() - k,
    {
        out.push(scored[k].1.clone());
        k = k + 1;
    }
    proof {
        let rv = strings_view(out@);
        assert forall|j: int| 0 <= j < rv.len() implies #[trigger] rv[j] == s[j].1 by {
            assert(rv[j] == out@[j]@);
        }
    }
    out
}

proof fn lemma_filtered_members(entries: Seq<DiscoveryEntry>, query_tokens: Seq<Seq<char>>, server_id: Option<Seq<char>>)
    ensures
        forall|i: int| 0 <= i < entries.len() ==>
            (#[trigger] filtered(entries, query_tokens, server_id).contains(i) <==> passes_filter(entries[i], query_tokens, server_id)),
        forall|i: int| #[trigger] filtered(entries, query_tokens, server_id).contains(i) ==> 0 <= i < entries.len(),
    decreases entries.len(),
{
    if entries.len() > 0 {
        let d = entries.drop_last();
        lemma_filtered_members(d, query_tokens, server_id);
        let rest = filtered(d, query_tokens, server_id);
        let f = filtered(entries, query_tokens, server_id);
        let n = entries.len() - 1;
        assert forall|i: int| 0 <= i < entries.len() implies
            (#[trigger] f.contains(i) <==> passes_filter(entries[i], query_tokens, server_id)) by {
            if i < n {
                assert(entries[i] == d[i]);
                if passes_filter(entries[n], query_tokens, server_id) {
                    assert(f == rest.push(n));
                    if rest.contains(i) {
                        let k = choose|k: int| 0 <= k < rest.len() && rest[k] == i;
                        assert(f[k] == i);
                    }
                    if f.contains(i) {
                        let k = choose|k: int| 0 <= k < f.len() && f[k] == i;
                        if k < rest.len() {
                            assert(rest[k] == i);
                        }
                    }
                }
            } else {
                if passes_filter(entries[n], query_tokens, server_id) {
                    assert(f[rest.len() as int] == n);
                } else if rest.contains(n) {
                    assert(false);
                }
            }
        }
        assert forall|i: int| #[trigger] f.contains(i) implies 0 <= i < entries.len() by {
            let k = choose|k: int| 0 <= k < f.len() && f[k] == i;
            if k < rest.len() {
                assert(rest[k] == i);
                assert(rest.contains(i));
            }
        }
    }
}

/// Discovery keeps partial matches: an entry is in the filter result exactly
/// when it is on the requested server (if one is given) and, for a query
/// with tokens, at least one of the query's tokens is among the entry's
/// tokens. Matching every query token is not required (it only weighs in
/// the ranking).
pub proof fn law_filter_keeps_any_token_overlap(entries: Seq<DiscoveryEntry>, query: Option<Seq<char>>, server_id: Option<Seq<char>>, i: int)
    requires
        0 <= i < entries.len(),
    ensures
        filtered(entries, query_tokens_of(query), server_id).contains(i) <==> {
            &&& (server_id matches Some(sid) ==> entries[i].server_id@ == sid)
            &&& (query_tokens_of(query).len() == 0
                || exists|k: int| 0 <= k < query_tokens_of(query).len()
                    && tokens(entries[i].haystack@).contains(#[trigger] query_tokens_of(query)[k]))
        },
{
    lemma_filtered_members(entries, query_tokens_of(query), server_id);
    let qt = query_tokens_of(query);
    if exists|k: int| 0 <= k < qt.len() && tokens(entries[i].haystack@).contains(#[trigger] qt[k]) {
        let k = choose|k: int| 0 <= k < qt.len() && tokens(entries[i].haystack@).contains(#[trigger] qt[k]);
        assert(tokens(entries[i].haystack@).contains(qt[k]));
    }
    if passes_filter(entries[i], qt, server_id) && qt.len() > 0 {
        let k = choose|k: int| 0 <= k < qt.len() && #[trigger] tokens(entries[i].haystack@).contains(qt[k]);
        assert(tokens(entries[i].haystack@).contains(qt[k]));
    }
}

} // verus!
