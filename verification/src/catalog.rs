//! The tool catalog as the meta tools present it: ordering index entries by
//! name, the installed-tool roster with its invokable flags, FeatureSet
//! listing status, and the `tools` argument of schema lookup.

use vstd::prelude::*;
use crate::ordering::{lemma_lex_asymmetric, lemma_lex_irreflexive, lemma_lex_total, lemma_lex_transitive, lex_less, lex_lt};
use crate::package::strings_view;
use crate::text::{all_ws, chars_eq, chars_of, concat, decimal, decimal_chars, is_blank, string_of, trim, trim_ws};

verus! {

/// Positions `0..n`, in order.
pub open spec fn positions(n: nat) -> Seq<int> {
    Seq::new(n, |k: int| k)
}

/// `order` lists positions of `keys` sorted by key, ties in position order.
pub open spec fn stably_sorted_by(keys: Seq<Seq<char>>, order: Seq<int>) -> bool {
    &&& forall|a: int, b: int| 0 <= a < b < order.len() ==> !lex_lt(#[trigger] keys[order[b]], #[trigger] keys[order[a]])
    &&& forall|a: int, b: int| 0 <= a < b < order.len() && keys[order[a]] == keys[order[b]] ==> #[trigger] order[a] < #[trigger] order[b]
}

/// The positions of `keys` ordered by key, ties kept in position order
/// (`slice::sort_by` on the key, which is stable).
pub fn order_by_key(keys: &Vec<String>) -> (r: Vec<usize>)
    ensures
        r@.map_values(|k: usize| k as int).to_multiset() == positions(keys@.len()).to_multiset(),
        stably_sorted_by(strings_view(keys@), r@.map_values(|k: usize| k as int)),
        forall|a: int| 0 <= a < r@.len() ==> #[trigger] r@[a] < keys@.len(),
{
    let ghost ks = strings_view(keys@);
    let mut out: Vec<usize> = Vec::new();
    let mut i: usize = 0;
    assert(out@.map_values(|k: usize| k as int) =~= positions(0));
    while i < keys.len()
        invariant
            i <= keys@.len(),
            ks == strings_view(keys@),
            out@.map_values(|k: usize| k as int).to_multiset() == positions(i as nat).to_multiset(),
            stably_sorted_by(ks, out@.map_values(|k: usize| k as int)),
            forall|a: int| 0 <= a < out@.len() ==> #[trigger] out@[a] < i,
        decreases keys.len() - i,
    {
        let key = chars_of(keys[i].as_str());
        assert(ks[i as int] == key@);
        let ghost os = out@.map_values(|k: usize| k as int);
        let mut p: usize = 0;
        while p < out.len() && !lex_less(&key, &chars_of(keys[out[p]].as_str()))
            invariant
                p <= out@.len(),
                os == out@.map_values(|k: usize| k as int),
                ks == strings_view(keys@),
                forall|a: int| 0 <= a < out@.len() ==> #[trigger] out@[a] < i,
                i < keys@.len(),
                forall|j: int| 0 <= j < p ==> !lex_lt(key@, #[trigger] ks[os[j]]),
            decreases out.len() - p,
        {
            assert(ks[os[p as int]] == keys@[out@[p as int] as int]@);
            p = p + 1;
        }
        proof {
            if p < out@.len() {
                assert(ks[os[p as int]] == keys@[out@[p as int] as int]@);
                assert(lex_lt(key@, ks[os[p as int]]));
            }
        }
        out.insert(p, i);
        proof {
            let ns = out@.map_values(|k: usize| k as int);
            assert(ns =~= os.insert(p as int, i as int));
            assert forall|a: int, b: int| 0 <= a < b < ns.len() implies !lex_lt(#[trigger] ks[ns[b]], #[trigger] ks[ns[a]]) by {
                if b < p {
                } else if b == p {
                } else if a < p {
                    let x = ks[os[a]];
                    let y = ks[os[b - 1]];
                    let z = ks[os[p as int]];
                    if lex_lt(y, x) {
                        if x == key@ {
                            if b - 1 > p && y != z {
                                lemma_lex_total(y, z);
                                lemma_lex_transitive(key@, z, y);
                            }
                            lemma_lex_asymmetric(key@, y);
                        } else {
                            lemma_lex_total(x, key@);
                            lemma_lex_transitive(y, x, key@);
                            if b - 1 > p && y != z {
                                lemma_lex_total(y, z);
                                lemma_lex_transitive(key@, z, y);
                            }
                            lemma_lex_asymmetric(key@, y);
                        }
                    }
                } else if a == p {
                    let y = ks[os[b - 1]];
                    let z = ks[os[p as int]];
                    if b - 1 > p && y != z {
                        lemma_lex_total(y, z);
                        lemma_lex_transitive(key@, z, y);
                    }
                    lemma_lex_asymmetric(key@, y);
                } else {
                }
            }
            assert forall|a: int, b: int| 0 <= a < b < ns.len() && ks[ns[a]] == ks[ns[b]] implies #[trigger] ns[a] < #[trigger] ns[b] by {
                if b < p {
                } else if b == p {
                    assert(out@[a] < i);
                } else if a < p {
                } else if a == p {
                    let y = ks[os[b - 1]];
                    let z = ks[os[p as int]];
                    if b - 1 > p && y != z {
                        lemma_lex_total(y, z);
                        lemma_lex_transitive(key@, z, y);
                    }
                    lemma_lex_irreflexive(key@);
                } else {
                }
            }
            vstd::seq_lib::to_multiset_insert(os, p as int, i as int);
            assert(positions((i + 1) as nat) =~= positions(i as nat).push(i as int));
            vstd::seq_lib::to_multiset_build(positions(i as nat), i as int);
        }
        i = i + 1;
    }
    out
}

/// What the roster reads of a Space feature row.
#[derive(Debug, Clone)]
pub struct ToolFeature {
    pub server_id: String,
    pub feature_name: String,
    /// The feature is a tool (not a prompt or resource).
    pub is_tool: bool,
    pub is_available: bool,
}

/// A tool identified by server and feature name is invokable: an available
/// tool with that identity is among the caller's invokable features.
pub open spec fn invokable_key(invokable: Seq<ToolFeature>, server_id: Seq<char>, feature_name: Seq<char>) -> bool {
    exists|j: int| 0 <= j < invokable.len() && #[trigger] invokable[j].is_tool && invokable[j].is_available
        && invokable[j].server_id@ == server_id && invokable[j].feature_name@ == feature_name
}

/// Whether `f` is on the roster: a tool, on the filtered server if any.
pub open spec fn on_roster(f: ToolFeature, server_filter: Option<Seq<char>>) -> bool {
    f.is_tool && (server_filter matches Some(s) ==> f.server_id@ == s)
}

/// One roster line: the feature's position and whether it is invokable.
#[derive(Debug, Clone, Copy, PartialEq, Eq, Structural)]
pub struct RosterEntry {
    pub index: usize,
    pub invokable: bool,
}

/// The roster lines of `features`, in order.
pub open spec fn roster_of(features: Seq<ToolFeature>, invokable: Seq<ToolFeature>, server_filter: Option<Seq<char>>) -> Seq<(int, bool)>
    decreases features.len(),
{
    if features.len() == 0 {
        Seq::empty()
    } else {
        let rest = roster_of(features.drop_last(), invokable, server_filter);
        let f = features.last();
        if on_roster(f, server_filter) {
            rest.push((features.len() - 1, invokable_key(invokable, f.server_id@, f.feature_name@)))
        } else {
            rest
        }
    }
}

fn is_invokable(invokable: &[ToolFeature], f: &ToolFeature) -> (b: bool)
    ensures
        b == invokable_key(invokable@, f.server_id@, f.feature_name@),
{
    let mut j: usize = 0;
    while j < invokable.len()
        invariant
            j <= invokable@.len(),
            forall|k: int| 0 <= k < j ==> !(#[trigger] invokable@[k].is_tool && invokable@[k].is_available
                && invokable@[k].server_id@ == f.server_id@ && invokable@[k].feature_name@ == f.feature_name@),
        decreases invokable.len() - j,
    {
        let g = &invokable[j];
        if g.is_tool && g.is_available && g.server_id == f.server_id && g.feature_name == f.feature_name {
            return true;
        }
        j = j + 1;
    }
    false
}

/// Every installed tool of the Space (on `server_filter` when given) with
/// whether the caller can invoke it, and the number it can invoke.
pub fn tool_roster(features: &[ToolFeature], invokable: &[ToolFeature], server_filter: Option<&str>) -> (r: (Vec<RosterEntry>, usize))
    ensures
        r.0@.map_values(|e: RosterEntry| (e.index as int, e.invokable))
            == roster_of(features@, invokable@, match server_filter { Some(s) => Some(s@), None => None }),
        r.1 as int == r.0@.filter(|e: RosterEntry| e.invokable).len(),
{
    let ghost sf = match server_filter { Some(s) => Some(s@), None => None::<Seq<char>> };
    let filter_chars: Option<Vec<char>> = match server_filter {
        Some(s) => Some(chars_of(s)),
        None => None,
    };
    let mut out: Vec<RosterEntry> = Vec::new();
    let mut count: usize = 0;
    let mut i: usize = 0;
    while i < features.len()
        invariant
            i <= features@.len(),
            filter_chars is Some <==> sf is Some,
            filter_chars matches Some(c) ==> sf == Some(c@),
            out@.len() <= i,
            out@.map_values(|e: RosterEntry| (e.index as int, e.invokable)) == roster_of(features@.take(i as int), invokable@, sf),
            count as int == out@.filter(|e: RosterEntry| e.invokable).len(),
            count <= out@.len(),
        decreases features.len() - i,
    {
        let f = &features[i];
        assert(features@.take(i + 1).drop_last() =~= features@.take(i as int));
        assert(features@.take(i + 1).last() == *f);
        let on_server = match &filter_chars {
            Some(c) => chars_eq(&chars_of(f.server_id.as_str()), c),
            None => true,
        };
        if f.is_tool && on_server {
            let inv = is_invokable(invokable, f);
            let e = RosterEntry { index: i, invokable: inv };
            let ghost before = out@;
            out.push(e);
            assert(out@.map_values(|e: RosterEntry| (e.index as int, e.invokable))
                =~= before.map_values(|e: RosterEntry| (e.index as int, e.invokable)).push((i as int, inv)));
            assert(before.push(e).drop_last() =~= before);
            if inv {
                count = count + 1;
            }
            assert(out@.filter(|e: RosterEntry| e.invokable) == (if inv {
                before.filter(|e: RosterEntry| e.invokable).push(e)
            } else {
                before.filter(|e: RosterEntry| e.invokable)
            })) by {
                reveal(Seq::filter);
            }
        }
        i = i + 1;
    }
    assert(features@.take(features@.len() as int) =~= features@);
    (out, count)
}

/// What the FeatureSet listing reads of a FeatureSet row.
#[derive(Debug, Clone)]
pub struct FeatureSetRow {
    pub id: String,
    pub is_deleted: bool,
}

/// The listed FeatureSets, in order: every one not deleted, `active` when
/// it is among the caller's resolved FeatureSets.
pub open spec fn listing_of(sets: Seq<FeatureSetRow>, bound: Seq<Seq<char>>) -> Seq<(int, bool)>
    decreases sets.len(),
{
    if sets.len() == 0 {
        Seq::empty()
    } else {
        let rest = listing_of(sets.drop_last(), bound);
        let s = sets.last();
        if s.is_deleted {
            rest
        } else {
            rest.push((sets.len() - 1, bound.contains(s.id@)))
        }
    }
}

fn contains_string(v: &Vec<String>, x: &String) -> (b: bool)
    ensures
        b == strings_view(v@).contains(x@),
{
    let mut i: usize = 0;
    while i < v.len()
        invariant
            i <= v@.len(),
            forall|k: int| 0 <= k < i ==> v@[k]@ != x@,
        decreases v.len() - i,
    {
        if v[i] == *x {
            assert(strings_view(v@)[i as int] == x@);
            return true;
        }
        i = i + 1;
    }
    proof {
        if strings_view(v@).contains(x@) {
            let k = choose|k: int| 0 <= k < v@.len() && strings_view(v@)[k] == x@;
            assert(v@[k]@ == x@);
        }
    }
    false
}

/// Positions of the FeatureSets to list, each with whether it is active.
pub fn feature_set_listing(sets: &[FeatureSetRow], bound_ids: &Vec<String>) -> (r: Vec<(usize, bool)>)
    ensures
        r@.map_values(|e: (usize, bool)| (e.0 as int, e.1)) == listing_of(sets@, strings_view(bound_ids@)),
{
    let mut out: Vec<(usize, bool)> = Vec::new();
    let mut i: usize = 0;
    while i < sets.len()
        invariant
            i <= sets@.len(),
            out@.map_values(|e: (usize, bool)| (e.0 as int, e.1)) == listing_of(sets@.take(i as int), strings_view(bound_ids@)),
        decreases sets.len() - i,
    {
        assert(sets@.take(i + 1).drop_last() =~= sets@.take(i as int));
        assert(sets@.take(i + 1).last() == sets@[i as int]);
        if !sets[i].is_deleted {
            let active = contains_string(bound_ids, &sets[i].id);
            let ghost before = out@;
            out.push((i, active));
            assert(out@.map_values(|e: (usize, bool)| (e.0 as int, e.1))
                =~= before.map_values(|e: (usize, bool)| (e.0 as int, e.1)).push((i as int, active)));
        }
        i = i + 1;
    }
    assert(sets@.take(sets@.len() as int) =~= sets@);
    out
}

/// One element of a JSON array handed as the `tools` argument.
#[derive(Debug, Clone)]
pub enum ToolsItem {
    /// A JSON string.
    Text(String),
    /// Any other JSON value, serialized.
    Other(String),
}

/// The `tools` argument of schema lookup, as the parsing reads it.
#[derive(Debug, Clone)]
pub enum ToolsArg {
    /// The argument is absent.
    Missing,
    /// A JSON string, with the array it encodes when it is a JSON array.
    Text { text: String, encoded: Option<Vec<ToolsItem>> },
    /// A JSON array.
    Array(Vec<ToolsItem>),
    /// Any other JSON value.
    Other,
}

/// Names asked for: the usable qualified names (trimmed) and the entries
/// that cannot be names, reported back as missing.
#[derive(Debug, Clone)]
pub struct ToolSchemaNameRequest {
    pub valid_names: Vec<String>,
    pub invalid_entries: Vec<String>,
}

/// Why the `tools` argument was refused.
#[derive(Debug, Clone, Copy, PartialEq, Eq, Structural)]
pub enum ToolsArgError {
    /// Absent, or neither a string nor an array.
    Invalid,
    /// An array with no entries.
    Empty,
}

impl ToolsArgError {
    /// The message the call is refused with.
    pub fn message(&self) -> (r: &'static str)
        ensures
            r@ == match self {
                ToolsArgError::Invalid => "missing or invalid `tools` \u{2014} expected string or string array"@,
                ToolsArgError::Empty => "`tools` must contain at least one qualified name"@,
            },
    {
        match self {
            ToolsArgError::Invalid => "missing or invalid `tools` \u{2014} expected string or string array",
            ToolsArgError::Empty => "`tools` must contain at least one qualified name",
        }
    }
}

/// Valid names and invalid entries of a JSON array of names: a blank string
/// is invalid as is; a string is valid trimmed; any other value is invalid
/// as its serialization.
pub open spec fn split_items(items: Seq<ToolsItem>) -> (Seq<Seq<char>>, Seq<Seq<char>>)
    decreases items.len(),
{
    if items.len() == 0 {
        (Seq::empty(), Seq::empty())
    } else {
        let (valid, invalid) = split_items(items.drop_last());
        match items.last() {
            ToolsItem::Text(s) => if all_ws(s@) {
                (valid, invalid.push(s@))
            } else {
                (valid.push(trim_ws(s@)), invalid)
            },
            ToolsItem::Other(s) => (valid, invalid.push(s@)),
        }
    }
}

/// Split a JSON array of names (see [`split_items`]); an empty array is refused.
pub fn names_from_json_array(items: &[ToolsItem]) -> (r: Result<ToolSchemaNameRequest, ToolsArgError>)
    ensures
        items@.len() == 0 ==> r == Err::<ToolSchemaNameRequest, ToolsArgError>(ToolsArgError::Empty),
        items@.len() > 0 ==> (r matches Ok(req) && strings_view(req.valid_names@) == split_items(items@).0
            && strings_view(req.invalid_entries@) == split_items(items@).1),
{
    let mut valid: Vec<String> = Vec::new();
    let mut invalid: Vec<String> = Vec::new();
    let mut i: usize = 0;
    while i < items.len()
        invariant
            i <= items@.len(),
            strings_view(valid@) == split_items(items@.take(i as int)).0,
            strings_view(invalid@) == split_items(items@.take(i as int)).1,
            valid@.len() + invalid@.len() == i,
        decreases items.len() - i,
    {
        assert(items@.take(i + 1).drop_last() =~= items@.take(i as int));
        assert(items@.take(i + 1).last() == items@[i as int]);
        let ghost vb = valid@;
        let ghost ib = invalid@;
        match &items[i] {
            ToolsItem::Text(s) => {
                let v = chars_of(s.as_str());
                if is_blank(&v) {
                    invalid.push(s.clone());
                    assert(strings_view(invalid@) =~= strings_view(ib).push(s@));
                } else {
                    let t = string_of(&trim(&v));
                    valid.push(t);
                    assert(strings_view(valid@) =~= strings_view(vb).push(trim_ws(s@)));
                }
            },
            ToolsItem::Other(s) => {
                invalid.push(s.clone());
                assert(strings_view(invalid@) =~= strings_view(ib).push(s@));
            },
        }
        i = i + 1;
    }
    assert(items@.take(items@.len() as int) =~= items@);
    if valid.len() == 0 && invalid.len() == 0 {
        return Err(ToolsArgError::Empty);
    }
    Ok(ToolSchemaNameRequest { valid_names: valid, invalid_entries: invalid })
}

/// Parse the `tools` argument: a name, an array of names, or a string that
/// encodes an array of names (agents double-serialize).
pub fn parse_tool_schema_names(arg: &ToolsArg) -> (r: Result<ToolSchemaNameRequest, ToolsArgError>)
    ensures
        match arg {
            ToolsArg::Missing | ToolsArg::Other => r == Err::<ToolSchemaNameRequest, ToolsArgError>(ToolsArgError::Invalid),
            ToolsArg::Text { text, encoded: None } => r matches Ok(req) && strings_view(req.valid_names@) == seq![text@]
                && req.invalid_entries@.len() == 0,
            ToolsArg::Text { encoded: Some(items), .. } | ToolsArg::Array(items) => if items@.len() == 0 {
                r == Err::<ToolSchemaNameRequest, ToolsArgError>(ToolsArgError::Empty)
            } else {
                r matches Ok(req) && strings_view(req.valid_names@) == split_items(items@).0
                    && strings_view(req.invalid_entries@) == split_items(items@).1
            },
        },
{
    match arg {
        ToolsArg::Missing => Err(ToolsArgError::Invalid),
        ToolsArg::Other => Err(ToolsArgError::Invalid),
        ToolsArg::Array(items) => names_from_json_array(items),
        ToolsArg::Text { text, encoded } => match encoded {
            Some(items) => names_from_json_array(items),
            None => {
                let names = vec![text.clone()];
                assert(strings_view(names@) =~= seq![text@]);
                Ok(ToolSchemaNameRequest { valid_names: names, invalid_entries: Vec::new() })
            },
        },
    }
}

/// The names reported missing by schema lookup: the requested names with no
/// schema found, in request order, then the invalid entries.
pub fn missing_schema_names(requested: &Vec<String>, found: &Vec<String>, invalid: &Vec<String>) -> (r: Vec<String>)
    ensures
        strings_view(r@) == strings_view(requested@).filter(|n: Seq<char>| !strings_view(found@).contains(n)) + strings_view(invalid@),
{
    let ghost keep = |n: Seq<char>| !strings_view(found@).contains(n);
    let mut out: Vec<String> = Vec::new();
    let mut i: usize = 0;
    while i < requested.len()
        invariant
            i <= requested@.len(),
            keep == (|n: Seq<char>| !strings_view(found@).contains(n)),
            strings_view(out@) == strings_view(requested@).take(i as int).filter(keep),
        decreases requested.len() - i,
    {
        let ghost t1 = strings_view(requested@).take(i + 1);
        assert(t1.drop_last() =~= strings_view(requested@).take(i as int));
        assert(t1.last() == requested@[i as int]@);
        let ghost before = out@;
        let hit = contains_string(found, &requested[i]);
        if !hit {
            out.push(requested[i].clone());
            assert(strings_view(out@) =~= strings_view(before).push(requested@[i as int]@));
        }
        assert(t1.filter(keep) == (if keep(t1.last()) {
            t1.drop_last().filter(keep).push(t1.last())
        } else {
            t1.drop_last().filter(keep)
        })) by {
            reveal(Seq::filter);
        }
        i = i + 1;
    }
    assert(strings_view(requested@).take(requested@.len() as int) =~= strings_view(requested@));
    let mut j: usize = 0;
    let ghost base = strings_view(out@);
    while j < invalid.len()
        invariant
            j <= invalid@.len(),
            strings_view(out@) == base + strings_view(invalid@).take(j as int),
        decreases invalid.len() - j,
    {
        let ghost before = out@;
        out.push(invalid[j].clone());
        assert(strings_view(out@) =~= strings_view(before).push(invalid@[j as int]@));
        assert(strings_view(invalid@).take(j + 1) =~= strings_view(invalid@).take(j as int).push(invalid@[j as int]@));
        j = j + 1;
    }
    assert(strings_view(invalid@).take(invalid@.len() as int) =~= strings_view(invalid@));
    out
}

/// The note attached when some requested tools have no schema.
pub fn missing_schemas_message(missing: usize) -> (r: String)
    ensures
        r@ == decimal(missing as nat) + " tool(s) not invokable or unknown with current grants → use mcpmux_search_tools to discover allowed names"@,
{
    let n = decimal_chars(missing as u64);
    string_of(&concat(&n, &chars_of(" tool(s) not invokable or unknown with current grants → use mcpmux_search_tools to discover allowed names")))
}

/// For each requested name, the position of the first index entry with
/// that qualified name; names with no entry are skipped.
pub open spec fn schema_hits(qualified: Seq<Seq<char>>, names: Seq<Seq<char>>) -> Seq<int>
    decreases names.len(),
{
    if names.len() == 0 {
        Seq::empty()
    } else {
        let rest = schema_hits(qualified, names.drop_last());
        let n = names.last();
        if qualified.contains(n) {
            rest.push(choose|k: int| 0 <= k < qualified.len() && qualified[k] == n
                && forall|j: int| 0 <= j < k ==> qualified[j] != n)
        } else {
            rest
        }
    }
}

fn first_position(v: &Vec<String>, x: &String) -> (r: Option<usize>)
    ensures
        r is None <==> !strings_view(v@).contains(x@),
        r matches Some(k) ==> k < v@.len() && v@[k as int]@ == x@ && forall|j: int| 0 <= j < k ==> v@[j]@ != x@,
{
    let mut i: usize = 0;
    while i < v.len()
        invariant
            i <= v@.len(),
            forall|k: int| 0 <= k < i ==> v@[k]@ != x@,
        decreases v.len() - i,
    {
        if v[i] == *x {
            assert(strings_view(v@)[i as int] == x@);
            return Some(i);
        }
        i = i + 1;
    }
    proof {
        if strings_view(v@).contains(x@) {
            let k = choose|k: int| 0 <= k < v@.len() && strings_view(v@)[k] == x@;
            assert(v@[k]@ == x@);
        }
    }
    None
}

/// Positions of the index entries whose schemas are returned (see
/// [`schema_hits`]).
pub fn schema_positions(qualified_names: &Vec<String>, names: &Vec<String>) -> (r: Vec<usize>)
    ensures
        r@.map_values(|k: usize| k as int) == schema_hits(strings_view(qualified_names@), strings_view(names@)),
{
    let ghost q = strings_view(qualified_names@);
    let mut out: Vec<usize> = Vec::new();
    let mut i: usize = 0;
    while i < names.len()
        invariant
            i <= names@.len(),
            q == strings_view(qualified_names@),
            out@.map_values(|k: usize| k as int) == schema_hits(q, strings_view(names@).take(i as int)),
        decreases names.len() - i,
    {
        let ghost t1 = strings_view(names@).take(i + 1);
        assert(t1.drop_last() =~= strings_view(names@).take(i as int));
        assert(t1.last() == names@[i as int]@);
        let ghost before = out@;
        match first_position(qualified_names, &names[i]) {
            Some(k) => {
                out.push(k);
                proof {
                    let n = names@[i as int]@;
                    let c = choose|c: int| 0 <= c < q.len() && q[c] == n && forall|j: int| 0 <= j < c ==> q[j] != n;
                    assert(q[k as int] == n);
                    if c < k {
                        assert(qualified_names@[c]@ == n);
                    } else if c > k {
                        assert(q[k as int] != n);
                    }
                    assert(c == k);
                    assert(out@.map_values(|k: usize| k as int) =~= before.map_values(|k: usize| k as int).push(k as int));
                }
            },
            None => {},
        }
        i = i + 1;
    }
    assert(strings_view(names@).take(names@.len() as int) =~= strings_view(names@));
    out
}

} // verus!
