//! `mcpmux_invoke_tool` argument handling: which server and tool the agent
//! named (with the aliases agents use), which argument object to forward,
//! and how a qualified tool name maps back to the backend's bare name.

use vstd::prelude::*;
use crate::text::{chars_eq, chars_of, slice_chars, starts_with, string_of};

verus! {

/// One field of the call's JSON arguments object, as far as the argument
/// handling reads it: its key, its text when the value is a JSON string, its
/// truth value when it is a JSON boolean, and the value itself.
#[derive(Debug, Clone)]
pub struct ArgField<V> {
    pub key: String,
    pub text: Option<String>,
    pub flag: Option<bool>,
    pub value: V,
}

/// `t` with every leading repetition of `p` removed.
pub open spec fn strip_prefixes(t: Seq<char>, p: Seq<char>) -> Seq<char>
    decreases t.len(),
{
    if p.len() > 0 && p.is_prefix_of(t) {
        strip_prefixes(t.skip(p.len() as int), p)
    } else {
        t
    }
}

/// `<server_id>_`, the prefix of a qualified tool name.
pub open spec fn qualifier(server_id: Seq<char>) -> Seq<char> {
    server_id.push('_')
}

/// Strip repeated `<server_id>_` prefixes from a tool name, as agents pass
/// the qualified name from search results.
pub fn normalize_invoke_tool_name(server_id: &str, tool: &str) -> (r: String)
    ensures
        r@ == strip_prefixes(tool@, qualifier(server_id@)),
{
    let mut prefix = chars_of(server_id);
    prefix.push('_');
    assert(prefix@ =~= qualifier(server_id@));
    let mut cur = chars_of(tool);
    while starts_with(&cur, &prefix)
        invariant
            prefix@ == qualifier(server_id@),
            strip_prefixes(cur@, prefix@) == strip_prefixes(tool@, prefix@),
        decreases cur@.len(),
    {
        let rest = slice_chars(&cur, prefix.len(), cur.len());
        assert(rest@ =~= cur@.skip(prefix@.len() as int));
        cur = rest;
    }
    string_of(&cur)
}

/// Whether an invokable feature is the tool the caller named: its bare name
/// equals the normalized name, or its qualified name equals the input.
pub fn feature_matches_tool_name(feature_name: &str, qualified_name: &str, tool_input: &str, bare: &str) -> (b: bool)
    ensures
        b == (feature_name@ == bare@ || qualified_name@ == tool_input@),
{
    chars_eq(&chars_of(feature_name), &chars_of(bare)) || chars_eq(&chars_of(qualified_name), &chars_of(tool_input))
}

/// Index of the first field with key `key`.
pub open spec fn field_index<V>(args: Seq<ArgField<V>>, key: Seq<char>) -> Option<int>
    decreases args.len(),
{
    if args.len() == 0 {
        None
    } else if args[0].key@ == key {
        Some(0)
    } else {
        match field_index(args.drop_first(), key) {
            Some(i) => Some(i + 1),
            None => None,
        }
    }
}

proof fn lemma_field_index<V>(args: Seq<ArgField<V>>, key: Seq<char>)
    ensures
        field_index(args, key) matches Some(i) ==> 0 <= i < args.len() && args[i].key@ == key
            && forall|j: int| 0 <= j < i ==> args[j].key@ != key,
        field_index(args, key) is None ==> forall|j: int| 0 <= j < args.len() ==> args[j].key@ != key,
    decreases args.len(),
{
    if args.len() > 0 {
        lemma_field_index(args.drop_first(), key);
        assert forall|j: int| 1 <= j < args.len() implies args[j] == args.drop_first()[j - 1] by {}
    }
}

/// The first non-empty string among the fields named by `keys`, tried in order.
pub open spec fn first_nonempty<V>(args: Seq<ArgField<V>>, keys: Seq<Seq<char>>) -> Option<Seq<char>>
    decreases keys.len(),
{
    if keys.len() == 0 {
        None
    } else {
        match field_index(args, keys[0]) {
            Some(i) => match args[i].text {
                Some(t) => if t@.len() > 0 {
                    Some(t@)
                } else {
                    first_nonempty(args, keys.drop_first())
                },
                None => first_nonempty(args, keys.drop_first()),
            },
            None => first_nonempty(args, keys.drop_first()),
        }
    }
}

/// The first of the fields named by `keys` that is present, whatever its value.
pub open spec fn first_present<V>(args: Seq<ArgField<V>>, keys: Seq<Seq<char>>) -> Option<int>
    decreases keys.len(),
{
    if keys.len() == 0 {
        None
    } else {
        match field_index(args, keys[0]) {
            Some(i) => Some(i),
            None => first_present(args, keys.drop_first()),
        }
    }
}

pub open spec fn server_keys() -> Seq<Seq<char>> {
    seq![
        seq!['s', 'e', 'r', 'v', 'e', 'r', '_', 'i', 'd'],
        seq!['s', 'e', 'r', 'v', 'e', 'r', 'I', 'd'],
        seq!['s', 'e', 'r', 'v', 'e', 'r'],
    ]
}

pub open spec fn tool_keys() -> Seq<Seq<char>> {
    seq![seq!['t', 'o', 'o', 'l'], seq!['t', 'o', 'o', 'l', '_', 'n', 'a', 'm', 'e']]
}

pub open spec fn args_keys() -> Seq<Seq<char>> {
    seq![
        seq!['a', 'r', 'g', 's'],
        seq!['p', 'a', 'r', 'a', 'm', 's'],
        seq!['a', 'r', 'g', 'u', 'm', 'e', 'n', 't', 's'],
    ]
}

pub open spec fn preflight_key() -> Seq<char> {
    seq!['p', 'r', 'e', 'f', 'l', 'i', 'g', 'h', 't']
}

fn find_field<V>(args: &[ArgField<V>], key: &Vec<char>) -> (r: Option<usize>)
    ensures
        r matches Some(i) ==> i < args@.len() && field_index(args@, key@) == Some(i as int),
        r is None ==> field_index(args@, key@) is None,
{
    proof {
        lemma_field_index(args@, key@);
        assert(args@.skip(0) =~= args@);
    }
    let mut i: usize = 0;
    while i < args.len()
        invariant
            i <= args@.len(),
            forall|j: int| 0 <= j < i ==> args@[j].key@ != key@,
            field_index(args@, key@) == (match field_index(args@.skip(i as int), key@) {
                Some(k) => Some(k + i),
                None => None,
            }),
        decreases args.len() - i,
    {
        assert(args@.skip(i as int).drop_first() =~= args@.skip(i + 1));
        assert(args@.skip(i as int)[0] == args@[i as int]);
        if chars_eq(&chars_of(args[i].key.as_str()), key) {
            return Some(i);
        }
        i = i + 1;
    }
    assert(args@.skip(i as int).len() == 0);
    None
}

fn first_nonempty_str<V>(args: &[ArgField<V>], keys: &Vec<Vec<char>>) -> (r: Option<String>)
    ensures
        match r {
            Some(s) => first_nonempty(args@, keys.deep_view()) == Some(s@),
            None => first_nonempty(args@, keys.deep_view()) is None,
        },
{
    let ghost ks = keys.deep_view();
    assert(ks.skip(0) =~= ks);
    let mut k: usize = 0;
    while k < keys.len()
        invariant
            k <= keys@.len(),
            ks == keys.deep_view(),
            first_nonempty(args@, ks) == first_nonempty(args@, ks.skip(k as int)),
        decreases keys.len() - k,
    {
        let ghost rest = ks.skip(k as int);
        assert(rest[0] == keys@[k as int]@);
        assert(rest.drop_first() =~= ks.skip(k + 1));
        match find_field(args, &keys[k]) {
            Some(i) => {
                match &args[i].text {
                    Some(t) => {
                        if !t.as_str().is_empty() {
                            return Some(t.clone());
                        }
                    },
                    None => {},
                }
            },
            None => {},
        }
        k = k + 1;
    }
    None
}

/// The server the caller named: `server_id`, else `serverId`, else `server`
/// (the first non-empty string among them).
pub fn resolve_invoke_server_id<V>(args: &[ArgField<V>]) -> (r: Option<String>)
    ensures
        match r {
            Some(s) => first_nonempty(args@, server_keys()) == Some(s@),
            None => first_nonempty(args@, server_keys()) is None,
        },
{
    let keys: Vec<Vec<char>> = vec![
        vec!['s', 'e', 'r', 'v', 'e', 'r', '_', 'i', 'd'],
        vec!['s', 'e', 'r', 'v', 'e', 'r', 'I', 'd'],
        vec!['s', 'e', 'r', 'v', 'e', 'r'],
    ];
    assert(keys.deep_view()[0] =~= server_keys()[0]);
    assert(keys.deep_view()[1] =~= server_keys()[1]);
    assert(keys.deep_view()[2] =~= server_keys()[2]);
    assert(keys.deep_view() =~= server_keys());
    first_nonempty_str(args, &keys)
}

/// The tool the caller named: `tool`, else `tool_name`.
pub fn resolve_invoke_tool<V>(args: &[ArgField<V>]) -> (r: Option<String>)
    ensures
        match r {
            Some(s) => first_nonempty(args@, tool_keys()) == Some(s@),
            None => first_nonempty(args@, tool_keys()) is None,
        },
{
    let keys: Vec<Vec<char>> = vec![vec!['t', 'o', 'o', 'l'], vec!['t', 'o', 'o', 'l', '_', 'n', 'a', 'm', 'e']];
    assert(keys.deep_view()[0] =~= tool_keys()[0]);
    assert(keys.deep_view()[1] =~= tool_keys()[1]);
    assert(keys.deep_view() =~= tool_keys());
    first_nonempty_str(args, &keys)
}

/// The backend arguments: the value of `args`, else `params`, else
/// `arguments`; `None` when none is present (the caller sends `{}`).
pub fn resolve_invoke_tool_args<V>(args: &[ArgField<V>]) -> (r: Option<&V>)
    ensures
        match first_present(args@, args_keys()) {
            Some(i) => r == Some(&args@[i].value),
            None => r is None,
        },
{
    let keys: Vec<Vec<char>> = vec![
        vec!['a', 'r', 'g', 's'],
        vec!['p', 'a', 'r', 'a', 'm', 's'],
        vec!['a', 'r', 'g', 'u', 'm', 'e', 'n', 't', 's'],
    ];
    assert(keys.deep_view()[0] =~= args_keys()[0]);
    assert(keys.deep_view()[1] =~= args_keys()[1]);
    assert(keys.deep_view()[2] =~= args_keys()[2]);
    assert(keys.deep_view() =~= args_keys());
    let ghost ks = keys.deep_view();
    assert(ks.skip(0) =~= ks);
    let mut k: usize = 0;
    while k < keys.len()
        invariant
            k <= keys@.len(),
            ks == keys.deep_view(),
            ks == args_keys(),
            first_present(args@, ks) == first_present(args@, ks.skip(k as int)),
        decreases keys.len() - k,
    {
        let ghost rest = ks.skip(k as int);
        assert(rest[0] == keys@[k as int]@);
        assert(rest.drop_first() =~= ks.skip(k + 1));
        match find_field(args, &keys[k]) {
            Some(i) => {
                return Some(&args[i].value);
            },
            None => {},
        }
        k = k + 1;
    }
    None
}

/// Whether the call asks for a readiness check only (`preflight: true`).
pub fn invoke_preflight<V>(args: &[ArgField<V>]) -> (b: bool)
    ensures
        b == (field_index(args@, preflight_key()) matches Some(i) && args@[i].flag == Some(true)),
{
    let key: Vec<char> = vec!['p', 'r', 'e', 'f', 'l', 'i', 'g', 'h', 't'];
    assert(key@ =~= preflight_key());
    let found = find_field(args, &key);
    match found {
        Some(i) => match args[i].flag {
            Some(b) => b,
            None => false,
        },
        None => false,
    }
}

/// The qualified name of the tool the caller named when no invokable
/// feature matched: the input itself when it already carries
/// `<server_id>_`, else `<server_id>_<bare>`.
pub fn qualify_tool_name(server_id: &str, tool_input: &str, bare: &str) -> (r: String)
    ensures
        r@ == (if qualifier(server_id@).is_prefix_of(tool_input@) {
            tool_input@
        } else {
            qualifier(server_id@) + bare@
        }),
{
    let mut prefix = chars_of(server_id);
    prefix.push('_');
    assert(prefix@ =~= qualifier(server_id@));
    let input = chars_of(tool_input);
    if starts_with(&input, &prefix) {
        string_of(&input)
    } else {
        let mut out = prefix;
        let b = chars_of(bare);
        let mut i: usize = 0;
        while i < b.len()
            invariant
                i <= b@.len(),
                out@ == qualifier(server_id@) + b@.take(i as int),
            decreases b.len() - i,
        {
            out.push(b[i]);
            assert(out@ =~= qualifier(server_id@) + b@.take(i + 1));
            i = i + 1;
        }
        assert(b@.take(b@.len() as int) =~= b@);
        string_of(&out)
    }
}

/// Normalizing a name the agent already gave bare leaves it unchanged, and
/// normalizing twice is the same as once.
pub proof fn law_normalize_idempotent(t: Seq<char>, p: Seq<char>)
    requires
        p.len() > 0,
    ensures
        strip_prefixes(strip_prefixes(t, p), p) == strip_prefixes(t, p),
        !p.is_prefix_of(strip_prefixes(t, p)),
    decreases t.len(),
{
    if p.is_prefix_of(t) {
        law_normalize_idempotent(t.skip(p.len() as int), p);
    }
}

} // verus!

verus! {

/// Keys of a list of object members are distinct.
pub open spec fn distinct_keys<V>(m: Seq<(String, V)>) -> bool {
    forall|i: int, j: int| 0 <= i < j < m.len() ==> #[trigger] m[i].0@ != #[trigger] m[j].0@
}

/// The value stored under `k`, if any.
pub open spec fn member<V>(m: Seq<(String, V)>, k: Seq<char>) -> Option<V> {
    if exists|i: int| 0 <= i < m.len() && m[i].0@ == k {
        Some(m[choose|i: int| 0 <= i < m.len() && m[i].0@ == k].1)
    } else {
        None
    }
}

/// The backend arguments a call forwards: a JSON object, or any other value.
#[derive(Debug, Clone)]
pub enum ToolArgs<V> {
    Object(Vec<(String, V)>),
    Other(V),
}

fn has_key<V>(m: &Vec<(String, V)>, k: &String) -> (b: bool)
    ensures
        b == exists|i: int| 0 <= i < m@.len() && m@[i].0@ == k@,
{
    let mut i: usize = 0;
    while i < m.len()
        invariant
            i <= m@.len(),
            forall|j: int| 0 <= j < i ==> m@[j].0@ != k@,
        decreases m.len() - i,
    {
        if m[i].0 == *k {
            return true;
        }
        i = i + 1;
    }
    false
}

/// The members of `defaults` whose key `caller` does not set, in order.
pub open spec fn unset_defaults<V>(defaults: Seq<(String, V)>, caller: Seq<(String, V)>) -> Seq<(String, V)>
    decreases defaults.len(),
{
    if defaults.len() == 0 {
        Seq::empty()
    } else {
        let rest = unset_defaults(defaults.drop_last(), caller);
        if exists|i: int| 0 <= i < caller.len() && caller[i].0@ == defaults.last().0@ {
            rest
        } else {
            rest.push(defaults.last())
        }
    }
}

/// Layer a server's default params under the caller's arguments: an object
/// gets, after its own members, every default whose key it does not set
/// (the caller wins on a collision); anything else, or no defaults, is
/// forwarded unchanged.
pub fn merge_default_params<V>(args: ToolArgs<V>, defaults: Vec<(String, V)>) -> (r: ToolArgs<V>)
    ensures
        match args {
            ToolArgs::Other(_) => r == args,
            ToolArgs::Object(caller) => if defaults@.len() == 0 {
                r == args
            } else {
                r matches ToolArgs::Object(merged) && merged@ == caller@ + unset_defaults(defaults@, caller@)
            },
        },
{
    if defaults.len() == 0 {
        return args;
    }
    let caller = match args {
        ToolArgs::Other(v) => return ToolArgs::Other(v),
        ToolArgs::Object(m) => m,
    };
    let ghost c = caller@;
    let ghost d = defaults@;
    let mut extra: Vec<(String, V)> = Vec::new();
    let mut rest = defaults;
    let mut rev: Vec<(String, V)> = Vec::new();
    assert(d.take(d.len() as int) =~= d);
    while rest.len() > 0
        invariant
            rest@ == d.take(rest@.len() as int),
            rest@.len() <= d.len(),
            caller@ == c,
            unset_defaults(d, c) == unset_defaults(rest@, c) + rev@.reverse(),
        decreases rest.len(),
    {
        let e = rest.pop().unwrap();
        let ghost n: int = rest@.len() as int;
        assert(d.take(n + 1).drop_last() =~= d.take(n));
        assert(d.take(n + 1).last() == e);
        let ghost before = rev@;
        if !has_key(&caller, &e.0) {
            rev.push(e);
            assert(rev@.reverse() =~= seq![e] + before.reverse());
            assert(unset_defaults(d.take(n), c).push(e) + before.reverse()
                =~= unset_defaults(d.take(n), c) + (seq![e] + before.reverse()));
        }
    }
    assert(unset_defaults(rest@, c) =~= Seq::<(String, V)>::empty());
    let ghost target = rev@.reverse();
    while rev.len() > 0
        invariant
            target == extra@ + rev@.reverse(),
        decreases rev.len(),
    {
        let ghost before = rev@;
        let e = rev.pop().unwrap();
        assert(before.reverse() =~= seq![e] + rev@.reverse());
        extra.push(e);
        assert(extra@ + rev@.reverse() =~= (extra@.drop_last() + seq![e]) + rev@.reverse());
    }
    assert(extra@ =~= target);
    let mut merged = caller;
    let ghost base = merged@;
    let mut tail = extra;
    let mut rev2: Vec<(String, V)> = Vec::new();
    while tail.len() > 0
        invariant
            target == tail@ + rev2@.reverse(),
        decreases tail.len(),
    {
        let ghost before = tail@;
        let e = tail.pop().unwrap();
        assert(before =~= tail@.push(e));
        let ghost rb = rev2@;
        rev2.push(e);
        assert(rev2@.reverse() =~= seq![e] + rb.reverse());
        assert(before + rb.reverse() =~= tail@ + rev2@.reverse());
    }
    while rev2.len() > 0
        invariant
            base + target == merged@ + rev2@.reverse(),
        decreases rev2.len(),
    {
        let ghost before = rev2@;
        let e = rev2.pop().unwrap();
        assert(before.reverse() =~= seq![e] + rev2@.reverse());
        merged.push(e);
        assert(merged@ + rev2@.reverse() =~= (merged@.drop_last() + seq![e]) + rev2@.reverse());
    }
    assert(merged@ =~= base + target);
    ToolArgs::Object(merged)
}

/// The caller wins: a key the caller sets keeps the caller's value in the
/// merged arguments, and a default shows up only under keys the caller
/// left unset.
pub proof fn law_caller_wins<V>(caller: Seq<(String, V)>, defaults: Seq<(String, V)>, k: Seq<char>)
    requires
        distinct_keys(caller),
        exists|i: int| 0 <= i < caller.len() && caller[i].0@ == k,
    ensures
        forall|j: int| 0 <= j < unset_defaults(defaults, caller).len() ==> #[trigger] unset_defaults(defaults, caller)[j].0@ != k,
        member(caller + unset_defaults(defaults, caller), k) == member(caller, k),
    decreases defaults.len(),
{
    let u = unset_defaults(defaults, caller);
    if defaults.len() > 0 {
        law_caller_wins(caller, defaults.drop_last(), k);
    }
    let m = caller + u;
    let i = choose|i: int| 0 <= i < caller.len() && caller[i].0@ == k;
    assert(m[i].0@ == k);
    let i2 = choose|i2: int| 0 <= i2 < m.len() && m[i2].0@ == k;
    if i2 >= caller.len() {
        assert(u[i2 - caller.len()].0@ == k);
    } else if i2 != i {
        if i2 < i {
            assert(caller[i2].0@ != caller[i].0@);
        } else {
            assert(caller[i].0@ != caller[i2].0@);
        }
    }
    let i3 = choose|i3: int| 0 <= i3 < caller.len() && caller[i3].0@ == k;
    if i3 != i {
        if i3 < i {
            assert(caller[i3].0@ != caller[i].0@);
        } else {
            assert(caller[i].0@ != caller[i3].0@);
        }
    }
    assert(m[i2] == caller[i2]);
}

/// What the invoke flow reads of one of the caller's invokable feature rows.
#[derive(Debug, Clone)]
pub struct InvokableTool {
    pub server_id: String,
    pub feature_name: String,
    /// `<server_id>_<feature_name>` as the feature row spells it.
    pub qualified_name: String,
    /// The feature is a tool (not a prompt or resource).
    pub is_tool: bool,
    pub is_available: bool,
}

/// `t` is the tool the caller named on `server_id`.
pub open spec fn names_tool(t: InvokableTool, server_id: Seq<char>, tool_input: Seq<char>, bare: Seq<char>) -> bool {
    t.is_tool && t.server_id@ == server_id && (t.feature_name@ == bare || t.qualified_name@ == tool_input)
}

/// The first invokable row that is the tool the caller named.
pub fn find_invoked_tool(tools: &[InvokableTool], server_id: &str, tool_input: &str, bare: &str) -> (r: Option<usize>)
    ensures
        r matches Some(i) ==> i < tools@.len() && names_tool(tools@[i as int], server_id@, tool_input@, bare@)
            && forall|j: int| 0 <= j < i ==> !names_tool(#[trigger] tools@[j], server_id@, tool_input@, bare@),
        r is None ==> forall|j: int| 0 <= j < tools@.len() ==> !names_tool(#[trigger] tools@[j], server_id@, tool_input@, bare@),
{
    let sid = chars_of(server_id);
    let mut i: usize = 0;
    while i < tools.len()
        invariant
            i <= tools@.len(),
            sid@ == server_id@,
            forall|j: int| 0 <= j < i ==> !names_tool(#[trigger] tools@[j], server_id@, tool_input@, bare@),
        decreases tools.len() - i,
    {
        let t = &tools[i];
        if t.is_tool && chars_eq(&chars_of(t.server_id.as_str()), &sid)
            && feature_matches_tool_name(t.feature_name.as_str(), t.qualified_name.as_str(), tool_input, bare) {
            return Some(i);
        }
        i = i + 1;
    }
    None
}

/// The tool a call names, as the flow goes on with it: the qualified name it
/// is reported under (that of the matching row, else [`qualify_tool_name`]'s)
/// and, when a row matched, whether that row is available.
pub fn resolve_invoked_tool(tools: &[InvokableTool], server_id: &str, tool_input: &str, bare: &str) -> (r: (String, Option<bool>))
    ensures
        match find_first_named(tools@, server_id@, tool_input@, bare@) {
            Some(i) => r.0@ == tools@[i].qualified_name@ && r.1 == Some(tools@[i].is_available),
            None => r.1 is None && r.0@ == (if qualifier(server_id@).is_prefix_of(tool_input@) {
                tool_input@
            } else {
                qualifier(server_id@) + bare@
            }),
        },
{
    match find_invoked_tool(tools, server_id, tool_input, bare) {
        Some(i) => {
            proof {
                lemma_find_first_named(tools@, server_id@, tool_input@, bare@, Some(i as int));
            }
            (tools[i].qualified_name.clone(), Some(tools[i].is_available))
        },
        None => {
            proof {
                lemma_find_first_named(tools@, server_id@, tool_input@, bare@, None);
            }
            (qualify_tool_name(server_id, tool_input, bare), None)
        },
    }
}

/// The first index of a row naming the tool, if any.
pub open spec fn find_first_named(tools: Seq<InvokableTool>, server_id: Seq<char>, tool_input: Seq<char>, bare: Seq<char>) -> Option<int>
    decreases tools.len(),
{
    if tools.len() == 0 {
        None
    } else if names_tool(tools[0], server_id, tool_input, bare) {
        Some(0)
    } else {
        match find_first_named(tools.drop_first(), server_id, tool_input, bare) {
            Some(i) => Some(i + 1),
            None => None,
        }
    }
}

proof fn lemma_find_first_named(tools: Seq<InvokableTool>, server_id: Seq<char>, tool_input: Seq<char>, bare: Seq<char>, r: Option<int>)
    requires
        r matches Some(i) ==> 0 <= i < tools.len() && names_tool(tools[i], server_id, tool_input, bare)
            && forall|j: int| 0 <= j < i ==> !names_tool(#[trigger] tools[j], server_id, tool_input, bare),
        r is None ==> forall|j: int| 0 <= j < tools.len() ==> !names_tool(#[trigger] tools[j], server_id, tool_input, bare),
    ensures
        find_first_named(tools, server_id, tool_input, bare) == r,
    decreases tools.len(),
{
    if tools.len() > 0 {
        let t = tools.drop_first();
        if !names_tool(tools[0], server_id, tool_input, bare) {
            let r1 = match r {
                Some(i) => Some(i - 1),
                None => None,
            };
            if let Some(i) = r {
                assert(i != 0);
                assert(t[i - 1] == tools[i]);
                assert forall|j: int| 0 <= j < i - 1 implies !names_tool(#[trigger] t[j], server_id, tool_input, bare) by {
                    assert(t[j] == tools[j + 1]);
                }
            } else {
                assert forall|j: int| 0 <= j < t.len() implies !names_tool(#[trigger] t[j], server_id, tool_input, bare) by {
                    assert(t[j] == tools[j + 1]);
                }
            }
            lemma_find_first_named(t, server_id, tool_input, bare, r1);
        } else {
            if let Some(i) = r {
                assert(i == 0);
            } else {
                assert(!names_tool(tools[0], server_id, tool_input, bare));
            }
        }
    }
}

/// The feature names of the invokable rows on `server_id`, in order: what a
/// refused call is matched against for suggestions.
pub open spec fn tool_names_on_server(tools: Seq<InvokableTool>, server_id: Seq<char>) -> Seq<Seq<char>>
    decreases tools.len(),
{
    if tools.len() == 0 {
        Seq::empty()
    } else {
        let rest = tool_names_on_server(tools.drop_last(), server_id);
        if tools.last().server_id@ == server_id {
            rest.push(tools.last().feature_name@)
        } else {
            rest
        }
    }
}

/// The feature names of the invokable rows on `server_id`.
pub fn invokable_names_on_server(tools: &[InvokableTool], server_id: &str) -> (r: Vec<String>)
    ensures
        r@.map_values(|s: String| s@) == tool_names_on_server(tools@, server_id@),
{
    let sid = chars_of(server_id);
    let mut out: Vec<String> = Vec::new();
    let mut i: usize = 0;
    while i < tools.len()
        invariant
            i <= tools@.len(),
            sid@ == server_id@,
            out@.map_values(|s: String| s@) == tool_names_on_server(tools@.take(i as int), server_id@),
        decreases tools.len() - i,
    {
        assert(tools@.take(i + 1).drop_last() =~= tools@.take(i as int));
        assert(tools@.take(i + 1).last() == tools@[i as int]);
        if chars_eq(&chars_of(tools[i].server_id.as_str()), &sid) {
            let ghost before = out@;
            out.push(tools[i].feature_name.clone());
            assert(out@.map_values(|s: String| s@) =~= before.map_values(|s: String| s@).push(tools@[i as int].feature_name@));
        }
        i = i + 1;
    }
    assert(tools@.take(tools@.len() as int) =~= tools@);
    out
}

/// Where a call to `mcpmux_invoke_tool` ends, once its server and tool are
/// known.
#[derive(Debug, Clone, Copy, PartialEq, Eq, Structural)]
pub enum InvokeOutcome {
    /// The server is not reached by the caller's binding: not ready.
    NotInBinding,
    /// The server is in the binding but not ready (its connection or its
    /// required inputs): not ready, with the denial's reason.
    NotReady,
    /// The tool is not invokable and only readiness was asked: permission
    /// denied, pointing at search.
    PreflightDenied,
    /// The tool is not invokable: an error with name suggestions.
    NotInvokable,
    /// Everything is ready and only readiness was asked.
    PreflightOk,
    /// The call goes to the backend.
    Call,
}

/// The outcome of a call: the binding first, then the readiness denial,
/// then whether the named tool is invokable (its row matched and is
/// available), then whether only readiness was asked.
pub open spec fn invoke_outcome(in_binding: bool, not_ready: bool, matched_available: Option<bool>, preflight: bool) -> InvokeOutcome {
    if !in_binding {
        InvokeOutcome::NotInBinding
    } else if not_ready {
        InvokeOutcome::NotReady
    } else if matched_available != Some(true) {
        if preflight {
            InvokeOutcome::PreflightDenied
        } else {
            InvokeOutcome::NotInvokable
        }
    } else if preflight {
        InvokeOutcome::PreflightOk
    } else {
        InvokeOutcome::Call
    }
}

/// Decide where a call ends (see [`invoke_outcome`]). `not_ready` is whether
/// the readiness check of a server in the binding found a denial.
pub fn invoke_decision(in_binding: bool, not_ready: bool, matched_available: Option<bool>, preflight: bool) -> (d: InvokeOutcome)
    ensures
        d == invoke_outcome(in_binding, not_ready, matched_available, preflight),
{
    if !in_binding {
        InvokeOutcome::NotInBinding
    } else if not_ready {
        InvokeOutcome::NotReady
    } else if !matches!(matched_available, Some(true)) {
        if preflight {
            InvokeOutcome::PreflightDenied
        } else {
            InvokeOutcome::NotInvokable
        }
    } else if preflight {
        InvokeOutcome::PreflightOk
    } else {
        InvokeOutcome::Call
    }
}

/// A backend call is made only for a server in the caller's binding that is
/// ready, for an available tool it can invoke, when more than readiness was
/// asked; a readiness check never reaches the backend.
pub proof fn law_invoke_reaches_backend_only_when_granted(in_binding: bool, not_ready: bool, matched_available: Option<bool>, preflight: bool)
    ensures
        invoke_outcome(in_binding, not_ready, matched_available, preflight) == InvokeOutcome::Call
            <==> (in_binding && !not_ready && matched_available == Some(true) && !preflight),
        preflight ==> invoke_outcome(in_binding, not_ready, matched_available, preflight) != InvokeOutcome::Call,
{
}

} // verus!
