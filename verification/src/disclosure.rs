//! Resource and prompt disclosure: whether a `server_id` filter may be used,
//! which prompt a fetch names, and what the caller is told when a read or a
//! fetch is refused.
//!
//! The caller's binding servers, readable resources and fetchable prompts are
//! looked up elsewhere and handed in as plain values.

use vstd::prelude::*;
use crate::discovery::{levenshtein_suggestions, suggests};
use crate::invoke::qualifier;
use crate::package::strings_view;
use crate::text::{append_chars, chars_eq, chars_of, string_of};

verus! {

/// A server is active for the caller when its binding reaches it.
pub fn is_server_active(server_id: &str, binding_servers: &[String]) -> (b: bool)
    ensures
        b == strings_view(binding_servers@).contains(server_id@),
{
    let sid = chars_of(server_id);
    let mut i: usize = 0;
    while i < binding_servers.len()
        invariant
            i <= binding_servers@.len(),
            sid@ == server_id@,
            forall|k: int| 0 <= k < i ==> binding_servers@[k]@ != server_id@,
        decreases binding_servers.len() - i,
    {
        if chars_eq(&chars_of(binding_servers[i].as_str()), &sid) {
            assert(strings_view(binding_servers@)[i as int] == server_id@);
            return true;
        }
        i = i + 1;
    }
    assert forall|k: int| 0 <= k < strings_view(binding_servers@).len() implies
        #[trigger] strings_view(binding_servers@)[k] != server_id@ by {
        assert(strings_view(binding_servers@)[k] == binding_servers@[k]@);
    }
    false
}

/// The entries among `server_ids` that a `server_id` filter keeps.
pub open spec fn kept_by_filter(server_ids: Seq<Seq<char>>, server_filter: Option<Seq<char>>) -> int
    decreases server_ids.len(),
{
    if server_ids.len() == 0 {
        0
    } else {
        kept_by_filter(server_ids.drop_last(), server_filter) + (match server_filter {
            Some(s) => if server_ids.last() == s { 1int } else { 0int },
            None => 1int,
        })
    }
}

/// How many of the items (given by their servers) a `server_id` filter
/// keeps: all of them without a filter.
pub fn count_on_server(server_ids: &[String], server_filter: Option<&str>) -> (n: usize)
    ensures
        n as int == kept_by_filter(strings_view(server_ids@), match server_filter { Some(s) => Some(s@), None => None }),
{
    let ghost sf = match server_filter { Some(s) => Some(s@), None => None::<Seq<char>> };
    let filter_chars: Option<Vec<char>> = match server_filter {
        Some(s) => Some(chars_of(s)),
        None => None,
    };
    let ghost ids = strings_view(server_ids@);
    let mut n: usize = 0;
    let mut i: usize = 0;
    while i < server_ids.len()
        invariant
            i <= server_ids@.len(),
            ids == strings_view(server_ids@),
            filter_chars is Some <==> sf is Some,
            filter_chars matches Some(c) ==> sf == Some(c@),
            n <= i,
            n as int == kept_by_filter(ids.take(i as int), sf),
        decreases server_ids.len() - i,
    {
        assert(ids.take(i + 1).drop_last() =~= ids.take(i as int));
        assert(ids.take(i + 1).last() == server_ids@[i as int]@);
        let kept = match &filter_chars {
            Some(c) => chars_eq(&chars_of(server_ids[i].as_str()), c),
            None => true,
        };
        if kept {
            n = n + 1;
        }
        i = i + 1;
    }
    assert(ids.take(ids.len() as int) =~= ids);
    n
}

/// What a `server_id` filter on a search is answered.
#[derive(Debug, Clone, Copy, PartialEq, Eq, Structural)]
pub enum ServerFilterVerdict {
    /// No filter, or a filter on an active server with something to show.
    Allowed,
    /// The filtered server is not reached by the caller's binding.
    Inactive,
    /// The filtered server is active but nothing on it is granted.
    NotInBinding,
}

/// The verdict on a `server_id` filter, given the caller's binding servers
/// and how many granted items lie on the filtered server.
pub open spec fn filter_verdict(server_filter: Option<Seq<char>>, binding_servers: Seq<Seq<char>>, granted_on_server: int) -> ServerFilterVerdict {
    match server_filter {
        None => ServerFilterVerdict::Allowed,
        Some(s) => if !binding_servers.contains(s) {
            ServerFilterVerdict::Inactive
        } else if granted_on_server == 0 {
            ServerFilterVerdict::NotInBinding
        } else {
            ServerFilterVerdict::Allowed
        },
    }
}

/// Check a search's `server_id` filter: none passes; a server outside the
/// caller's binding is inactive; an active server on which none of the
/// granted items (given by their servers) lies is not in the binding.
pub fn check_server_filter(server_filter: Option<&str>, binding_servers: &[String], granted_servers: &[String]) -> (v: ServerFilterVerdict)
    ensures
        v == filter_verdict(
            match server_filter { Some(s) => Some(s@), None => None },
            strings_view(binding_servers@),
            kept_by_filter(strings_view(granted_servers@), match server_filter { Some(s) => Some(s@), None => None }),
        ),
{
    match server_filter {
        None => ServerFilterVerdict::Allowed,
        Some(sid) => {
            if !is_server_active(sid, binding_servers) {
                ServerFilterVerdict::Inactive
            } else if count_on_server(granted_servers, server_filter) == 0 {
                ServerFilterVerdict::NotInBinding
            } else {
                ServerFilterVerdict::Allowed
            }
        },
    }
}

/// `parts` joined with `sep` between neighbours.
pub open spec fn joined(parts: Seq<Seq<char>>, sep: Seq<char>) -> Seq<char>
    decreases parts.len(),
{
    if parts.len() == 0 {
        Seq::empty()
    } else if parts.len() == 1 {
        parts[0]
    } else {
        joined(parts.drop_last(), sep) + sep + parts.last()
    }
}

/// The strings of `parts` joined with `sep` (`[String]::join`).
pub fn join_strings(parts: &[String], sep: &str) -> (r: Vec<char>)
    ensures
        r@ == joined(strings_view(parts@), sep@),
{
    let ghost ps = strings_view(parts@);
    let sep_chars = chars_of(sep);
    let mut out: Vec<char> = Vec::new();
    let mut i: usize = 0;
    assert(ps.take(0) =~= Seq::<Seq<char>>::empty());
    while i < parts.len()
        invariant
            i <= parts@.len(),
            ps == strings_view(parts@),
            sep_chars@ == sep@,
            out@ == joined(ps.take(i as int), sep@),
        decreases parts.len() - i,
    {
        let ghost t = ps.take(i + 1);
        assert(t.drop_last() =~= ps.take(i as int));
        assert(t.last() == parts@[i as int]@);
        if i > 0 {
            append_chars(&mut out, &sep_chars);
        } else {
            assert(t.len() == 1);
        }
        append_chars(&mut out, &chars_of(parts[i].as_str()));
        i = i + 1;
    }
    assert(ps.take(ps.len() as int) =~= ps);
    out
}

/// What the disclosure tools read of a granted prompt (or resource) row.
#[derive(Debug, Clone)]
pub struct GrantedFeature {
    pub server_id: String,
    pub feature_name: String,
    /// `<server_id>_<feature_name>` as the feature row spells it.
    pub qualified_name: String,
    pub is_available: bool,
}

/// `f` is the feature `name` of server `server_id`.
pub open spec fn names_feature(f: GrantedFeature, server_id: Seq<char>, name: Seq<char>) -> bool {
    f.server_id@ == server_id && f.feature_name@ == name
}

/// The qualified name a fetch of `name` on `server_id` is reported under:
/// that of the first granted row for it, else `<server_id>_<name>`.
pub open spec fn prompt_qualified_name(rows: Seq<GrantedFeature>, server_id: Seq<char>, name: Seq<char>) -> Seq<char>
    decreases rows.len(),
{
    if rows.len() == 0 {
        qualifier(server_id) + name
    } else if names_feature(rows[0], server_id, name) {
        rows[0].qualified_name@
    } else {
        prompt_qualified_name(rows.drop_first(), server_id, name)
    }
}

/// Some granted row for `name` on `server_id` is available.
pub open spec fn is_fetchable(rows: Seq<GrantedFeature>, server_id: Seq<char>, name: Seq<char>) -> bool {
    exists|j: int| 0 <= j < rows.len() && names_feature(#[trigger] rows[j], server_id, name) && rows[j].is_available
}

/// Look a prompt up among the caller's fetchable rows: the name it is
/// reported under, and whether it may be fetched.
pub fn find_fetchable_prompt(rows: &[GrantedFeature], server_id: &str, prompt: &str) -> (r: (String, bool))
    ensures
        r.0@ == prompt_qualified_name(rows@, server_id@, prompt@),
        r.1 == is_fetchable(rows@, server_id@, prompt@),
{
    let sid = chars_of(server_id);
    let name = chars_of(prompt);
    let mut qualified: Option<String> = None;
    let mut fetchable = false;
    let mut i: usize = 0;
    assert(rows@.skip(0) =~= rows@);
    while i < rows.len()
        invariant
            i <= rows@.len(),
            sid@ == server_id@,
            name@ == prompt@,
            qualified matches Some(q) ==> q@ == prompt_qualified_name(rows@, server_id@, prompt@),
            qualified is None ==> prompt_qualified_name(rows@, server_id@, prompt@)
                == prompt_qualified_name(rows@.skip(i as int), server_id@, prompt@),
            fetchable == exists|j: int| 0 <= j < i && names_feature(#[trigger] rows@[j], server_id@, prompt@) && rows@[j].is_available,
        decreases rows.len() - i,
    {
        let f = &rows[i];
        let hit = chars_eq(&chars_of(f.server_id.as_str()), &sid) && chars_eq(&chars_of(f.feature_name.as_str()), &name);
        proof {
            let t = rows@.skip(i as int);
            assert(t[0] == rows@[i as int]);
            assert(t.drop_first() =~= rows@.skip(i + 1));
        }
        if hit {
            if qualified.is_none() {
                qualified = Some(f.qualified_name.clone());
            }
            if f.is_available {
                fetchable = true;
            }
        }
        i = i + 1;
    }
    let q = match qualified {
        Some(q) => q,
        None => {
            proof {
                assert(rows@.skip(rows@.len() as int) =~= Seq::<GrantedFeature>::empty());
            }
            let mut out = sid;
            out.push('_');
            append_chars(&mut out, &name);
            assert(out@ =~= qualifier(server_id@) + prompt@);
            string_of(&out)
        },
    };
    (q, fetchable)
}

/// The feature names of the rows on `server_id`, in order.
pub open spec fn names_on_server(rows: Seq<GrantedFeature>, server_id: Seq<char>) -> Seq<Seq<char>>
    decreases rows.len(),
{
    if rows.len() == 0 {
        Seq::empty()
    } else {
        let rest = names_on_server(rows.drop_last(), server_id);
        if rows.last().server_id@ == server_id {
            rest.push(rows.last().feature_name@)
        } else {
            rest
        }
    }
}

/// The feature names of the rows on `server_id`: what a refused fetch is
/// matched against for suggestions.
pub fn feature_names_on_server(rows: &[GrantedFeature], server_id: &str) -> (r: Vec<String>)
    ensures
        strings_view(r@) == names_on_server(rows@, server_id@),
{
    let sid = chars_of(server_id);
    let mut out: Vec<String> = Vec::new();
    let mut i: usize = 0;
    while i < rows.len()
        invariant
            i <= rows@.len(),
            sid@ == server_id@,
            strings_view(out@) == names_on_server(rows@.take(i as int), server_id@),
        decreases rows.len() - i,
    {
        assert(rows@.take(i + 1).drop_last() =~= rows@.take(i as int));
        assert(rows@.take(i + 1).last() == rows@[i as int]);
        if chars_eq(&chars_of(rows[i].server_id.as_str()), &sid) {
            let ghost before = out@;
            out.push(rows[i].feature_name.clone());
            assert(strings_view(out@) =~= strings_view(before).push(rows@[i as int].feature_name@));
        }
        i = i + 1;
    }
    assert(rows@.take(rows@.len() as int) =~= rows@);
    out
}

/// What a refused resource read is told, given the suggested URIs.
pub open spec fn unreadable_resource_text(uri: Seq<char>, suggestions: Seq<Seq<char>>) -> Seq<char> {
    if suggestions.len() == 0 {
        "resource '"@ + uri + "' is not readable with current grants"@
    } else {
        "resource '"@ + uri + "' is not readable \u{2014} did you mean "@ + joined(suggestions, ", "@) + "?"@
    }
}

/// The message for a refused resource read.
pub fn unreadable_resource_message(uri: &str, suggestions: &[String]) -> (r: String)
    ensures
        r@ == unreadable_resource_text(uri@, strings_view(suggestions@)),
{
    let mut out = chars_of("resource '");
    append_chars(&mut out, &chars_of(uri));
    if suggestions.len() == 0 {
        append_chars(&mut out, &chars_of("' is not readable with current grants"));
    } else {
        append_chars(&mut out, &chars_of("' is not readable \u{2014} did you mean "));
        append_chars(&mut out, &join_strings(suggestions, ", "));
        append_chars(&mut out, &chars_of("?"));
    }
    string_of(&out)
}

/// What a refused prompt fetch is told, given the suggested prompt names.
pub open spec fn unfetchable_prompt_text(qualified: Seq<char>, server_id: Seq<char>, prompt: Seq<char>, suggestions: Seq<Seq<char>>) -> Seq<char> {
    if suggestions.len() == 0 {
        "prompt '"@ + qualified + "' is not fetchable with current grants (server_id='"@ + server_id
            + "', prompt='"@ + prompt + "')"@
    } else {
        "prompt '"@ + qualified + "' is not fetchable \u{2014} did you mean "@ + joined(suggestions, ", "@) + "?"@
    }
}

/// The message for a refused prompt fetch.
pub fn unfetchable_prompt_message(qualified: &str, server_id: &str, prompt: &str, suggestions: &[String]) -> (r: String)
    ensures
        r@ == unfetchable_prompt_text(qualified@, server_id@, prompt@, strings_view(suggestions@)),
{
    let mut out = chars_of("prompt '");
    append_chars(&mut out, &chars_of(qualified));
    if suggestions.len() == 0 {
        append_chars(&mut out, &chars_of("' is not fetchable with current grants (server_id='"));
        append_chars(&mut out, &chars_of(server_id));
        append_chars(&mut out, &chars_of("', prompt='"));
        append_chars(&mut out, &chars_of(prompt));
        append_chars(&mut out, &chars_of("')"));
    } else {
        append_chars(&mut out, &chars_of("' is not fetchable \u{2014} did you mean "));
        append_chars(&mut out, &join_strings(suggestions, ", "));
        append_chars(&mut out, &chars_of("?"));
    }
    string_of(&out)
}

/// The refusal of a read of `uri`: the three readable URIs nearest to it
/// are suggested.
pub fn resource_refusal(uri: &str, readable_uris: &[String]) -> (r: String)
    ensures
        exists|s: Seq<Seq<char>>| suggests(uri@, readable_uris@, 3, s) && r@ == unreadable_resource_text(uri@, s),
{
    let suggestions = levenshtein_suggestions(uri, readable_uris, 3);
    unreadable_resource_message(uri, &suggestions)
}

/// The refusal of a fetch of `prompt` on `server_id`: the five prompt names
/// of that server nearest to it are suggested.
pub fn prompt_refusal(qualified: &str, server_id: &str, prompt: &str, index: &[GrantedFeature]) -> (r: String)
    ensures
        exists|names: Seq<String>, s: Seq<Seq<char>>|
            strings_view(names) == names_on_server(index@, server_id@) && suggests(prompt@, names, 5, s)
                && r@ == unfetchable_prompt_text(qualified@, server_id@, prompt@, s),
{
    let names = feature_names_on_server(index, server_id);
    let suggestions = levenshtein_suggestions(prompt, &names, 5);
    unfetchable_prompt_message(qualified, server_id, prompt, &suggestions)
}

/// The hint added to a resource search that matched nothing.
pub fn resource_search_hint(total: usize) -> (r: Option<&'static str>)
    ensures
        total == 0 <==> r is Some,
        r matches Some(h) ==> h@ == "No readable resources matched. Verify FeatureSet grants include resource members, or use mcpmux_bind_current_workspace when the server is inactive."@,
{
    if total == 0 {
        Some("No readable resources matched. Verify FeatureSet grants include resource members, or use mcpmux_bind_current_workspace when the server is inactive.")
    } else {
        None
    }
}

/// The hint added to a prompt search that matched nothing.
pub fn prompt_search_hint(total: usize) -> (r: Option<&'static str>)
    ensures
        total == 0 <==> r is Some,
        r matches Some(h) ==> h@ == "No fetchable prompts matched. Verify FeatureSet grants include prompt members, or use mcpmux_bind_current_workspace when the server is inactive."@,
{
    if total == 0 {
        Some("No fetchable prompts matched. Verify FeatureSet grants include prompt members, or use mcpmux_bind_current_workspace when the server is inactive.")
    } else {
        None
    }
}

} // verus!
