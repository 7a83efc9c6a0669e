//! The managed Cursor `preToolUse` workspace-context hook: its command line,
//! how its entry is recognized among the user's hooks, and the result
//! record of install / status / uninstall.

use vstd::prelude::*;
use crate::json::{
    field_index, find_field, jfields, lemma_field_index, lemma_field_index_of, jview, jviews, lemma_jfields, lemma_jfields_push, lemma_jfields_update,
    lemma_jviews, lemma_jviews_push, parse_json, pretty_json, json_parse, json_pretty, put_field, Json, JsonView,
};
use crate::text::{all_ws, chars_eq, chars_of, concat, contains_chars, contains_seq, is_blank, string_of};

verus! {

/// File name of the managed hook script.
pub const SCRIPT_NAME: &'static str = "mcpmux-workspace-context.js";

/// Tool matcher of the managed entry.
pub const MATCHER: &'static str = "MCP:mcpmux_.*";

/// Timeout of the managed entry, in seconds.
pub const TIMEOUT_SECS: u64 = 5;

/// The command that runs the hook script.
pub open spec fn hook_command_of(script: Seq<char>) -> Seq<char> {
    "node "@ + script
}

/// `node <script>`.
pub fn hook_command(script: &str) -> (r: String)
    ensures
        r@ == hook_command_of(script@),
{
    string_of(&concat(&chars_of("node "), &chars_of(script)))
}

/// Whether a hook entry is the managed one: its command mentions the
/// script's file name or is exactly the managed command. An entry without a
/// string command counts as having the empty command.
pub open spec fn is_managed(command: Option<Seq<char>>, script: Seq<char>) -> bool {
    let c = match command {
        Some(c) => c,
        None => Seq::empty(),
    };
    contains_seq(c, SCRIPT_NAME@) || c == hook_command_of(script)
}

/// Whether a hook entry with `command` is the managed entry.
pub fn is_managed_entry(command: Option<&str>, script: &str) -> (b: bool)
    ensures
        b == is_managed(match command { Some(c) => Some(c@), None => None }, script@),
{
    let c: Vec<char> = match command {
        Some(c) => chars_of(c),
        None => Vec::new(),
    };
    let name = chars_of(SCRIPT_NAME);
    if contains_chars(&c, &name) {
        return true;
    }
    let managed = chars_of(hook_command(script).as_str());
    chars_eq(&c, &managed)
}

/// Result of install / status / uninstall of the managed hook.
#[derive(Debug, Clone)]
pub struct CursorHookResult {
    pub action: String,
    pub installed: bool,
    pub hooks_path: String,
    pub script_path: String,
    pub backed_up: Option<String>,
    pub error: Option<String>,
    pub jsonc_refused: bool,
    pub manual_entry: String,
}

impl CursorHookResult {
    /// A result reporting nothing installed (the error paths): the given
    /// action, error and paths, no backup.
    pub fn empty(
        action: &str,
        error: Option<String>,
        jsonc_refused: bool,
        hooks_path: String,
        script_path: String,
        manual_entry: String,
    ) -> (r: Self)
        ensures
            r.action@ == action@,
            !r.installed,
            r.hooks_path == hooks_path,
            r.script_path == script_path,
            r.backed_up is None,
            r.error == error,
            r.jsonc_refused == jsonc_refused,
            r.manual_entry == manual_entry,
    {
        CursorHookResult {
            action: action.to_owned(),
            installed: false,
            hooks_path,
            script_path,
            backed_up: None,
            error,
            jsonc_refused,
            manual_entry,
        }
    }
}

/// The entries of `hooks.preToolUse` in a hooks file, when the file is an
/// object whose `hooks` is an object whose `preToolUse` is an array.
pub open spec fn pre_tool_use_entries(root: JsonView) -> Option<Seq<JsonView>> {
    match root {
        JsonView::Object(fs) => match field_index(fs, "hooks"@) {
            Some(i) => match fs[i].1 {
                JsonView::Object(hfs) => match field_index(hfs, "preToolUse"@) {
                    Some(k) => match hfs[k].1 {
                        JsonView::Array(es) => Some(es),
                        _ => None,
                    },
                    None => None,
                },
                _ => None,
            },
            None => None,
        },
        _ => None,
    }
}

/// The string `command` of a hook entry, if it is an object that has one.
pub open spec fn entry_command_of(e: JsonView) -> Option<Seq<char>> {
    match e {
        JsonView::Object(fs) => match field_index(fs, "command"@) {
            Some(i) => match fs[i].1 {
                JsonView::Str(c) => Some(c),
                _ => None,
            },
            None => None,
        },
        _ => None,
    }
}

/// The hook entries other than the managed one, in order.
pub open spec fn unmanaged_entries(entries: Seq<JsonView>, script: Seq<char>) -> Seq<JsonView>
    decreases entries.len(),
{
    if entries.len() == 0 {
        Seq::empty()
    } else {
        let rest = unmanaged_entries(entries.drop_last(), script);
        if is_managed(entry_command_of(entries.last()), script) {
            rest
        } else {
            rest.push(entries.last())
        }
    }
}

/// The managed `preToolUse` entry.
pub open spec fn managed_entry_of(script: Seq<char>) -> JsonView {
    JsonView::Object(seq![
        ("command"@, JsonView::Str(hook_command_of(script))),
        ("matcher"@, JsonView::Str(MATCHER@)),
        ("timeout"@, JsonView::UInt(TIMEOUT_SECS)),
    ])
}

/// The file written for a manual install: version 1 and the managed entry.
pub open spec fn manual_file_of(script: Seq<char>) -> JsonView {
    JsonView::Object(seq![
        ("version"@, JsonView::UInt(1)),
        ("hooks"@, JsonView::Object(seq![("preToolUse"@, JsonView::Array(seq![managed_entry_of(script)]))])),
    ])
}

/// Some `preToolUse` entry of the file is the managed one.
pub open spec fn has_managed_entry(root: JsonView, script: Seq<char>) -> bool {
    match pre_tool_use_entries(root) {
        Some(es) => exists|i: int| 0 <= i < es.len() && is_managed(entry_command_of(#[trigger] es[i]), script),
        None => false,
    }
}

/// The managed entry as a JSON value.
pub fn managed_entry(script: &str) -> (j: Json)
    ensures
        jview(j) == managed_entry_of(script@),
{
    let mut fs: Vec<(String, Json)> = Vec::new();
    fs.push(("command".to_owned(), Json::Str(hook_command(script))));
    fs.push(("matcher".to_owned(), Json::Str(MATCHER.to_owned())));
    fs.push(("timeout".to_owned(), Json::UInt(TIMEOUT_SECS)));
    proof {
        lemma_jfields(fs@);
        assert(jfields(fs@) =~= seq![
            ("command"@, JsonView::Str(hook_command_of(script@))),
            ("matcher"@, JsonView::Str(MATCHER@)),
            ("timeout"@, JsonView::UInt(TIMEOUT_SECS)),
        ]);
    }
    Json::Object(fs)
}

/// The string command of a hook entry.
pub fn entry_command(e: &Json) -> (r: Option<&str>)
    ensures
        match r {
            Some(c) => entry_command_of(jview(*e)) == Some(c@),
            None => entry_command_of(jview(*e)) is None,
        },
{
    match e {
        Json::Object(fs) => {
            proof {
                lemma_jfields(fs@);
            }
            match find_field(fs, "command") {
                Some(i) => match &fs[i].1 {
                    Json::Str(c) => Some(c.as_str()),
                    _ => None,
                },
                None => None,
            }
        },
        _ => None,
    }
}

/// Whether a hook entry is the managed one.
pub fn is_managed_json(e: &Json, script: &str) -> (b: bool)
    ensures
        b == is_managed(entry_command_of(jview(*e)), script@),
{
    is_managed_entry(entry_command(e), script)
}

/// Drop every managed entry, keeping the others in order.
pub fn strip_managed_json(entries: Vec<Json>, script: &str) -> (r: Vec<Json>)
    ensures
        jviews(r@) == unmanaged_entries(jviews(entries@), script@),
{
    let ghost all = entries@;
    let mut rev: Vec<Json> = Vec::new();
    let mut src = entries;
    proof {
        assert(all.take(all.len() as int) =~= all);
    }
    while src.len() > 0
        invariant
            src@ == all.take(src@.len() as int),
            src@.len() <= all.len(),
            unmanaged_entries(jviews(all), script@) == unmanaged_entries(jviews(src@), script@) + jviews(rev@).reverse(),
        decreases src.len(),
    {
        let ghost n: int = src@.len() - 1;
        let ghost before_src = src@;
        let e = src.pop().unwrap();
        assert(before_src.drop_last() =~= src@);
        let managed = is_managed_json(&e, script);
        let ghost before = rev@;
        proof {
            lemma_jviews_push(src@, e);
            assert(before_src =~= src@.push(e));
            let js = jviews(src@);
            assert(js.push(jview(e)).drop_last() =~= js);
            assert(js.push(jview(e)).last() == jview(e));
            assert(unmanaged_entries(jviews(before_src), script@) == (if managed {
                unmanaged_entries(js, script@)
            } else {
                unmanaged_entries(js, script@).push(jview(e))
            }));
        }
        if !managed {
            rev.push(e);
            proof {
                lemma_jviews_push(before, e);
                assert(jviews(rev@).reverse() =~= seq![jview(e)] + jviews(before).reverse());
                assert(unmanaged_entries(jviews(src@), script@).push(jview(e)) + jviews(before).reverse()
                    =~= unmanaged_entries(jviews(src@), script@) + (seq![jview(e)] + jviews(before).reverse()));
            }
        }
    }
    let mut out: Vec<Json> = Vec::new();
    assert(jviews(src@) =~= Seq::<JsonView>::empty());
    let ghost target = jviews(rev@).reverse();
    assert(unmanaged_entries(jviews(all), script@) =~= target);
    while rev.len() > 0
        invariant
            target == jviews(out@) + jviews(rev@).reverse(),
        decreases rev.len(),
    {
        let ghost before = rev@;
        let e = rev.pop().unwrap();
        proof {
            assert(before =~= rev@.push(e));
            lemma_jviews_push(rev@, e);
            assert(jviews(before).reverse() =~= seq![jview(e)] + jviews(rev@).reverse());
        }
        let ghost out_before = out@;
        out.push(e);
        proof {
            lemma_jviews_push(out_before, e);
            assert(jviews(out@) + jviews(rev@).reverse() =~= jviews(out_before) + (seq![jview(e)] + jviews(rev@).reverse()));
        }
    }
    assert(jviews(out@) =~= target);
    out
}

/// Why a hooks file's shape keeps the managed entry out.
#[derive(Debug, Clone, Copy, PartialEq, Eq, Structural)]
pub enum HooksShapeError {
    RootNotObject,
    HooksNotObject,
    PreToolUseNotArray,
}

/// The view of a field value, or `default` when the field is absent.
pub open spec fn field_or(fields: Seq<(Seq<char>, JsonView)>, key: Seq<char>, default: JsonView) -> JsonView {
    match field_index(fields, key) {
        Some(i) => fields[i].1,
        None => default,
    }
}

/// The hooks file with the managed entry merged in: `version` defaults to
/// 1, `hooks` to `{}` and `hooks.preToolUse` to `[]`; the managed entry
/// replaces any older managed entry at the end of `preToolUse`; every other
/// field and entry is kept.
pub open spec fn merged_file(root: JsonView, script: Seq<char>) -> Result<JsonView, HooksShapeError> {
    match root {
        JsonView::Object(fs) => {
            let fs1 = if field_index(fs, "version"@) is Some {
                fs
            } else {
                fs.push(("version"@, JsonView::UInt(1)))
            };
            match field_or(fs1, "hooks"@, JsonView::Object(Seq::empty())) {
                JsonView::Object(hfs) => match field_or(hfs, "preToolUse"@, JsonView::Array(Seq::empty())) {
                    JsonView::Array(es) => Ok(JsonView::Object(put_field(fs1, "hooks"@, JsonView::Object(
                        put_field(hfs, "preToolUse"@, JsonView::Array(unmanaged_entries(es, script).push(managed_entry_of(script)))),
                    )))),
                    _ => Err(HooksShapeError::PreToolUseNotArray),
                },
                _ => Err(HooksShapeError::HooksNotObject),
            }
        },
        _ => Err(HooksShapeError::RootNotObject),
    }
}

/// Take the field `key` out of `fields` for rewriting: its position (the
/// field is appended with `default` first when absent) and its value.
fn take_field(fields: &mut Vec<(String, Json)>, key: &str, default: Json) -> (r: (usize, String, Json))
    ensures
        r.0 < old(fields)@.len() + 1,
        r.0 <= final(fields)@.len(),
        r.1@ == key@,
        jview(r.2) == field_or(jfields(old(fields)@), key@, jview(default)),
        forall|x: (String, Json)| #![trigger final(fields)@.insert(r.0 as int, x)]
            x.0@ == key@ ==> jfields(final(fields)@.insert(r.0 as int, x)) == put_field(jfields(old(fields)@), key@, jview(x.1)),
{
    proof {
        lemma_jfields(fields@);
    }
    let ghost f0 = fields@;
    let i: usize = match find_field(fields, key) {
        Some(i) => i,
        None => {
            fields.push((key.to_owned(), default));
            fields.len() - 1
        },
    };
    let ghost f1 = fields@;
    proof {
        lemma_jfields(f1);
        lemma_jfields(f0);
        lemma_field_index(jfields(f0), key@);
    }
    let (k, v) = fields.remove(i);
    proof {
        assert forall|x: (String, Json)| #![trigger fields@.insert(i as int, x)]
            x.0@ == key@ implies jfields(fields@.insert(i as int, x)) == put_field(jfields(f0), key@, jview(x.1)) by {
            let f = fields@.insert(i as int, x);
            assert(f =~= f1.update(i as int, x));
            lemma_jfields_update(f1, i as int, x);
            if field_index(jfields(f0), key@) is None {
                assert(f1 =~= f0.push(f1[i as int]));
                lemma_jfields_push(f0, f1[i as int]);
                assert(jfields(f1).update(i as int, (x.0@, jview(x.1))) =~= jfields(f0).push((key@, jview(x.1))));
            }
        }
    }
    (i, k, v)
}

/// Merge the managed entry into a hooks file (see [`merged_file`]).
pub fn merge_hooks_file(root: Json, script: &str) -> (r: Result<Json, HooksShapeError>)
    ensures
        match merged_file(jview(root), script@) {
            Ok(v) => r matches Ok(j) && jview(j) == v,
            Err(e) => r == Err::<Json, HooksShapeError>(e),
        },
{
    match root {
        Json::Object(fields) => {
            let mut fs = fields;
            let ghost f0 = jfields(fs@);
            if find_field(&fs, "version").is_none() {
                let ghost before = fs@;
                fs.push(("version".to_owned(), Json::UInt(1)));
                proof {
                    assert(fs@ == before.push(fs@.last()));
                    lemma_jfields_push(before, fs@.last());
                }
            }
            let ghost f1 = jfields(fs@);
            assert(f1 == (if field_index(f0, "version"@) is Some { f0 } else { f0.push(("version"@, JsonView::UInt(1))) }));
            let ghost fs_before = fs@;
            let (hi, hk, hv) = take_field(&mut fs, "hooks", Json::Object(Vec::new()));
            assert(jfields(Seq::<(String, Json)>::empty()) =~= Seq::<(Seq<char>, JsonView)>::empty());
            match hv {
                Json::Object(hfields) => {
                    let mut hfs = hfields;
                    let ghost h0 = jfields(hfs@);
                    let (pi, pk, pv) = take_field(&mut hfs, "preToolUse", Json::Array(Vec::new()));
                    assert(jviews(Seq::<Json>::empty()) =~= Seq::<JsonView>::empty());
                    match pv {
                        Json::Array(es) => {
                            let ghost ev = jviews(es@);
                            let mut kept = strip_managed_json(es, script);
                            let ghost before_kept = kept@;
                            let m = managed_entry(script);
                            kept.push(m);
                            proof {
                                lemma_jviews_push(before_kept, m);
                            }
                            let new_pre = Json::Array(kept);
                            assert(jview(new_pre) == JsonView::Array(unmanaged_entries(ev, script@).push(managed_entry_of(script@))));
                            let ghost hfs_mid = hfs@;
                            let ghost pv_new = jview(new_pre);
                            hfs.insert(pi, (pk, new_pre));
                            assert(hfs@ == hfs_mid.insert(pi as int, (pk, new_pre)));
                            assert(jfields(hfs@) == put_field(h0, "preToolUse"@, pv_new));
                            let new_hooks = Json::Object(hfs);
                            let ghost fs_mid = fs@;
                            let ghost hv_new = jview(new_hooks);
                            assert(hv_new == JsonView::Object(put_field(h0, "preToolUse"@, pv_new)));
                            fs.insert(hi, (hk, new_hooks));
                            assert(fs@ == fs_mid.insert(hi as int, (hk, new_hooks)));
                            assert(jfields(fs@) == put_field(f1, "hooks"@, hv_new));
                            Ok(Json::Object(fs))
                        },
                        _ => Err(HooksShapeError::PreToolUseNotArray),
                    }
                },
                _ => Err(HooksShapeError::HooksNotObject),
            }
        },
        _ => Err(HooksShapeError::RootNotObject),
    }
}

/// The hooks file with every managed entry removed from
/// `hooks.preToolUse`; a file without that array is left as it is.
pub open spec fn removed_file(root: JsonView, script: Seq<char>) -> JsonView {
    match root {
        JsonView::Object(fs) => match field_index(fs, "hooks"@) {
            Some(i) => match fs[i].1 {
                JsonView::Object(hfs) => match field_index(hfs, "preToolUse"@) {
                    Some(k) => match hfs[k].1 {
                        JsonView::Array(es) => JsonView::Object(put_field(fs, "hooks"@, JsonView::Object(
                            put_field(hfs, "preToolUse"@, JsonView::Array(unmanaged_entries(es, script))),
                        ))),
                        _ => root,
                    },
                    None => root,
                },
                _ => root,
            },
            None => root,
        },
        _ => root,
    }
}

proof fn lemma_put_same(fs: Seq<(Seq<char>, JsonView)>, key: Seq<char>)
    requires
        field_index(fs, key) is Some,
    ensures
        put_field(fs, key, fs[field_index(fs, key)->0].1) == fs,
{
    lemma_field_index(fs, key);
    let i = field_index(fs, key)->0;
    assert(fs.update(i, (key, fs[i].1)) =~= fs);
}

/// Remove every managed entry from a hooks file (see [`removed_file`]).
pub fn remove_from_hooks_file(root: Json, script: &str) -> (r: Json)
    ensures
        jview(r) == removed_file(jview(root), script@),
{
    match root {
        Json::Object(fields) => {
            let mut fs = fields;
            let ghost f0 = jfields(fs@);
            if find_field(&fs, "hooks").is_none() {
                return Json::Object(fs);
            }
            proof {
                lemma_field_index(f0, "hooks"@);
                lemma_put_same(f0, "hooks"@);
            }
            let (hi, hk, hv) = take_field(&mut fs, "hooks", Json::Null);
            let ghost fs_mid = fs@;
            match hv {
                Json::Object(hfields) => {
                    let mut hfs = hfields;
                    let ghost h0 = jfields(hfs@);
                    if find_field(&hfs, "preToolUse").is_none() {
                        let ghost hv0 = jview(Json::Object(hfs));
                        fs.insert(hi, (hk, Json::Object(hfs)));
                        assert(fs@ == fs_mid.insert(hi as int, (hk, Json::Object(hfs))));
                        return Json::Object(fs);
                    }
                    proof {
                        lemma_field_index(h0, "preToolUse"@);
                        lemma_put_same(h0, "preToolUse"@);
                    }
                    let (pi, pk, pv) = take_field(&mut hfs, "preToolUse", Json::Null);
                    let ghost hfs_mid = hfs@;
                    match pv {
                        Json::Array(es) => {
                            let kept = strip_managed_json(es, script);
                            let new_pre = Json::Array(kept);
                            hfs.insert(pi, (pk, new_pre));
                            assert(hfs@ == hfs_mid.insert(pi as int, (pk, new_pre)));
                            let new_hooks = Json::Object(hfs);
                            fs.insert(hi, (hk, new_hooks));
                            assert(fs@ == fs_mid.insert(hi as int, (hk, new_hooks)));
                            Json::Object(fs)
                        },
                        other => {
                            hfs.insert(pi, (pk, other));
                            assert(hfs@ == hfs_mid.insert(pi as int, (pk, other)));
                            fs.insert(hi, (hk, Json::Object(hfs)));
                            assert(fs@ == fs_mid.insert(hi as int, (hk, Json::Object(hfs))));
                            Json::Object(fs)
                        },
                    }
                },
                other => {
                    fs.insert(hi, (hk, other));
                    assert(fs@ == fs_mid.insert(hi as int, (hk, other)));
                    Json::Object(fs)
                },
            }
        },
        other => other,
    }
}

/// The `hooks.preToolUse` entries of a hooks file (see [`pre_tool_use_entries`]).
pub fn pre_tool_use_of(root: &Json) -> (r: Option<&Vec<Json>>)
    ensures
        match r {
            Some(v) => pre_tool_use_entries(jview(*root)) == Some(jviews(v@)),
            None => pre_tool_use_entries(jview(*root)) is None,
        },
{
    match root {
        Json::Object(fs) => {
            proof {
                lemma_jfields(fs@);
            }
            match find_field(fs, "hooks") {
                Some(i) => match &fs[i].1 {
                    Json::Object(hfs) => {
                        proof {
                            lemma_jfields(hfs@);
                        }
                        match find_field(hfs, "preToolUse") {
                            Some(k) => match &hfs[k].1 {
                                Json::Array(es) => Some(es),
                                _ => None,
                            },
                            None => None,
                        }
                    },
                    _ => None,
                },
                None => None,
            }
        },
        _ => None,
    }
}

/// Whether a hooks file holds the managed entry.
pub fn holds_managed_entry(root: &Json, script: &str) -> (b: bool)
    ensures
        b == has_managed_entry(jview(*root), script@),
{
    match pre_tool_use_of(root) {
        Some(es) => {
            proof {
                lemma_jviews(es@);
            }
            let mut i: usize = 0;
            while i < es.len()
                invariant
                    i <= es@.len(),
                    pre_tool_use_entries(jview(*root)) == Some(jviews(es@)),
                    jviews(es@).len() == es@.len(),
                    forall|j: int| 0 <= j < es@.len() ==> #[trigger] jviews(es@)[j] == jview(es@[j]),
                    forall|j: int| 0 <= j < i ==> !is_managed(entry_command_of(#[trigger] jviews(es@)[j]), script@),
                decreases es.len() - i,
            {
                if is_managed_json(&es[i], script) {
                    assert(is_managed(entry_command_of(jviews(es@)[i as int]), script@));
                    return true;
                }
                i = i + 1;
            }
            false
        },
        None => false,
    }
}

/// Why the managed entry cannot be merged into, or removed from, hooks.json.
#[derive(Debug, Clone)]
pub enum HooksFileError {
    /// The file is not plain JSON (JSONC with comments, or invalid).
    NotPlainJson,
    /// The file is JSON of a shape the entry cannot go into.
    Shape(HooksShapeError),
    /// serde_json could not write the file; its message.
    Serialize { detail: String },
}

/// The message for a file that is not plain JSON.
pub open spec fn not_plain_json_text() -> Seq<char> {
    "hooks.json is not plain JSON (JSONC/comments or invalid syntax). Merge the manual entry yourself \u{2014} McpMux will not rewrite this file."@
}

impl HooksFileError {
    /// The message shown to the user.
    pub fn message(&self) -> (r: String)
        ensures
            r@ == match self {
                HooksFileError::NotPlainJson => not_plain_json_text(),
                HooksFileError::Shape(HooksShapeError::RootNotObject) => "hooks.json root must be a JSON object"@,
                HooksFileError::Shape(HooksShapeError::HooksNotObject) => "hooks.json `hooks` key must be an object"@,
                HooksFileError::Shape(HooksShapeError::PreToolUseNotArray) => "hooks.json `hooks.preToolUse` must be an array"@,
                HooksFileError::Serialize { detail } => "failed to serialize hooks.json: "@ + detail@,
            },
    {
        match self {
            HooksFileError::NotPlainJson => "hooks.json is not plain JSON (JSONC/comments or invalid syntax). Merge the manual entry yourself \u{2014} McpMux will not rewrite this file.".to_owned(),
            HooksFileError::Shape(HooksShapeError::RootNotObject) => "hooks.json root must be a JSON object".to_owned(),
            HooksFileError::Shape(HooksShapeError::HooksNotObject) => "hooks.json `hooks` key must be an object".to_owned(),
            HooksFileError::Shape(HooksShapeError::PreToolUseNotArray) => "hooks.json `hooks.preToolUse` must be an array".to_owned(),
            HooksFileError::Serialize { detail } => string_of(&concat(&chars_of("failed to serialize hooks.json: "), &chars_of(detail.as_str()))),
        }
    }

    /// Whether the file was refused (as opposed to failing to be written):
    /// it is not plain JSON, or not of the expected shape.
    pub fn is_refusal(&self) -> (b: bool)
        ensures
            b == !(self is Serialize),
    {
        !matches!(self, HooksFileError::Serialize { .. })
    }
}

/// The file a merge starts from: a fresh `{"version": 1, "hooks": {}}` when
/// there is none or it is blank, else what it parses to (`None`: not JSON).
pub open spec fn merge_source(existing: Option<Seq<char>>) -> Option<JsonView> {
    match existing {
        None => Some(fresh_file()),
        Some(t) => if all_ws(t) { Some(fresh_file()) } else { json_parse(t) },
    }
}

/// `{"version": 1, "hooks": {}}`.
pub open spec fn fresh_file() -> JsonView {
    JsonView::Object(seq![("version"@, JsonView::UInt(1)), ("hooks"@, JsonView::Object(Seq::empty()))])
}

fn fresh_hooks_file() -> (j: Json)
    ensures
        jview(j) == fresh_file(),
{
    let mut fs: Vec<(String, Json)> = Vec::new();
    fs.push(("version".to_owned(), Json::UInt(1)));
    fs.push(("hooks".to_owned(), Json::Object(Vec::new())));
    proof {
        lemma_jfields(fs@);
        assert(jfields(Seq::<(String, Json)>::empty()) =~= Seq::<(Seq<char>, JsonView)>::empty());
        assert(jfields(fs@) =~= seq![("version"@, JsonView::UInt(1)), ("hooks"@, JsonView::Object(Seq::empty()))]);
    }
    Json::Object(fs)
}

/// Write a file out (a serde_json failure would become
/// [`HooksFileError::Serialize`]; none occurs for a JSON value).
fn write_file(j: Json) -> (r: Result<String, HooksFileError>)
    ensures
        r matches Ok(t) && t@ == json_pretty(jview(j)),
{
    match pretty_json(j) {
        Ok(t) => Ok(t),
        Err(detail) => Err(HooksFileError::Serialize { detail }),
    }
}

/// The text of hooks.json with the managed entry merged in (see
/// [`merge_source`] and [`merged_file`]).
pub fn merge_pre_tool_use(existing: Option<&str>, script: &str) -> (r: Result<String, HooksFileError>)
    ensures
        match merge_source(match existing { Some(t) => Some(t@), None => None }) {
            None => r matches Err(HooksFileError::NotPlainJson),
            Some(root) => match merged_file(root, script@) {
                Err(e) => r matches Err(HooksFileError::Shape(x)) && x == e,
                Ok(v) => r matches Ok(t) && t@ == json_pretty(v),
            },
        },
{
    let root = match existing {
        None => fresh_hooks_file(),
        Some(t) => if is_blank(&chars_of(t)) {
            fresh_hooks_file()
        } else {
            match parse_json(t) {
                Some(j) => j,
                None => return Err(HooksFileError::NotPlainJson),
            }
        },
    };
    match merge_hooks_file(root, script) {
        Ok(j) => write_file(j),
        Err(e) => Err(HooksFileError::Shape(e)),
    }
}

/// The text of hooks.json with the managed entry removed (see
/// [`removed_file`]).
pub fn remove_managed_entry(existing: &str, script: &str) -> (r: Result<String, HooksFileError>)
    ensures
        match json_parse(existing@) {
            None => r matches Err(HooksFileError::NotPlainJson),
            Some(root) => r matches Ok(t) && t@ == json_pretty(removed_file(root, script@)),
        },
{
    match parse_json(existing) {
        Some(j) => write_file(remove_from_hooks_file(j, script)),
        None => Err(HooksFileError::NotPlainJson),
    }
}

/// The text a user pastes to install by hand: version 1 and the managed
/// entry.
pub fn manual_entry_text(script: &str) -> (r: String)
    ensures
        r@ == json_pretty(manual_file_of(script@)),
{
    let mut list: Vec<Json> = Vec::new();
    let m = managed_entry(script);
    list.push(m);
    let mut hooks: Vec<(String, Json)> = Vec::new();
    hooks.push(("preToolUse".to_owned(), Json::Array(list)));
    let mut fs: Vec<(String, Json)> = Vec::new();
    fs.push(("version".to_owned(), Json::UInt(1)));
    fs.push(("hooks".to_owned(), Json::Object(hooks)));
    proof {
        lemma_jfields(fs@);
        lemma_jfields(hooks@);
        lemma_jviews(list@);
        assert(jviews(list@) =~= seq![managed_entry_of(script@)]);
        assert(jfields(hooks@) =~= seq![("preToolUse"@, JsonView::Array(seq![managed_entry_of(script@)]))]);
        assert(jfields(fs@) =~= seq![
            ("version"@, JsonView::UInt(1)),
            ("hooks"@, JsonView::Object(seq![("preToolUse"@, JsonView::Array(seq![managed_entry_of(script@)]))])),
        ]);
    }
    match pretty_json(Json::Object(fs)) {
        Ok(t) => t,
        Err(_) => "{}".to_owned(),
    }
}

/// The install state of the managed hook, from hooks.json's text (`None`:
/// there is no file) and whether the script is on disk: installed when the
/// file holds the managed entry and the script exists; a file that is not
/// plain JSON is reported, refused, with nothing installed.
pub fn hook_status(
    hooks_json: Option<&str>,
    script: &str,
    script_exists: bool,
    hooks_path: String,
    script_path: String,
    manual_entry: String,
) -> (r: CursorHookResult)
    ensures
        r.action@ == "status"@,
        r.backed_up is None,
        r.hooks_path == hooks_path,
        r.script_path == script_path,
        r.manual_entry == manual_entry,
        match hooks_json {
            None => !r.installed && r.error is None && !r.jsonc_refused,
            Some(t) => match json_parse(t@) {
                None => !r.installed && r.jsonc_refused && (r.error matches Some(m) && m@ == not_plain_json_text()),
                Some(v) => r.error is None && !r.jsonc_refused
                    && r.installed == (script_exists && has_managed_entry(v, script@)),
            },
        },
{
    let installed = match hooks_json {
        None => false,
        Some(t) => match parse_json(t) {
            Some(root) => script_exists && holds_managed_entry(&root, script),
            None => {
                let e = HooksFileError::NotPlainJson;
                return CursorHookResult::empty("status", Some(e.message()), true, hooks_path, script_path, manual_entry);
            },
        },
    };
    CursorHookResult {
        action: "status".to_owned(),
        installed,
        hooks_path,
        script_path,
        backed_up: None,
        error: None,
        jsonc_refused: false,
        manual_entry,
    }
}

/// The action an install reports: `updated` when hooks.json existed, else
/// `created`.
pub fn install_action(existed: bool) -> (r: &'static str)
    ensures
        r@ == (if existed { "updated"@ } else { "created"@ }),
{
    if existed { "updated" } else { "created" }
}

proof fn lemma_put_field_index(fs: Seq<(Seq<char>, JsonView)>, k: Seq<char>, v: JsonView, k2: Seq<char>)
    ensures
        k2 == k ==> (field_index(put_field(fs, k, v), k) matches Some(i) && put_field(fs, k, v)[i] == (k, v)),
        k2 != k ==> field_index(put_field(fs, k, v), k2) == field_index(fs, k2),
        k2 != k ==> forall|i: int| #![trigger field_index(fs, k2), fs[i]] field_index(fs, k2) == Some(i) ==> put_field(fs, k, v)[i] == fs[i],
{
    lemma_field_index(fs, k);
    lemma_field_index(fs, k2);
    let p = put_field(fs, k, v);
    match field_index(fs, k) {
        Some(i) => {
            assert forall|j: int| 0 <= j < p.len() && j != i implies #[trigger] p[j] == fs[j] by {}
            if k2 == k {
                lemma_field_index_of(p, k, Some(i));
            } else {
                assert forall|j: int| 0 <= j < p.len() implies #[trigger] p[j].0 == fs[j].0 by {}
                lemma_field_index_of(p, k2, field_index(fs, k2));
            }
        },
        None => {
            assert forall|j: int| 0 <= j < fs.len() implies #[trigger] p[j] == fs[j] by {}
            if k2 == k {
                lemma_field_index_of(p, k, Some(fs.len() as int));
            } else {
                lemma_field_index_of(p, k2, field_index(fs, k2));
            }
        },
    }
}

proof fn lemma_put_field_twice(fs: Seq<(Seq<char>, JsonView)>, k: Seq<char>, v: JsonView)
    ensures
        put_field(put_field(fs, k, v), k, v) == put_field(fs, k, v),
{
    lemma_put_field_index(fs, k, v, k);
    let p = put_field(fs, k, v);
    lemma_field_index(p, k);
    let i = field_index(p, k)->0;
    assert(p.update(i, (k, v)) =~= p);
}

proof fn lemma_unmanaged_are_unmanaged(es: Seq<JsonView>, script: Seq<char>)
    ensures
        forall|i: int| 0 <= i < unmanaged_entries(es, script).len()
            ==> !is_managed(entry_command_of(#[trigger] unmanaged_entries(es, script)[i]), script),
        unmanaged_entries(unmanaged_entries(es, script), script) == unmanaged_entries(es, script),
    decreases es.len(),
{
    if es.len() > 0 {
        lemma_unmanaged_are_unmanaged(es.drop_last(), script);
        let rest = unmanaged_entries(es.drop_last(), script);
        let u = unmanaged_entries(es, script);
        if !is_managed(entry_command_of(es.last()), script) {
            assert(u.drop_last() =~= rest);
            assert(u.last() == es.last());
        }
    }
}

proof fn lemma_managed_entry_is_managed(script: Seq<char>)
    ensures
        entry_command_of(managed_entry_of(script)) == Some(hook_command_of(script)),
        is_managed(entry_command_of(managed_entry_of(script)), script),
{
    let fs = seq![
        ("command"@, JsonView::Str(hook_command_of(script))),
        ("matcher"@, JsonView::Str(MATCHER@)),
        ("timeout"@, JsonView::UInt(TIMEOUT_SECS)),
    ];
    lemma_field_index_of(fs, "command"@, Some(0));
}

/// Installing twice is installing once: merging the managed entry into a
/// hooks file that a merge produced gives that file back.
pub proof fn law_merge_is_idempotent(root: JsonView, script: Seq<char>)
    ensures
        merged_file(root, script) matches Ok(v) ==> merged_file(v, script) == Ok::<JsonView, HooksShapeError>(v),
{
    if let Ok(v) = merged_file(root, script) {
        if let JsonView::Object(fs) = root {
            let fs1 = if field_index(fs, "version"@) is Some { fs } else { fs.push(("version"@, JsonView::UInt(1))) };
            lemma_field_index(fs, "version"@);
            if field_index(fs, "version"@) is None {
                lemma_field_index_of(fs1, "version"@, Some(fs.len() as int));
            }
            let hfs = match field_or(fs1, "hooks"@, JsonView::Object(Seq::empty())) {
                JsonView::Object(h) => h,
                _ => Seq::empty(),
            };
            let es = match field_or(hfs, "preToolUse"@, JsonView::Array(Seq::empty())) {
                JsonView::Array(e) => e,
                _ => Seq::empty(),
            };
            let m = managed_entry_of(script);
            let u = unmanaged_entries(es, script);
            let a = JsonView::Array(u.push(m));
            let hx = JsonView::Object(put_field(hfs, "preToolUse"@, a));
            let out = put_field(fs1, "hooks"@, hx);
            assert(v == JsonView::Object(out));
            lemma_put_field_index(fs1, "hooks"@, hx, "version"@);
            lemma_put_field_index(fs1, "hooks"@, hx, "hooks"@);
            lemma_put_field_index(hfs, "preToolUse"@, a, "preToolUse"@);
            lemma_managed_entry_is_managed(script);
            lemma_unmanaged_are_unmanaged(es, script);
            assert(u.push(m).drop_last() =~= u);
            assert(unmanaged_entries(u.push(m), script) == u);
            lemma_put_field_twice(hfs, "preToolUse"@, a);
            lemma_put_field_twice(fs1, "hooks"@, hx);
        }
    }
}

/// A merge keeps every field of the file other than `hooks` and `version`,
/// keeps `version` or sets it to 1, and leaves `hooks.preToolUse` holding the
/// user's entries, in order, followed by the managed entry.
pub proof fn law_merge_keeps_user_content(fs: Seq<(Seq<char>, JsonView)>, script: Seq<char>, k: Seq<char>)
    ensures
        merged_file(JsonView::Object(fs), script) matches Ok(JsonView::Object(out)) ==> {
            &&& (k != "hooks"@ && k != "version"@ ==> field_index(out, k) == field_index(fs, k)
                && forall|i: int| #![trigger fs[i]] field_index(fs, k) == Some(i) ==> out[i] == fs[i])
            &&& field_or(out, "version"@, JsonView::Null) == field_or(fs, "version"@, JsonView::UInt(1))
            &&& pre_tool_use_entries(JsonView::Object(out)) == Some(unmanaged_entries(
                match field_or(field_or_obj(fs, "hooks"@), "preToolUse"@, JsonView::Array(Seq::empty())) {
                    JsonView::Array(es) => es,
                    _ => Seq::empty(),
                }, script).push(managed_entry_of(script)))
        },
{
    if let Ok(JsonView::Object(out)) = merged_file(JsonView::Object(fs), script) {
        let fs1 = if field_index(fs, "version"@) is Some { fs } else { fs.push(("version"@, JsonView::UInt(1))) };
        lemma_field_index(fs, "version"@);
        lemma_field_index(fs, k);
        lemma_field_index(fs, "hooks"@);
        if field_index(fs, "version"@) is None {
            lemma_field_index_of(fs1, "version"@, Some(fs.len() as int));
            assert forall|j: int| 0 <= j < fs.len() implies #[trigger] fs1[j] == fs[j] by {}
            lemma_field_index_of(fs1, "hooks"@, field_index(fs, "hooks"@));
            if k != "version"@ {
                lemma_field_index_of(fs1, k, field_index(fs, k));
            }
        }
        let hfs = match field_or(fs1, "hooks"@, JsonView::Object(Seq::empty())) {
            JsonView::Object(h) => h,
            _ => Seq::empty(),
        };
        assert(hfs == field_or_obj(fs, "hooks"@));
        let es = match field_or(hfs, "preToolUse"@, JsonView::Array(Seq::empty())) {
            JsonView::Array(e) => e,
            _ => Seq::empty(),
        };
        let a = JsonView::Array(unmanaged_entries(es, script).push(managed_entry_of(script)));
        let hx = JsonView::Object(put_field(hfs, "preToolUse"@, a));
        assert(out == put_field(fs1, "hooks"@, hx));
        lemma_put_field_index(fs1, "hooks"@, hx, k);
        lemma_put_field_index(fs1, "hooks"@, hx, "version"@);
        lemma_put_field_index(fs1, "hooks"@, hx, "hooks"@);
        lemma_put_field_index(hfs, "preToolUse"@, a, "preToolUse"@);
        if k != "hooks"@ && k != "version"@ {
            assert(field_index(out, k) == field_index(fs, k));
            assert forall|i: int| #![trigger fs[i]] field_index(fs, k) == Some(i) implies out[i] == fs[i] by {
                assert(out[i] == fs1[i]);
            }
        }
        reveal_strlit("version");
        reveal_strlit("hooks");
        assert("version"@.len() != "hooks"@.len());
        lemma_field_index(fs1, "version"@);
        assert(field_or(out, "version"@, JsonView::Null) == field_or(fs, "version"@, JsonView::UInt(1)));
        assert(pre_tool_use_entries(JsonView::Object(out)) == Some(unmanaged_entries(es, script).push(managed_entry_of(script))));
    }
}

/// The `hooks` field of a file, `{}` when absent.
pub open spec fn field_or_obj(fs: Seq<(Seq<char>, JsonView)>, key: Seq<char>) -> Seq<(Seq<char>, JsonView)> {
    match field_or(fs, key, JsonView::Object(Seq::empty())) {
        JsonView::Object(h) => h,
        _ => Seq::empty(),
    }
}

/// Uninstalling after installing leaves exactly the user's own `preToolUse`
/// entries, in order.
pub proof fn law_remove_undoes_merge(root: JsonView, script: Seq<char>)
    ensures
        merged_file(root, script) matches Ok(v) ==> pre_tool_use_entries(removed_file(v, script)) == Some(unmanaged_entries(
            match root {
                JsonView::Object(fs) => match field_or(field_or_obj(fs, "hooks"@), "preToolUse"@, JsonView::Array(Seq::empty())) {
                    JsonView::Array(es) => es,
                    _ => Seq::empty(),
                },
                _ => Seq::empty(),
            }, script)),
{
    if let Ok(v) = merged_file(root, script) {
        if let JsonView::Object(fs) = root {
            law_merge_keeps_user_content(fs, script, "hooks"@);
            law_merge_is_idempotent(root, script);
            let fs1 = if field_index(fs, "version"@) is Some { fs } else { fs.push(("version"@, JsonView::UInt(1))) };
            lemma_field_index(fs, "version"@);
            lemma_field_index(fs, "hooks"@);
            if field_index(fs, "version"@) is None {
                assert forall|j: int| 0 <= j < fs.len() implies #[trigger] fs1[j] == fs[j] by {}
                lemma_field_index_of(fs1, "hooks"@, field_index(fs, "hooks"@));
            }
            let hfs = field_or_obj(fs, "hooks"@);
            let es = match field_or(hfs, "preToolUse"@, JsonView::Array(Seq::empty())) {
                JsonView::Array(e) => e,
                _ => Seq::empty(),
            };
            let u = unmanaged_entries(es, script);
            let m = managed_entry_of(script);
            let a = JsonView::Array(u.push(m));
            let hx = JsonView::Object(put_field(hfs, "preToolUse"@, a));
            let out = put_field(fs1, "hooks"@, hx);
            lemma_put_field_index(fs1, "hooks"@, hx, "hooks"@);
            lemma_put_field_index(hfs, "preToolUse"@, a, "preToolUse"@);
            let ra = JsonView::Array(unmanaged_entries(u.push(m), script));
            let hx2 = JsonView::Object(put_field(put_field(hfs, "preToolUse"@, a), "preToolUse"@, ra));
            lemma_put_field_index(out, "hooks"@, hx2, "hooks"@);
            lemma_put_field_index(put_field(hfs, "preToolUse"@, a), "preToolUse"@, ra, "preToolUse"@);
            lemma_managed_entry_is_managed(script);
            lemma_unmanaged_are_unmanaged(es, script);
            assert(u.push(m).drop_last() =~= u);
        }
    }
}

} // verus!
