//! JSON documents as the library reads and writes them (the Cursor
//! `hooks.json` file): objects keep their fields as a list, and numbers read
//! from text are carried through as serde_json holds them; numbers the
//! library writes itself are plain `u64`. Parsing and pretty-printing are
//! serde_json's.

use vstd::prelude::*;
use crate::text::{chars_eq, chars_of};

verus! {

#[verifier::external_type_specification]
#[verifier::external_body]
pub struct ExJsonNumber(serde_json::Number);

#[verifier::external_type_specification]
#[verifier::external_body]
pub struct ExJsonValue(serde_json::Value);

/// A JSON value.
#[derive(Debug)]
pub enum Json {
    Null,
    Bool(bool),
    /// A non-negative integer written by the library.
    UInt(u64),
    /// A number read from text, as serde_json holds it.
    Number(serde_json::Number),
    Str(String),
    Array(Vec<Json>),
    /// The fields of an object, in order.
    Object(Vec<(String, Json)>),
}

/// What a JSON value is, with strings as character sequences.
pub enum JsonView {
    Null,
    Bool(bool),
    UInt(u64),
    Number(serde_json::Number),
    Str(Seq<char>),
    Array(Seq<JsonView>),
    Object(Seq<(Seq<char>, JsonView)>),
}

/// The view of a JSON value.
pub open spec fn jview(j: Json) -> JsonView
    decreases j,
{
    match j {
        Json::Null => JsonView::Null,
        Json::Bool(b) => JsonView::Bool(b),
        Json::UInt(n) => JsonView::UInt(n),
        Json::Number(n) => JsonView::Number(n),
        Json::Str(s) => JsonView::Str(s@),
        Json::Array(v) => JsonView::Array(jviews(v@)),
        Json::Object(v) => JsonView::Object(jfields(v@)),
    }
}

/// The views of a list of values.
pub open spec fn jviews(s: Seq<Json>) -> Seq<JsonView>
    decreases s,
{
    if s.len() == 0 {
        Seq::empty()
    } else {
        jviews(s.drop_last()).push(jview(s.last()))
    }
}

/// The views of an object's fields.
pub open spec fn jfields(s: Seq<(String, Json)>) -> Seq<(Seq<char>, JsonView)>
    decreases s,
{
    if s.len() == 0 {
        Seq::empty()
    } else {
        jfields(s.drop_last()).push((s.last().0@, jview(s.last().1)))
    }
}

pub proof fn lemma_jviews(s: Seq<Json>)
    ensures
        jviews(s).len() == s.len(),
        forall|i: int| 0 <= i < s.len() ==> #[trigger] jviews(s)[i] == jview(s[i]),
    decreases s.len(),
{
    if s.len() > 0 {
        lemma_jviews(s.drop_last());
    }
}

pub proof fn lemma_jfields(s: Seq<(String, Json)>)
    ensures
        jfields(s).len() == s.len(),
        forall|i: int| 0 <= i < s.len() ==> #[trigger] jfields(s)[i] == (s[i].0@, jview(s[i].1)),
    decreases s.len(),
{
    if s.len() > 0 {
        lemma_jfields(s.drop_last());
    }
}

/// Name for what `serde_json::from_str::<serde_json::Value>` reads from a
/// text: the JSON value, or `None` when the text is not JSON.
pub uninterp spec fn json_parse(text: Seq<char>) -> Option<JsonView>;

/// Name for what `serde_json::to_string_pretty` writes for a value.
pub uninterp spec fn json_pretty(v: JsonView) -> Seq<char>;

/// `serde_json::Value` to the library's JSON, variant by variant.
#[verifier::external_body]
fn from_value(v: serde_json::Value) -> Json {
    match v {
        serde_json::Value::Null => Json::Null,
        serde_json::Value::Bool(b) => Json::Bool(b),
        serde_json::Value::Number(n) => Json::Number(n),
        serde_json::Value::String(s) => Json::Str(s),
        serde_json::Value::Array(a) => Json::Array(a.into_iter().map(from_value).collect()),
        serde_json::Value::Object(m) => Json::Object(m.into_iter().map(|(k, x)| (k, from_value(x))).collect()),
    }
}

/// The library's JSON to `serde_json::Value`, variant by variant.
#[verifier::external_body]
fn to_value(j: Json) -> serde_json::Value {
    match j {
        Json::Null => serde_json::Value::Null,
        Json::Bool(b) => serde_json::Value::Bool(b),
        Json::UInt(u) => serde_json::Value::Number(u.into()),
        Json::Number(n) => serde_json::Value::Number(n),
        Json::Str(s) => serde_json::Value::String(s),
        Json::Array(a) => serde_json::Value::Array(a.into_iter().map(to_value).collect()),
        Json::Object(f) => serde_json::Value::Object(f.into_iter().map(|(k, x)| (k, to_value(x))).collect()),
    }
}

/// `serde_json::from_str::<serde_json::Value>`: the contract claims the
/// result is [`json_parse`] of the text.
#[verifier::external_body]
pub fn parse_json(text: &str) -> (r: Option<Json>)
    ensures
        match r {
            Some(j) => json_parse(text@) == Some(jview(j)),
            None => json_parse(text@) is None,
        },
{
    serde_json::from_str::<serde_json::Value>(text).ok().map(from_value)
}

/// `serde_json::to_string_pretty` of the value: the contract claims it
/// writes [`json_pretty`] of the value and does not fail. Its documented
/// failures (a `Serialize` impl that errors, a map with non-string keys)
/// cannot occur for a `serde_json::Value`, and writing into its buffer does
/// not fail. The result keeps serde_json's `Result` type.
#[verifier::external_body]
pub fn pretty_json(j: Json) -> (r: Result<String, String>)
    ensures
        match r {
            Ok(t) => t@ == json_pretty(jview(j)),
            Err(_) => false,
        },
{
    serde_json::to_string_pretty(&to_value(j)).map_err(|e| e.to_string())
}

/// Index of the first field named `key`.
pub open spec fn field_index(fields: Seq<(Seq<char>, JsonView)>, key: Seq<char>) -> Option<int>
    decreases fields.len(),
{
    if fields.len() == 0 {
        None
    } else if fields[0].0 == key {
        Some(0)
    } else {
        match field_index(fields.drop_first(), key) {
            Some(i) => Some(i + 1),
            None => None,
        }
    }
}

/// `fields` with the field `key` set to `v`: replaced in place when present,
/// else appended.
pub open spec fn put_field(fields: Seq<(Seq<char>, JsonView)>, key: Seq<char>, v: JsonView) -> Seq<(Seq<char>, JsonView)> {
    match field_index(fields, key) {
        Some(i) => fields.update(i, (key, v)),
        None => fields.push((key, v)),
    }
}

pub proof fn lemma_field_index(fields: Seq<(Seq<char>, JsonView)>, key: Seq<char>)
    ensures
        field_index(fields, key) matches Some(i) ==> 0 <= i < fields.len() && fields[i].0 == key
            && forall|j: int| 0 <= j < i ==> #[trigger] fields[j].0 != key,
        field_index(fields, key) is None ==> forall|j: int| 0 <= j < fields.len() ==> #[trigger] fields[j].0 != key,
    decreases fields.len(),
{
    if fields.len() > 0 {
        let t = fields.drop_first();
        lemma_field_index(t, key);
        assert forall|j: int| 0 <= j < t.len() implies #[trigger] t[j] == fields[j + 1] by {}
        if fields[0].0 != key {
            if let Some(i) = field_index(t, key) {
                assert forall|j: int| 0 <= j < i + 1 implies #[trigger] fields[j].0 != key by {
                    if j > 0 {
                        assert(t[j - 1] == fields[j]);
                    }
                }
            } else {
                assert forall|j: int| 0 <= j < fields.len() implies #[trigger] fields[j].0 != key by {
                    if j > 0 {
                        assert(t[j - 1] == fields[j]);
                    }
                }
            }
        }
    }
}

/// A field index is determined by the first match.
pub proof fn lemma_field_index_of(fields: Seq<(Seq<char>, JsonView)>, key: Seq<char>, r: Option<int>)
    requires
        r matches Some(i) ==> 0 <= i < fields.len() && fields[i].0 == key
            && forall|j: int| 0 <= j < i ==> #[trigger] fields[j].0 != key,
        r is None ==> forall|j: int| 0 <= j < fields.len() ==> #[trigger] fields[j].0 != key,
    ensures
        field_index(fields, key) == r,
{
    lemma_field_index(fields, key);
    match (field_index(fields, key), r) {
        (Some(a), Some(b)) => {
            if a < b {
                assert(fields[a].0 != key);
            } else if b < a {
                assert(fields[b].0 != key);
            }
        },
        (Some(a), None) => {
            assert(fields[a].0 != key);
        },
        (None, Some(b)) => {
            assert(fields[b].0 != key);
        },
        (None, None) => {},
    }
}

/// Index of the first field named `key`.
pub fn find_field(fields: &Vec<(String, Json)>, key: &str) -> (r: Option<usize>)
    ensures
        match r {
            Some(i) => i < fields@.len() && field_index(jfields(fields@), key@) == Some(i as int),
            None => field_index(jfields(fields@), key@) is None,
        },
{
    proof {
        lemma_jfields(fields@);
    }
    let k = chars_of(key);
    let mut i: usize = 0;
    while i < fields.len()
        invariant
            i <= fields@.len(),
            k@ == key@,
            jfields(fields@).len() == fields@.len(),
            forall|j: int| 0 <= j < fields@.len() ==> #[trigger] jfields(fields@)[j] == (fields@[j].0@, jview(fields@[j].1)),
            forall|j: int| 0 <= j < i ==> #[trigger] jfields(fields@)[j].0 != key@,
        decreases fields.len() - i,
    {
        if chars_eq(&chars_of(fields[i].0.as_str()), &k) {
            proof {
                lemma_field_index_of(jfields(fields@), key@, Some(i as int));
            }
            return Some(i);
        }
        i = i + 1;
    }
    proof {
        lemma_field_index_of(jfields(fields@), key@, None);
    }
    None
}

/// The views of fields after one is replaced.
pub proof fn lemma_jfields_update(s: Seq<(String, Json)>, i: int, x: (String, Json))
    requires
        0 <= i < s.len(),
    ensures
        jfields(s.update(i, x)) == jfields(s).update(i, (x.0@, jview(x.1))),
{
    lemma_jfields(s);
    lemma_jfields(s.update(i, x));
    assert(jfields(s.update(i, x)) =~= jfields(s).update(i, (x.0@, jview(x.1))));
}

/// The views of fields after one is appended.
pub proof fn lemma_jfields_push(s: Seq<(String, Json)>, x: (String, Json))
    ensures
        jfields(s.push(x)) == jfields(s).push((x.0@, jview(x.1))),
{
    assert(s.push(x).drop_last() =~= s);
}

/// The views of values after one is appended.
pub proof fn lemma_jviews_push(s: Seq<Json>, x: Json)
    ensures
        jviews(s.push(x)) == jviews(s).push(jview(x)),
{
    assert(s.push(x).drop_last() =~= s);
}

} // verus!
