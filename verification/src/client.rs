//! AI clients that connect to the gateway (Cursor, VS Code, desktop assistants):
//! identity, how they choose a Space, and their legacy per-Space grants.
//!
//! Ids are the 128-bit values of their UUIDs; times are milliseconds since
//! the Unix epoch.

use vstd::prelude::*;
use crate::package::strings_view;
use crate::text::{chars_of, concat, string_of};

verus! {

/// How a client resolves which Space to use.
#[derive(Debug, Clone)]
pub enum ConnectionMode {
    /// Locked to one Space.
    Locked { space_id: u128 },
    /// Follows the currently active Space.
    FollowActive,
    /// Asks when context suggests another Space.
    AskOnChange { triggers: Vec<ContextTrigger> },
}

impl Default for ConnectionMode {
    fn default() -> (m: Self)
        ensures
            m is FollowActive,
    {
        ConnectionMode::FollowActive
    }
}

/// Context that suggests a Space change.
#[derive(Debug, Clone)]
pub enum ContextTrigger {
    GitRemote { pattern: String, space_id: u128 },
    Directory { pattern: String, space_id: u128 },
    TimeSchedule { cron: String, space_id: u128 },
}

/// A client of the gateway.
#[derive(Debug, Clone)]
pub struct Client {
    pub id: u128,
    pub name: String,
    pub client_type: String,
    pub connection_mode: ConnectionMode,
    /// Legacy FeatureSet grants per Space, one entry per Space.
    pub grants: Vec<(u128, Vec<u128>)>,
    pub pinned_space_id: Option<u128>,
    pub pinned_feature_set_id: Option<u128>,
    pub access_key: Option<String>,
    pub created_at: i64,
    pub updated_at: i64,
    pub last_seen: Option<i64>,
}

/// A fresh random UUID's value (`Uuid::new_v4`); nothing is promised of it.
#[verifier::external_body]
fn fresh_id() -> (id: u128) {
    uuid::Uuid::new_v4().as_u128()
}

/// The current time in milliseconds (`chrono::Utc::now`); nothing is
/// promised of it.
#[verifier::external_body]
fn now_millis() -> (t: i64) {
    chrono::Utc::now().timestamp_millis()
}

/// A lowercase hexadecimal digit.
pub open spec fn is_lower_hex(c: char) -> bool {
    ('0' <= c && c <= '9') || ('a' <= c && c <= 'f')
}

/// 32 lowercase hexadecimal digits: a UUID in its simple form.
pub open spec fn is_simple_uuid(s: Seq<char>) -> bool {
    s.len() == 32 && forall|i: int| 0 <= i < s.len() ==> is_lower_hex(#[trigger] s[i])
}

/// A fresh random UUID in its simple form (`Uuid::new_v4().simple()`, whose
/// display is the 32 lowercase hex digits of the UUID's bytes): the contract
/// claims that shape only; which UUID comes out is random.
#[verifier::external_body]
fn fresh_simple_uuid() -> (s: String)
    ensures
        is_simple_uuid(s@),
{
    uuid::Uuid::new_v4().simple().to_string()
}

/// The grants of `space_id`, if the client has an entry for it.
pub open spec fn grants_for(grants: Seq<(u128, Vec<u128>)>, space_id: u128) -> Option<Seq<u128>>
    decreases grants.len(),
{
    if grants.len() == 0 {
        None
    } else if grants.last().0 == space_id {
        Some(grants.last().1@)
    } else {
        grants_for(grants.drop_last(), space_id)
    }
}

impl Client {
    /// A new client: fresh id, both timestamps now, following the active
    /// Space, no grants, pins or key.
    pub fn new(name: &str, client_type: &str) -> (c: Self)
        ensures
            c.name@ == name@,
            c.client_type@ == client_type@,
            c.connection_mode is FollowActive,
            c.grants@.len() == 0,
            c.pinned_space_id is None,
            c.pinned_feature_set_id is None,
            c.access_key is None,
            c.created_at == c.updated_at,
            c.last_seen is None,
    {
        let now = now_millis();
        Client {
            id: fresh_id(),
            name: name.to_owned(),
            client_type: client_type.to_owned(),
            connection_mode: ConnectionMode::default(),
            grants: Vec::new(),
            pinned_space_id: None,
            pinned_feature_set_id: None,
            access_key: None,
            created_at: now,
            updated_at: now,
            last_seen: None,
        }
    }

    /// A Cursor client.
    pub fn cursor() -> (c: Self)
        ensures
            c.name@ == "Cursor"@,
            c.client_type@ == "cursor"@,
            c.connection_mode is FollowActive,
            c.grants@.len() == 0,
    {
        Self::new("Cursor", "cursor")
    }

    /// A VS Code client.
    pub fn vscode() -> (c: Self)
        ensures
            c.name@ == "VS Code"@,
            c.client_type@ == "vscode"@,
            c.connection_mode is FollowActive,
            c.grants@.len() == 0,
    {
        Self::new("VS Code", "vscode")
    }

    /// The same client with another connection mode.
    pub fn with_mode(self, mode: ConnectionMode) -> (c: Self)
        ensures
            c == (Client { connection_mode: mode, ..self }),
    {
        Client { connection_mode: mode, ..self }
    }

    /// The same client granted `feature_sets` in `space_id` (replacing any
    /// earlier grant for that Space).
    pub fn grant(self, space_id: u128, feature_sets: Vec<u128>) -> (c: Self)
        ensures
            grants_for(c.grants@, space_id) == Some(feature_sets@),
            forall|other: u128| other != space_id ==> grants_for(c.grants@, other) == grants_for(self.grants@, other),
            c.id == self.id,
    {
        let mut kept: Vec<(u128, Vec<u128>)> = Vec::new();
        let mut old = self.grants;
        let ghost all = old@;
        let mut rev: Vec<(u128, Vec<u128>)> = Vec::new();
        assert(all.take(all.len() as int) =~= all);
        assert(rev@.reverse() =~= Seq::<(u128, Vec<u128>)>::empty());
        while old.len() > 0
            invariant
                old@ == all.take(old@.len() as int),
                old@.len() <= all.len(),
                forall|other: u128| other != space_id ==> grants_for(all, other) == (match grants_for(rev@.reverse(), other) {
                    Some(g) => Some(g),
                    None => grants_for(old@, other),
                }),
                forall|k: int| 0 <= k < rev@.len() ==> #[trigger] rev@[k].0 != space_id,
            decreases old.len(),
        {
            let e = old.pop().unwrap();
            let ghost n: int = old@.len() as int;
            assert(all.take(n + 1).drop_last() =~= all.take(n));
            assert(all.take(n + 1).last() == e);
            if e.0 != space_id {
                let ghost rb = rev@;
                rev.push(e);
                proof {
                    assert(rev@.reverse() =~= seq![e] + rb.reverse());
                    assert forall|other: u128| other != space_id implies grants_for(all, other) == (match grants_for(rev@.reverse(), other) {
                        Some(g) => Some(g),
                        None => grants_for(old@, other),
                    }) by {
                        lemma_grants_for_prepend(e, rb.reverse(), other);
                    }
                }
            }
        }
        let ghost r = rev@.reverse();
        while rev.len() > 0
            invariant
                r == kept@ + rev@.reverse(),
            decreases rev.len(),
        {
            let ghost before = rev@;
            let e = rev.pop().unwrap();
            assert(before.reverse() =~= seq![e] + rev@.reverse());
            kept.push(e);
            assert(kept@ + rev@.reverse() =~= (kept@.drop_last() + seq![e]) + rev@.reverse());
        }
        assert(kept@ =~= r);
        let ghost prefix = kept@;
        kept.push((space_id, feature_sets));
        proof {
            assert(kept@.drop_last() =~= prefix);
        }
        Client { grants: kept, ..self }
    }

    /// Whether the client has a non-empty grant for `space_id`.
    pub fn has_access_to(&self, space_id: u128) -> (b: bool)
        ensures
            b == (grants_for(self.grants@, space_id) matches Some(g) && g.len() > 0),
    {
        let mut i: usize = self.grants.len();
        assert(self.grants@.take(i as int) =~= self.grants@);
        while i > 0
            invariant
                i <= self.grants@.len(),
                grants_for(self.grants@, space_id) == grants_for(self.grants@.take(i as int), space_id),
            decreases i,
        {
            let ghost t = self.grants@.take(i as int);
            assert(t.drop_last() =~= self.grants@.take(i - 1));
            if self.grants[i - 1].0 == space_id {
                return self.grants[i - 1].1.len() > 0;
            }
            i = i - 1;
        }
        false
    }

    /// Give the client a fresh access key: `mcp_` and a random UUID in its
    /// simple form; nothing else of the client changes.
    pub fn generate_access_key(&mut self)
        ensures
            final(self).access_key matches Some(k) && exists|u: Seq<char>| is_simple_uuid(u) && k@ == "mcp_"@ + u,
            *final(self) == (Client { access_key: final(self).access_key, ..*old(self) }),
    {
        let u = fresh_simple_uuid();
        let key = concat(&chars_of("mcp_"), &chars_of(u.as_str()));
        self.access_key = Some(string_of(&key));
        assert(is_simple_uuid(u@));
    }
}

/// Name for what `Uuid::parse_str` yields for a string: the UUID's 128-bit
/// value, or `None` when the text is not a UUID.
pub uninterp spec fn uuid_value(s: Seq<char>) -> Option<u128>;

/// `Uuid::parse_str` (what `str::parse::<Uuid>` calls): the contract claims
/// the result is [`uuid_value`] of the text.
#[verifier::external_body]
pub(crate) fn parse_uuid(s: &str) -> (r: Option<u128>)
    ensures
        r == uuid_value(s@),
{
    match uuid::Uuid::parse_str(s) {
        Ok(id) => Some(id.as_u128()),
        Err(_) => None,
    }
}

/// The connection mode stored as `mode_str` (and the locked Space's id):
/// `locked` with a parseable id is locked to it, `ask_on_change` asks (its
/// triggers are not stored), anything else follows the active Space.
pub open spec fn stored_mode(m: ConnectionMode, mode_str: Seq<char>, locked_space_id: Option<Seq<char>>) -> bool {
    if mode_str == "locked"@ {
        match locked_space_id {
            Some(id) => match uuid_value(id) {
                Some(space_id) => m == (ConnectionMode::Locked { space_id }),
                None => m is FollowActive,
            },
            None => m is FollowActive,
        }
    } else if mode_str == "ask_on_change"@ {
        m matches ConnectionMode::AskOnChange { triggers } && triggers@.len() == 0
    } else {
        m is FollowActive
    }
}

/// Read a stored connection mode (see [`stored_mode`]).
pub fn parse_connection_mode(mode_str: &str, locked_space_id: Option<&str>) -> (m: ConnectionMode)
    ensures
        stored_mode(m, mode_str@, match locked_space_id { Some(s) => Some(s@), None => None }),
{
    let mode = chars_of(mode_str);
    let locked = chars_of("locked");
    let ask = chars_of("ask_on_change");
    if crate::text::chars_eq(&mode, &locked) {
        match locked_space_id {
            Some(id) => match parse_uuid(id) {
                Some(space_id) => ConnectionMode::Locked { space_id },
                None => ConnectionMode::FollowActive,
            },
            None => ConnectionMode::FollowActive,
        }
    } else if crate::text::chars_eq(&mode, &ask) {
        ConnectionMode::AskOnChange { triggers: Vec::new() }
    } else {
        ConnectionMode::FollowActive
    }
}

/// `Uuid::from_u128(id).to_string()`: the hyphenated lowercase form, which
/// `Uuid::parse_str` reads back as the same UUID; the contract claims that
/// round trip and the form's length.
#[verifier::external_body]
pub(crate) fn uuid_text(id: u128) -> (s: String)
    ensures
        uuid_value(s@) == Some(id),
        s@.len() == 36,
{
    uuid::Uuid::from_u128(id).to_string()
}

/// `label` and `locked_space_id` are how mode `m` is stored: its label, and
/// for a locked mode a text that parses to the Space's id.
pub open spec fn stored_as(m: ConnectionMode, label: Seq<char>, locked_space_id: Option<Seq<char>>) -> bool {
    match m {
        ConnectionMode::Locked { space_id } => label == "locked"@
            && (locked_space_id matches Some(t) && uuid_value(t) == Some(space_id)),
        ConnectionMode::FollowActive => label == "follow_active"@ && locked_space_id is None,
        ConnectionMode::AskOnChange { .. } => label == "ask_on_change"@ && locked_space_id is None,
    }
}

/// The strings a connection mode is stored as: its label, and the locked
/// Space's id as text.
pub fn connection_mode_to_strings(mode: &ConnectionMode) -> (r: (&'static str, Option<String>))
    ensures
        stored_as(*mode, r.0@, match r.1 { Some(t) => Some(t@), None => None }),
{
    match mode {
        ConnectionMode::Locked { space_id } => ("locked", Some(uuid_text(*space_id))),
        ConnectionMode::FollowActive => ("follow_active", None),
        ConnectionMode::AskOnChange { .. } => ("ask_on_change", None),
    }
}

/// A stored connection mode reads back as itself, but for an ask-on-change
/// mode, whose triggers are not stored: it reads back with none.
pub proof fn law_connection_mode_round_trip(m: ConnectionMode, label: Seq<char>, locked_space_id: Option<Seq<char>>, back: ConnectionMode)
    requires
        stored_as(m, label, locked_space_id),
        stored_mode(back, label, locked_space_id),
    ensures
        !(m is AskOnChange) ==> back == m,
        m is AskOnChange ==> (back matches ConnectionMode::AskOnChange { triggers } && triggers@.len() == 0),
{
    reveal_strlit("locked");
    reveal_strlit("follow_active");
    reveal_strlit("ask_on_change");
    assert("locked"@.len() != "follow_active"@.len());
    assert("locked"@.len() != "ask_on_change"@.len());
    assert("ask_on_change"@[0] != "follow_active"@[0]);
}

/// The stored name of a connection mode.
pub fn connection_mode_label(mode: &ConnectionMode) -> (r: &'static str)
    ensures
        r@ == match mode {
            ConnectionMode::Locked { .. } => "locked"@,
            ConnectionMode::FollowActive => "follow_active"@,
            ConnectionMode::AskOnChange { .. } => "ask_on_change"@,
        },
{
    match mode {
        ConnectionMode::Locked { .. } => "locked",
        ConnectionMode::FollowActive => "follow_active",
        ConnectionMode::AskOnChange { .. } => "ask_on_change",
    }
}

/// Name for what `serde_json::from_str::<HashMap<String, Vec<String>>>`
/// yields for a text: the object's keys, each with its list of strings, or
/// `None` when the text is not such a JSON object.
pub uninterp spec fn grants_json(s: Seq<char>) -> Option<Map<Seq<char>, Seq<Seq<char>>>>;

/// The decoded entries are exactly those of `m`, each key once.
pub open spec fn entries_of_map(v: Seq<(String, Vec<String>)>, m: Map<Seq<char>, Seq<Seq<char>>>) -> bool {
    &&& forall|i: int| 0 <= i < v.len() ==> m.contains_key(#[trigger] v[i].0@) && m[v[i].0@] == strings_view(v[i].1@)
    &&& forall|k: Seq<char>| m.contains_key(k) ==> exists|i: int| 0 <= i < v.len() && #[trigger] v[i].0@ == k
    &&& forall|i: int, j: int| 0 <= i < j < v.len() ==> #[trigger] v[i].0@ != #[trigger] v[j].0@
}

/// `serde_json::from_str::<HashMap<String, Vec<String>>>` on the stored
/// grants: the contract claims the result is `None` exactly when
/// [`grants_json`] is, and otherwise holds that map's entries, each key once.
/// The order of the entries (the hash map's walk order) is not stated.
#[verifier::external_body]
fn decode_grants_json(s: &str) -> (r: Option<Vec<(String, Vec<String>)>>)
    ensures
        r is Some <==> grants_json(s@) is Some,
        r matches Some(v) ==> grants_json(s@) matches Some(m) && entries_of_map(v@, m),
{
    serde_json::from_str::<std::collections::HashMap<String, Vec<String>>>(s)
        .ok()
        .map(|m| m.into_iter().collect())
}

/// The UUID values among `ids`, in order; text that is no UUID is dropped.
pub open spec fn parsed_ids(ids: Seq<Seq<char>>) -> Seq<u128>
    decreases ids.len(),
{
    if ids.len() == 0 {
        Seq::empty()
    } else {
        let rest = parsed_ids(ids.drop_last());
        match uuid_value(ids.last()) {
            Some(v) => rest.push(v),
            None => rest,
        }
    }
}

fn parse_ids(ids: &Vec<String>) -> (r: Vec<u128>)
    ensures
        r@ == parsed_ids(strings_view(ids@)),
{
    let ghost sv = strings_view(ids@);
    let mut out: Vec<u128> = Vec::new();
    let mut i: usize = 0;
    while i < ids.len()
        invariant
            i <= ids@.len(),
            sv == strings_view(ids@),
            out@ == parsed_ids(sv.take(i as int)),
        decreases ids.len() - i,
    {
        assert(sv.take(i + 1).drop_last() =~= sv.take(i as int));
        assert(sv.take(i + 1).last() == ids@[i as int]@);
        match parse_uuid(ids[i].as_str()) {
            Some(v) => out.push(v),
            None => {},
        }
        i = i + 1;
    }
    assert(sv.take(sv.len() as int) =~= sv);
    out
}

/// What decoded grant entries give for `space_id`: the FeatureSet ids that
/// parse, of the last entry whose key parses to that Space.
pub open spec fn entries_grant(entries: Seq<(String, Vec<String>)>, space_id: u128) -> Option<Seq<u128>>
    decreases entries.len(),
{
    if entries.len() == 0 {
        None
    } else if uuid_value(entries.last().0@) == Some(space_id) {
        Some(parsed_ids(strings_view(entries.last().1@)))
    } else {
        entries_grant(entries.drop_last(), space_id)
    }
}

/// Grants from decoded `(Space id, FeatureSet ids)` entries: every entry
/// whose Space id parses, with the FeatureSet ids that parse; a later entry
/// for the same Space replaces an earlier one.
pub fn grants_from_entries(entries: &Vec<(String, Vec<String>)>) -> (r: Vec<(u128, Vec<u128>)>)
    ensures
        forall|space_id: u128| grants_for(r@, space_id) == entries_grant(entries@, space_id),
{
    let mut client = Client {
        id: 0,
        name: String::new(),
        client_type: String::new(),
        connection_mode: ConnectionMode::FollowActive,
        grants: Vec::new(),
        pinned_space_id: None,
        pinned_feature_set_id: None,
        access_key: None,
        created_at: 0,
        updated_at: 0,
        last_seen: None,
    };
    let mut i: usize = 0;
    while i < entries.len()
        invariant
            i <= entries@.len(),
            forall|space_id: u128| grants_for(client.grants@, space_id) == entries_grant(entries@.take(i as int), space_id),
        decreases entries.len() - i,
    {
        assert(entries@.take(i + 1).drop_last() =~= entries@.take(i as int));
        assert(entries@.take(i + 1).last() == entries@[i as int]);
        match parse_uuid(entries[i].0.as_str()) {
            Some(space_id) => {
                let ids = parse_ids(&entries[i].1);
                client = client.grant(space_id, ids);
            },
            None => {},
        }
        i = i + 1;
    }
    assert(entries@.take(entries@.len() as int) =~= entries@);
    client.grants
}

proof fn lemma_entries_grant(entries: Seq<(String, Vec<String>)>, space_id: u128)
    ensures
        entries_grant(entries, space_id) is Some <==> exists|i: int|
            0 <= i < entries.len() && uuid_value(#[trigger] entries[i].0@) == Some(space_id),
        entries_grant(entries, space_id) matches Some(g) ==> exists|i: int|
            0 <= i < entries.len() && uuid_value(#[trigger] entries[i].0@) == Some(space_id)
                && g == parsed_ids(strings_view(entries[i].1@)),
    decreases entries.len(),
{
    if entries.len() > 0 {
        let d = entries.drop_last();
        lemma_entries_grant(d, space_id);
        let n = entries.len() - 1;
        if uuid_value(entries[n].0@) != Some(space_id) {
            if exists|i: int| 0 <= i < entries.len() && uuid_value(#[trigger] entries[i].0@) == Some(space_id) {
                let i = choose|i: int| 0 <= i < entries.len() && uuid_value(#[trigger] entries[i].0@) == Some(space_id);
                assert(d[i] == entries[i]);
            }
            if entries_grant(d, space_id) is Some {
                let i = choose|i: int| 0 <= i < d.len() && uuid_value(#[trigger] d[i].0@) == Some(space_id)
                    && entries_grant(d, space_id) == Some(parsed_ids(strings_view(d[i].1@)));
                assert(entries[i] == d[i]);
            }
        }
    }
}

/// What stored grants JSON gives for `space_id`, read through the decoded
/// map `m`: some key parses to that Space, and the grant is the parsed
/// FeatureSet ids of such a key.
pub open spec fn map_grants(m: Map<Seq<char>, Seq<Seq<char>>>, r: Seq<(u128, Vec<u128>)>) -> bool {
    forall|space_id: u128| {
        &&& (#[trigger] grants_for(r, space_id) is Some <==> exists|k: Seq<char>| m.contains_key(k) && uuid_value(k) == Some(space_id))
        &&& (grants_for(r, space_id) matches Some(g) ==> exists|k: Seq<char>|
            m.contains_key(k) && uuid_value(k) == Some(space_id) && g == parsed_ids(m[k]))
    }
}

/// Read stored legacy grants: for each Space id key of the stored JSON
/// object that parses, a grant of its FeatureSet ids that parse (when two
/// keys parse to one Space, one of them). Unreadable JSON, or none stored,
/// means no grants.
pub fn parse_grants(json: Option<&str>) -> (r: Vec<(u128, Vec<u128>)>)
    ensures
        match json {
            None => r@.len() == 0,
            Some(t) => match grants_json(t@) {
                None => r@.len() == 0,
                Some(m) => map_grants(m, r@),
            },
        },
{
    let text = match json {
        Some(t) => t,
        None => return Vec::new(),
    };
    match decode_grants_json(text) {
        Some(entries) => {
            let r = grants_from_entries(&entries);
            proof {
                let m = grants_json(text@)->0;
                let v = entries@;
                assert forall|space_id: u128| {
                    &&& (#[trigger] grants_for(r@, space_id) is Some <==> exists|k: Seq<char>| m.contains_key(k) && uuid_value(k) == Some(space_id))
                    &&& (grants_for(r@, space_id) matches Some(g) ==> exists|k: Seq<char>|
                        m.contains_key(k) && uuid_value(k) == Some(space_id) && g == parsed_ids(m[k]))
                } by {
                    lemma_entries_grant(v, space_id);
                    if exists|k: Seq<char>| m.contains_key(k) && uuid_value(k) == Some(space_id) {
                        let k = choose|k: Seq<char>| m.contains_key(k) && uuid_value(k) == Some(space_id);
                        let i = choose|i: int| 0 <= i < v.len() && #[trigger] v[i].0@ == k;
                        assert(uuid_value(v[i].0@) == Some(space_id));
                    }
                    if grants_for(r@, space_id) is Some {
                        let i = choose|i: int| 0 <= i < v.len() && uuid_value(#[trigger] v[i].0@) == Some(space_id)
                            && grants_for(r@, space_id) == Some(parsed_ids(strings_view(v[i].1@)));
                        assert(m.contains_key(v[i].0@) && m[v[i].0@] == strings_view(v[i].1@));
                    }
                }
            }
            r
        },
        None => Vec::new(),
    }
}

proof fn lemma_grants_for_prepend(e: (u128, Vec<u128>), s: Seq<(u128, Vec<u128>)>, k: u128)
    ensures
        grants_for(seq![e] + s, k) == (match grants_for(s, k) {
            Some(g) => Some(g),
            None => if e.0 == k { Some(e.1@) } else { None },
        }),
    decreases s.len(),
{
    if s.len() == 0 {
        assert(seq![e] + s =~= seq![e]);
        assert(seq![e].drop_last() =~= Seq::<(u128, Vec<u128>)>::empty());
    } else {
        assert((seq![e] + s).drop_last() =~= seq![e] + s.drop_last());
        assert((seq![e] + s).last() == s.last());
        lemma_grants_for_prepend(e, s.drop_last(), k);
    }
}

} // verus!
