//! Per-session and per-client records of the session roots registry, kept in
//! `dashmap::DashMap` tables keyed by session id and client id.
//!
//! Verus sees a table only through the names [`session_table`] and
//! [`client_table`]: the map from each key's characters to its record.

use vstd::prelude::*;
use dashmap::DashMap;

verus! {

/// Everything the registry tracks for one `mcp-session-id`.
#[derive(Clone, Debug)]
pub struct SessionRecord {
    /// Roots reported by the client via `roots/list`, normalized.
    pub roots: Option<Vec<String>>,
    /// Last resolved FeatureSet id (`Some(None)` records a deny).
    pub last_resolution: Option<Option<String>>,
    /// Whether the client declared the MCP `roots` capability.
    pub roots_capable: Option<bool>,
    /// Clock reading of the last completed on-demand roots probe.
    pub last_probe: Option<u64>,
    /// Clock reading when the resolver first saw the session without roots.
    pub first_seen: Option<u64>,
    /// Root pinned by the `X-Mcpmux-Workspace` header, normalized.
    pub pinned: Option<String>,
    /// Folder set from the `X-Mcpmux-Workspace-Set` header.
    pub candidates: Option<Vec<String>>,
    /// Fingerprint of the FeatureSets behind the cached search index.
    pub search_cache: Option<u64>,
}

/// The record of a session the registry knows nothing about.
pub open spec fn blank_record() -> SessionRecord {
    SessionRecord {
        roots: None,
        last_resolution: None,
        roots_capable: None,
        last_probe: None,
        first_seen: None,
        pinned: None,
        candidates: None,
        search_cache: None,
    }
}

impl SessionRecord {
    /// A record with nothing set.
    pub fn blank() -> (r: Self)
        ensures
            r == blank_record(),
    {
        SessionRecord {
            roots: None,
            last_resolution: None,
            roots_capable: None,
            last_probe: None,
            first_seen: None,
            pinned: None,
            candidates: None,
            search_cache: None,
        }
    }
}

/// Headers held for a client until its first session id exists.
#[derive(Clone, Debug)]
pub struct PendingRecord {
    /// Normalized `X-Mcpmux-Workspace` root.
    pub workspace: Option<String>,
    /// Parsed `X-Mcpmux-Workspace-Set` candidates.
    pub candidates: Option<Vec<String>>,
}

pub open spec fn blank_pending() -> PendingRecord {
    PendingRecord { workspace: None, candidates: None }
}

impl PendingRecord {
    /// A record with nothing held.
    pub fn blank() -> (r: Self)
        ensures
            r == blank_pending(),
    {
        PendingRecord { workspace: None, candidates: None }
    }
}

#[verifier::external_type_specification]
#[verifier::external_body]
#[verifier::reject_recursive_types(K)]
#[verifier::reject_recursive_types(V)]
#[verifier::reject_recursive_types(S)]
pub struct ExDashMap<K, V, S>(DashMap<K, V, S>);

/// What a session table holds: each session id's characters mapped to its record.
pub uninterp spec fn session_table(m: DashMap<String, SessionRecord>) -> Map<Seq<char>, SessionRecord>;

/// What a client table holds: each client id's characters mapped to its record.
pub uninterp spec fn client_table(m: DashMap<String, PendingRecord>) -> Map<Seq<char>, PendingRecord>;

/// `DashMap::new`: an empty table.
#[verifier::external_body]
pub(crate) fn new_session_table() -> (table: DashMap<String, SessionRecord>)
    ensures
        session_table(table).dom() == Set::<Seq<char>>::empty(),
{
    DashMap::new()
}

/// `DashMap::get`, cloning the record out of the returned guard: the record
/// stored under `key`, if any.
#[verifier::external_body]
pub(crate) fn session_get(m: &DashMap<String, SessionRecord>, key: &str) -> (r: Option<SessionRecord>)
    ensures
        r is Some <==> session_table(*m).contains_key(key@),
        r is Some ==> r->0 == session_table(*m)[key@],
{
    m.get(key).map(|entry| entry.value().clone())
}

/// `DashMap::insert`: `key` now maps to `value`, every other key is unchanged.
#[verifier::external_body]
pub(crate) fn session_put(m: &mut DashMap<String, SessionRecord>, key: String, value: SessionRecord)
    ensures
        session_table(*final(m)) == session_table(*old(m)).insert(key@, value),
{
    m.insert(key, value);
}

/// `DashMap::remove`: `key` is gone, every other key is unchanged.
#[verifier::external_body]
pub(crate) fn session_drop(m: &mut DashMap<String, SessionRecord>, key: &str)
    ensures
        session_table(*final(m)) == session_table(*old(m)).remove(key@),
{
    m.remove(key);
}

/// `DashMap::iter`, each entry cloned out: every key once, with its record,
/// in an order the contract leaves open (the table's shard walk).
#[verifier::external_body]
pub(crate) fn session_entries(m: &DashMap<String, SessionRecord>) -> (r: Vec<(String, SessionRecord)>)
    ensures
        forall|i: int, j: int| 0 <= i < j < r@.len() ==> #[trigger] r@[i].0@ != #[trigger] r@[j].0@,
        forall|i: int| 0 <= i < r@.len() ==> session_table(*m).contains_key(#[trigger] r@[i].0@)
            && session_table(*m)[r@[i].0@] == r@[i].1,
        forall|k: Seq<char>| #[trigger] session_table(*m).contains_key(k) ==> exists|i: int| 0 <= i < r@.len() && #[trigger] r@[i].0@ == k,
{
    m.iter().map(|entry| (entry.key().clone(), entry.value().clone())).collect()
}

/// `DashMap::new`: an empty table.
#[verifier::external_body]
pub(crate) fn new_client_table() -> (table: DashMap<String, PendingRecord>)
    ensures
        client_table(table).dom() == Set::<Seq<char>>::empty(),
{
    DashMap::new()
}

/// `DashMap::get`, cloning the record out of the returned guard.
#[verifier::external_body]
pub(crate) fn client_get(m: &DashMap<String, PendingRecord>, key: &str) -> (r: Option<PendingRecord>)
    ensures
        r is Some <==> client_table(*m).contains_key(key@),
        r is Some ==> r->0 == client_table(*m)[key@],
{
    m.get(key).map(|entry| entry.value().clone())
}

/// `DashMap::insert`: `key` now maps to `value`, every other key is unchanged.
#[verifier::external_body]
pub(crate) fn client_put(m: &mut DashMap<String, PendingRecord>, key: String, value: PendingRecord)
    ensures
        client_table(*final(m)) == client_table(*old(m)).insert(key@, value),
{
    m.insert(key, value);
}

} // verus!
