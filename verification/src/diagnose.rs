//! Diagnostics of an installed server: missing required inputs, the health
//! bucket of its connection, and a redacted view of its transport
//! configuration (key names only, never values).

use vstd::prelude::*;
use crate::ordering::{sort_strings, sorted_le, sorted_set_of, sorted_unique, strictly_sorted};
use crate::package::strings_view;
use crate::strmap::{lookup, Entries, StrMap};
use crate::text::string_of;
use crate::transport::{transport_metadata, InputDefinition, InstalledServer, ServerDefinition, TransportConfig};

verus! {

/// Connection state of a server in the pool.
#[derive(Debug, Clone, Copy, PartialEq, Eq, Structural)]
pub enum ConnectionStatus {
    Connected,
    Connecting,
    Refreshing,
    Authenticating,
    Error,
    AuthRequired,
    Disconnected,
}

/// Operator-facing health bucket of an installed server.
#[derive(Debug, Clone, Copy, PartialEq, Eq, Structural)]
pub enum ServerHealth {
    Healthy,
    Error,
    AuthRequired,
    NeedsSetup,
    Disconnected,
}

impl ServerHealth {
    /// Whether this bucket counts as unhealthy (every bucket but `Healthy`).
    pub fn is_unhealthy(self) -> (b: bool)
        ensures
            b == !(self is Healthy),
    {
        !matches!(self, ServerHealth::Healthy)
    }
}

/// The health bucket: missing inputs win over the connection state; a
/// working or in-progress connection is healthy.
pub open spec fn health_of(status: ConnectionStatus, has_missing_inputs: bool) -> ServerHealth {
    if has_missing_inputs {
        ServerHealth::NeedsSetup
    } else {
        match status {
            ConnectionStatus::Error => ServerHealth::Error,
            ConnectionStatus::AuthRequired => ServerHealth::AuthRequired,
            ConnectionStatus::Disconnected => ServerHealth::Disconnected,
            _ => ServerHealth::Healthy,
        }
    }
}

/// Map the connection state and the setup state to a health bucket.
pub fn classify_health(status: ConnectionStatus, has_missing_inputs: bool) -> (h: ServerHealth)
    ensures
        h == health_of(status, has_missing_inputs),
{
    if has_missing_inputs {
        return ServerHealth::NeedsSetup;
    }
    match status {
        ConnectionStatus::Error => ServerHealth::Error,
        ConnectionStatus::AuthRequired => ServerHealth::AuthRequired,
        ConnectionStatus::Disconnected => ServerHealth::Disconnected,
        ConnectionStatus::Connected
        | ConnectionStatus::Connecting
        | ConnectionStatus::Refreshing
        | ConnectionStatus::Authenticating => ServerHealth::Healthy,
    }
}

/// Whether `values` holds a non-empty value for `id`.
pub open spec fn has_value(values: Entries, id: Seq<char>) -> bool {
    match lookup(values, id) {
        Some(v) => v.len() > 0,
        None => false,
    }
}

/// Ids of the required inputs without a non-empty value, in definition order.
pub open spec fn missing_inputs(inputs: Seq<InputDefinition>, values: Entries) -> Seq<Seq<char>>
    decreases inputs.len(),
{
    if inputs.len() == 0 {
        Seq::empty()
    } else {
        let rest = missing_inputs(inputs.drop_last(), values);
        let input = inputs.last();
        if input.required && !has_value(values, input.id@) {
            rest.push(input.id@)
        } else {
            rest
        }
    }
}

/// The missing required inputs of an installed server; none without a
/// cached definition.
pub open spec fn missing_of(installed: InstalledServer) -> Seq<Seq<char>> {
    match installed.cached_definition {
        Some(def) => missing_inputs(transport_metadata(def.transport).inputs@, installed.input_values@),
        None => Seq::empty(),
    }
}

/// Ids of the required inputs that have no non-empty value, sorted. Empty
/// when the server has no cached definition.
pub fn parse_missing_required_inputs(installed: &InstalledServer) -> (r: Vec<String>)
    ensures
        sorted_le(strings_view(r@)),
        strings_view(r@).to_multiset() == missing_of(*installed).to_multiset(),
{
    let definition = match installed.get_definition() {
        Some(d) => d,
        None => {
            let empty: Vec<String> = Vec::new();
            assert(strings_view(empty@) =~= Seq::<Seq<char>>::empty());
            return empty;
        },
    };
    let values = &installed.input_values;
    let inputs = &definition.transport.metadata().inputs;
    let mut missing: Vec<String> = Vec::new();
    let mut i: usize = 0;
    while i < inputs.len()
        invariant
            i <= inputs@.len(),
            strings_view(missing@) == missing_inputs(inputs@.take(i as int), values@),
        decreases inputs.len() - i,
    {
        let input = &inputs[i];
        assert(inputs@.take(i + 1).drop_last() =~= inputs@.take(i as int));
        assert(inputs@.take(i + 1).last() == *input);
        if input.required {
            let filled = match values.get(input.id.as_str()) {
                Some(v) => !v.as_str().is_empty(),
                None => false,
            };
            if !filled {
                let ghost before = missing@;
                missing.push(input.id.clone());
                assert(strings_view(missing@) =~= strings_view(before).push(input.id@));
            }
        }
        i = i + 1;
    }
    assert(inputs@.take(inputs@.len() as int) =~= inputs@);
    let sorted = sort_strings(&missing);
    assert(sorted.deep_view() =~= strings_view(sorted@));
    assert(missing.deep_view() =~= strings_view(missing@));
    sorted
}

/// Whether any required input is unset.
pub fn has_missing_required_inputs(installed: &InstalledServer) -> (b: bool)
    ensures
        b == (missing_of(*installed).len() > 0),
{
    let missing = parse_missing_required_inputs(installed);
    proof {
        vstd::seq_lib::to_multiset_len(strings_view(missing@));
        vstd::seq_lib::to_multiset_len(missing_of(*installed));
    }
    missing.len() > 0
}

/// Redacted transport configuration: transport shape and key names only.
#[derive(Debug, Clone)]
pub struct ConfigView {
    pub transport_type: Option<String>,
    pub command: Option<String>,
    pub url: Option<String>,
    pub args: Vec<String>,
    pub env_keys: Vec<String>,
    pub header_keys: Vec<String>,
    pub input_keys: Vec<String>,
}

impl Default for ConfigView {
    fn default() -> (v: Self)
        ensures
            v.transport_type is None,
            v.command is None,
            v.url is None,
            v.args@.len() == 0,
            v.env_keys@.len() == 0,
            v.header_keys@.len() == 0,
            v.input_keys@.len() == 0,
    {
        ConfigView {
            transport_type: None,
            command: None,
            url: None,
            args: Vec::new(),
            env_keys: Vec::new(),
            header_keys: Vec::new(),
            input_keys: Vec::new(),
        }
    }
}

pub open spec fn lit_stdio() -> Seq<char> {
    seq!['s', 't', 'd', 'i', 'o']
}

pub open spec fn lit_http() -> Seq<char> {
    seq!['h', 't', 't', 'p']
}

/// The keys of a map.
pub open spec fn keys_of(e: Entries) -> Seq<Seq<char>> {
    e.map_values(|p: (Seq<char>, Seq<char>)| p.0)
}

/// The ids of a list of inputs.
pub open spec fn input_ids(inputs: Seq<InputDefinition>) -> Seq<Seq<char>> {
    inputs.map_values(|i: InputDefinition| i.id@)
}

/// The redacted view of a definition: input ids sorted and deduplicated;
/// for stdio the command, the arguments and the sorted env keys; for http
/// the URL and the sorted header keys.
pub open spec fn config_view_of(view: ConfigView, def: ServerDefinition) -> bool {
    &&& strings_view(view.input_keys@) == sorted_set_of(input_ids(transport_metadata(def.transport).inputs@))
    &&& match def.transport {
        TransportConfig::Stdio { command, args, env, .. } => {
            &&& view.transport_type matches Some(t) && t@ == lit_stdio()
            &&& view.command matches Some(c) && c@ == command@
            &&& view.url is None
            &&& strings_view(view.args@) == strings_view(args@)
            &&& strings_view(view.env_keys@) == sorted_set_of(keys_of(env@))
            &&& view.header_keys@.len() == 0
        },
        TransportConfig::Http { url, headers, .. } => {
            &&& view.transport_type matches Some(t) && t@ == lit_http()
            &&& view.command is None
            &&& view.url matches Some(u) && u@ == url@
            &&& view.args@.len() == 0
            &&& view.env_keys@.len() == 0
            &&& strings_view(view.header_keys@) == sorted_set_of(keys_of(headers@))
        },
    }
}

fn sorted_keys(m: &StrMap) -> (r: Vec<String>)
    ensures
        strings_view(r@) == sorted_set_of(keys_of(m@)),
{
    let mut keys: Vec<String> = Vec::new();
    let mut i: usize = 0;
    while i < m.len()
        invariant
            i <= m@.len(),
            strings_view(keys@) == keys_of(m@).take(i as int),
        decreases m@.len() - i,
    {
        let (k, _) = m.entry(i);
        let ghost before = keys@;
        let kc = k.clone();
        keys.push(kc);
        assert(strings_view(keys@) =~= strings_view(before).push(k@));
        assert(keys_of(m@).take(i + 1) =~= keys_of(m@).take(i as int).push(m@[i as int].0));
        assert(strings_view(keys@) =~= keys_of(m@).take(i + 1));
        i = i + 1;
    }
    assert(keys_of(m@).take(m@.len() as int) =~= keys_of(m@));
    assert(keys.deep_view() =~= strings_view(keys@));
    let r = sorted_unique(&keys);
    assert(r.deep_view() =~= strings_view(r@));
    r
}

fn copy_strings(v: &Vec<String>) -> (r: Vec<String>)
    ensures
        strings_view(r@) == strings_view(v@),
{
    let mut out: Vec<String> = Vec::new();
    let mut i: usize = 0;
    while i < v.len()
        invariant
            i <= v@.len(),
            strings_view(out@) == strings_view(v@).take(i as int),
        decreases v.len() - i,
    {
        let ghost before = out@;
        out.push(v[i].clone());
        assert(strings_view(out@) =~= strings_view(before).push(v@[i as int]@));
        assert(strings_view(v@).take(i + 1) =~= strings_view(v@).take(i as int).push(v@[i as int]@));
        assert(strings_view(out@) =~= strings_view(v@).take(i + 1));
        i = i + 1;
    }
    assert(strings_view(v@).take(v@.len() as int) =~= strings_view(v@));
    out
}

/// The redacted view of a registry definition.
pub fn build_config_view_from_definition(definition: &ServerDefinition) -> (v: ConfigView)
    ensures
        config_view_of(v, *definition),
{
    let inputs = &definition.transport.metadata().inputs;
    let mut ids: Vec<String> = Vec::new();
    let mut i: usize = 0;
    while i < inputs.len()
        invariant
            i <= inputs@.len(),
            strings_view(ids@) == input_ids(inputs@).take(i as int),
        decreases inputs.len() - i,
    {
        let ghost before = ids@;
        ids.push(inputs[i].id.clone());
        assert(strings_view(ids@) =~= strings_view(before).push(inputs@[i as int].id@));
        assert(input_ids(inputs@).take(i + 1) =~= input_ids(inputs@).take(i as int).push(inputs@[i as int].id@));
        assert(strings_view(ids@) =~= input_ids(inputs@).take(i + 1));
        i = i + 1;
    }
    assert(input_ids(inputs@).take(inputs@.len() as int) =~= input_ids(inputs@));
    assert(ids.deep_view() =~= strings_view(ids@));
    let input_keys = sorted_unique(&ids);
    assert(input_keys.deep_view() =~= strings_view(input_keys@));
    match &definition.transport {
        TransportConfig::Stdio { command, args, env, .. } => {
            let kind: Vec<char> = vec!['s', 't', 'd', 'i', 'o'];
            assert(kind@ =~= lit_stdio());
            ConfigView {
                transport_type: Some(string_of(&kind)),
                command: Some(command.clone()),
                url: None,
                args: copy_strings(args),
                env_keys: sorted_keys(env),
                header_keys: Vec::new(),
                input_keys,
            }
        },
        TransportConfig::Http { url, headers, .. } => {
            let kind: Vec<char> = vec!['h', 't', 't', 'p'];
            assert(kind@ =~= lit_http());
            ConfigView {
                transport_type: Some(string_of(&kind)),
                command: None,
                url: Some(url.clone()),
                args: Vec::new(),
                env_keys: Vec::new(),
                header_keys: sorted_keys(headers),
                input_keys,
            }
        },
    }
}

/// The redacted view of an installed server's cached definition; the empty
/// view when there is none.
pub fn build_config_view(installed: &InstalledServer) -> (v: ConfigView)
    ensures
        match installed.cached_definition {
            Some(def) => config_view_of(v, def),
            None => v.transport_type is None && v.command is None && v.url is None && v.args@.len() == 0
                && v.env_keys@.len() == 0 && v.header_keys@.len() == 0 && v.input_keys@.len() == 0,
        },
{
    match installed.get_definition() {
        Some(def) => build_config_view_from_definition(def),
        None => ConfigView::default(),
    }
}

} // verus!
