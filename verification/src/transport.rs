//! Transport configuration resolution: builds the runtime transport of an
//! installed server from its registry definition and the user's settings
//! (input values and their defaults, extra args, env overrides, headers,
//! update policy, per-server state directory).

use vstd::prelude::*;
use crate::package::{
    find_npx_package_arg_index, find_uv_package_arg_index, inject_npm_version_tag,
    inject_uv_version_tag, is_semver_like, lit_npx, lit_uv, lit_uvx, npm_tagged,
    npx_package_index, str_is, strings_view, strip_package_version, strip_version,
    uv_package_index, uv_tagged, version_parts,
};
use crate::strmap::{extend_entries, insert_entry, key_index, lookup, Entries, StrMap};
use crate::text::{append_chars, chars_of, concat, replace_all, replace_chars, string_of};

verus! {

/// The environment variable that carries a server's private state directory.
pub open spec fn state_dir_key() -> Seq<char> {
    seq!['M', 'C', 'P', '_', 'S', 'T', 'A', 'T', 'E', '_', 'D', 'I', 'R']
}

/// One user-supplied input of a transport definition.
#[derive(Clone, Debug)]
pub struct InputDefinition {
    /// Input id; `${input:<id>}` placeholders name it.
    pub id: String,
    /// Whether the server cannot start without a value.
    pub required: bool,
    /// Value used when the user gave none.
    pub default: Option<String>,
}

/// Metadata attached to a registry transport.
#[derive(Clone, Debug)]
pub struct TransportMetadata {
    pub inputs: Vec<InputDefinition>,
}

/// Transport as defined in the server registry.
#[derive(Clone, Debug)]
pub enum TransportConfig {
    Stdio { command: String, args: Vec<String>, env: StrMap, metadata: TransportMetadata },
    Http { url: String, headers: StrMap, metadata: TransportMetadata },
}

impl TransportConfig {
    /// The transport's metadata (its input definitions).
    pub fn metadata(&self) -> (m: &TransportMetadata)
        ensures
            m == transport_metadata(*self),
    {
        match self {
            TransportConfig::Stdio { metadata, .. } => metadata,
            TransportConfig::Http { metadata, .. } => metadata,
        }
    }
}

/// The metadata of a transport.
pub open spec fn transport_metadata(t: TransportConfig) -> TransportMetadata {
    match t {
        TransportConfig::Stdio { metadata, .. } => metadata,
        TransportConfig::Http { metadata, .. } => metadata,
    }
}

/// Per-server package update policy.
#[derive(Clone, Copy, Debug, PartialEq, Eq, Structural)]
pub enum UpdatePolicy {
    /// Re-resolve the newest package on every spawn.
    Auto,
    /// Keep the exact pinned version.
    Pinned,
    /// Only report available updates.
    Notify,
}

/// Options that affect one-shot transport resolution behavior.
#[derive(Clone, Copy, Debug, PartialEq, Eq, Structural)]
pub struct TransportResolutionOptions {
    /// When true, apply latest-package resolution (explicit user update).
    pub apply_package_update: bool,
}

impl Default for TransportResolutionOptions {
    fn default() -> (o: Self)
        ensures
            !o.apply_package_update,
    {
        TransportResolutionOptions { apply_package_update: false }
    }
}

/// The user's installation of a registry server in a Space.
#[derive(Clone, Debug)]
pub struct InstalledServer {
    pub space_id: String,
    pub server_id: String,
    /// Values the user entered for the transport inputs.
    pub input_values: StrMap,
    /// Extra arguments appended after the registry arguments.
    pub args_append: Vec<String>,
    /// Environment entries that override everything else.
    pub env_overrides: StrMap,
    /// Extra HTTP headers.
    pub extra_headers: StrMap,
    pub update_policy: UpdatePolicy,
    pub pinned_version: Option<String>,
    /// Newest version seen by the update probe.
    pub latest_available_version: Option<String>,
    pub enabled: bool,
    /// The registry definition cached at install time (already parsed;
    /// `None` when absent or unreadable).
    pub cached_definition: Option<ServerDefinition>,
}

/// A server's registry definition, as far as the gateway reads it.
#[derive(Clone, Debug)]
pub struct ServerDefinition {
    pub id: String,
    pub name: String,
    pub transport: TransportConfig,
}

impl InstalledServer {
    /// A freshly installed server: no inputs, no overrides, `Notify` policy.
    pub fn new(space_id: &str, server_id: &str) -> (s: Self)
        ensures
            s.space_id@ == space_id@,
            s.server_id@ == server_id@,
            s.input_values@.len() == 0,
            s.args_append@.len() == 0,
            s.env_overrides@.len() == 0,
            s.extra_headers@.len() == 0,
            s.update_policy == UpdatePolicy::Notify,
            s.pinned_version is None,
            s.latest_available_version is None,
            s.enabled,
            s.cached_definition is None,
    {
        InstalledServer {
            space_id: string_of(&chars_of(space_id)),
            server_id: string_of(&chars_of(server_id)),
            input_values: StrMap::new(),
            args_append: Vec::new(),
            env_overrides: StrMap::new(),
            extra_headers: StrMap::new(),
            update_policy: UpdatePolicy::Notify,
            pinned_version: None,
            latest_available_version: None,
            enabled: true,
            cached_definition: None,
        }
    }

    /// The same server with `definition` cached.
    pub fn with_definition(self, definition: ServerDefinition) -> (s: Self)
        ensures
            s == (InstalledServer { cached_definition: Some(definition), ..self }),
    {
        InstalledServer { cached_definition: Some(definition), ..self }
    }

    /// The cached registry definition, if any.
    pub fn get_definition(&self) -> (d: Option<&ServerDefinition>)
        ensures
            match self.cached_definition {
                Some(def) => d == Some(&def),
                None => d is None,
            },
    {
        match &self.cached_definition {
            Some(def) => Some(def),
            None => None,
        }
    }

    /// The same server with `input_values` replaced.
    pub fn with_inputs(self, input_values: StrMap) -> (s: Self)
        ensures
            s == (InstalledServer { input_values, ..self }),
    {
        InstalledServer { input_values, ..self }
    }

    /// The same server with `key` set to `value` among its input values.
    pub fn with_input(self, key: &str, value: &str) -> (s: Self)
        ensures
            s.input_values@ == insert_entry(self.input_values@, key@, value@),
            s.space_id == self.space_id,
            s.server_id == self.server_id,
            s.update_policy == self.update_policy,
    {
        let mut s = self;
        s.input_values.insert(string_of(&chars_of(key)), string_of(&chars_of(value)));
        s
    }

    /// The same server with another update policy.
    pub fn with_update_policy(self, policy: UpdatePolicy) -> (s: Self)
        ensures
            s == (InstalledServer { update_policy: policy, ..self }),
    {
        InstalledServer { update_policy: policy, ..self }
    }

    /// The same server with another pinned version.
    pub fn with_pinned_version(self, version: Option<&str>) -> (s: Self)
        ensures
            s.pinned_version is Some <==> version is Some,
            version is Some ==> s.pinned_version->0@ == version->0@,
            s.update_policy == self.update_policy,
            s.space_id == self.space_id,
            s.server_id == self.server_id,
    {
        let pinned = match version {
            Some(v) => Some(string_of(&chars_of(v))),
            None => None,
        };
        InstalledServer { pinned_version: pinned, ..self }
    }

    /// The same server enabled or disabled.
    pub fn with_enabled(self, enabled: bool) -> (s: Self)
        ensures
            s == (InstalledServer { enabled, ..self }),
    {
        InstalledServer { enabled, ..self }
    }
}

/// Runtime transport handed to the connection pool.
#[derive(Clone, Debug)]
pub enum ResolvedTransport {
    Stdio { command: String, args: Vec<String>, env: StrMap },
    Http { url: String, headers: StrMap },
}

/// `${input:<key>}`.
pub open spec fn placeholder(key: Seq<char>) -> Seq<char> {
    seq!['$', '{', 'i', 'n', 'p', 'u', 't', ':'] + key + seq!['}']
}

/// `template` with each `${input:<key>}` replaced by its value, the
/// entries taken in map order.
pub open spec fn resolved_text(template: Seq<char>, values: Entries) -> Seq<char>
    decreases values.len(),
{
    if values.len() == 0 {
        template
    } else {
        replace_all(resolved_text(template, values.drop_last()), placeholder(values.last().0), values.last().1)
    }
}

/// Resolve placeholders like `${input:INPUT_NAME}` in a string.
pub fn resolve_placeholders(template: &str, input_values: &StrMap) -> (r: String)
    ensures
        r@ == resolved_text(template@, input_values@),
{
    let mut result = chars_of(template);
    let prefix: Vec<char> = vec!['$', '{', 'i', 'n', 'p', 'u', 't', ':'];
    let close: Vec<char> = vec!['}'];
    assert(prefix@ =~= seq!['$', '{', 'i', 'n', 'p', 'u', 't', ':']);
    assert(close@ =~= seq!['}']);
    let mut i: usize = 0;
    while i < input_values.len()
        invariant
            i <= input_values@.len(),
            prefix@ == seq!['$', '{', 'i', 'n', 'p', 'u', 't', ':'],
            close@ == seq!['}'],
            result@ == resolved_text(template@, input_values@.take(i as int)),
        decreases input_values@.len() - i,
    {
        let (key, value) = input_values.entry(i);
        let pat = concat(&concat(&prefix, &chars_of(key.as_str())), &close);
        assert(pat@ == placeholder(key@));
        result = replace_chars(&result, &pat, &chars_of(value.as_str()));
        assert(input_values@.take(i + 1).drop_last() =~= input_values@.take(i as int));
        i = i + 1;
    }
    assert(input_values@.take(input_values@.len() as int) =~= input_values@);
    string_of(&result)
}

/// `(id, default)` of each input definition.
pub open spec fn inputs_view(inputs: Seq<InputDefinition>) -> Seq<(Seq<char>, Option<Seq<char>>)> {
    inputs.map_values(|d: InputDefinition| (d.id@, match d.default {
        Some(v) => Some(v@),
        None => None,
    }))
}

/// The user's values, plus the default of every input the user left unset.
pub open spec fn merged_inputs(inputs: Seq<(Seq<char>, Option<Seq<char>>)>, user: Entries) -> Entries
    decreases inputs.len(),
{
    if inputs.len() == 0 {
        user
    } else {
        let acc = merged_inputs(inputs.drop_last(), user);
        let (id, default) = inputs.last();
        if lookup(acc, id) is None && default is Some {
            insert_entry(acc, id, default->0)
        } else {
            acc
        }
    }
}

/// Build a merged input_values map that includes defaults for any inputs
/// not explicitly provided by the user.
pub fn merge_input_defaults(registry_transport: &TransportConfig, user_values: &StrMap) -> (r: StrMap)
    ensures
        r@ == merged_inputs(inputs_view(transport_metadata(*registry_transport).inputs@), user_values@),
{
    let mut merged = user_values.clone();
    let inputs = &registry_transport.metadata().inputs;
    let ghost iv = inputs_view(inputs@);
    let mut i: usize = 0;
    while i < inputs.len()
        invariant
            i <= inputs@.len(),
            iv == inputs_view(inputs@),
            merged@ == merged_inputs(iv.take(i as int), user_values@),
        decreases inputs.len() - i,
    {
        let input = &inputs[i];
        assert(iv.take(i + 1).drop_last() =~= iv.take(i as int));
        assert(iv[i as int].0 == input.id@);
        if !merged.contains_key(input.id.as_str()) {
            match &input.default {
                Some(default_val) => {
                    merged.insert(input.id.clone(), default_val.clone());
                },
                None => {},
            }
        }
        i = i + 1;
    }
    assert(iv.take(iv.len() as int) =~= iv);
    merged
}

/// The npx package argument set to `tag`.
pub open spec fn npx_with_tag(args: Seq<Seq<char>>, tag: Seq<char>) -> Seq<Seq<char>> {
    match npx_package_index(args) {
        Some(i) => args.update(i, npm_tagged(args[i], tag)),
        None => args,
    }
}

/// The uv package argument pinned to `version`.
pub open spec fn uv_with_version(command: Seq<char>, args: Seq<Seq<char>>, version: Seq<char>) -> Seq<Seq<char>> {
    match uv_package_index(command, args) {
        Some(i) => args.update(i, uv_tagged(args[i], version)),
        None => args,
    }
}

pub open spec fn lit_latest() -> Seq<char> {
    seq!['l', 'a', 't', 'e', 's', 't']
}

/// Whether `command` is `uvx` or `uv`.
pub open spec fn is_uv_command(command: Seq<char>) -> bool {
    command == lit_uvx() || command == lit_uv()
}

/// Whether the one-shot explicit update path applies.
pub open spec fn explicit_update(policy: UpdatePolicy, options: TransportResolutionOptions) -> bool {
    options.apply_package_update && policy != UpdatePolicy::Pinned
}

/// Arguments after the update policy is applied: an explicit update pins
/// npx to the probed latest semver (else `@latest`); `Auto` floats npx to
/// `@latest`; `Pinned` pins npx (`@ver`) or uv (`==ver`) to a non-empty pin.
pub open spec fn policy_args(
    command: Seq<char>,
    args: Seq<Seq<char>>,
    policy: UpdatePolicy,
    pinned: Option<Seq<char>>,
    latest: Option<Seq<char>>,
    options: TransportResolutionOptions,
) -> Seq<Seq<char>> {
    if explicit_update(policy, options) {
        if command == lit_npx() {
            match latest {
                Some(l) => if version_parts(l).len() > 0 {
                    npx_with_tag(args, l)
                } else {
                    npx_with_tag(args, lit_latest())
                },
                None => npx_with_tag(args, lit_latest()),
            }
        } else {
            args
        }
    } else {
        match policy {
            UpdatePolicy::Auto => if command == lit_npx() {
                npx_with_tag(args, lit_latest())
            } else {
                args
            },
            UpdatePolicy::Pinned => match pinned {
                Some(p) => if p.len() == 0 {
                    args
                } else if command == lit_npx() {
                    npx_with_tag(args, p)
                } else if is_uv_command(command) {
                    uv_with_version(command, args, p)
                } else {
                    args
                },
                None => args,
            },
            UpdatePolicy::Notify => args,
        }
    }
}

/// The view of an optional string.
pub open spec fn opt_view(o: Option<String>) -> Option<Seq<char>> {
    match o {
        Some(s) => Some(s@),
        None => None,
    }
}

fn set_npx_tag(args: &mut Vec<String>, tag: &str)
    ensures
        strings_view(final(args)@) == npx_with_tag(strings_view(old(args)@), tag@),
{
    let ghost a = strings_view(args@);
    match find_npx_package_arg_index(args.as_slice()) {
        Some(index) => {
            let injected = inject_npm_version_tag(args[index].as_str(), tag);
            assert(a[index as int] == args@[index as int]@);
            args.set(index, injected);
            assert(strings_view(args@) =~= a.update(index as int, npm_tagged(a[index as int], tag@)));
        },
        None => {},
    }
}

fn set_uv_version(command: &str, args: &mut Vec<String>, version: &str)
    ensures
        strings_view(final(args)@) == uv_with_version(command@, strings_view(old(args)@), version@),
{
    let ghost a = strings_view(args@);
    match find_uv_package_arg_index(command, args.as_slice()) {
        Some(index) => {
            let injected = inject_uv_version_tag(args[index].as_str(), version);
            assert(a[index as int] == args@[index as int]@);
            args.set(index, injected);
            assert(strings_view(args@) =~= a.update(index as int, uv_tagged(a[index as int], version@)));
        },
        None => {},
    }
}

/// Apply the per-server update policy to npx / uvx stdio arguments
/// (see [`policy_args`]).
pub fn apply_update_policy(
    command: &str,
    args: &mut Vec<String>,
    installed: &InstalledServer,
    options: TransportResolutionOptions,
)
    ensures
        strings_view(final(args)@) == policy_args(
            command@,
            strings_view(old(args)@),
            installed.update_policy,
            opt_view(installed.pinned_version),
            opt_view(installed.latest_available_version),
            options,
        ),
{
    let npx: Vec<char> = vec!['n', 'p', 'x'];
    let uvx: Vec<char> = vec!['u', 'v', 'x'];
    let uv: Vec<char> = vec!['u', 'v'];
    assert(npx@ =~= lit_npx());
    assert(uvx@ =~= lit_uvx());
    assert(uv@ =~= lit_uv());
    let latest: Vec<char> = vec!['l', 'a', 't', 'e', 's', 't'];
    assert(latest@ =~= lit_latest());
    let latest_str = string_of(&latest);
    if options.apply_package_update && installed.update_policy != UpdatePolicy::Pinned {
        if str_is(command, &npx) {
            match &installed.latest_available_version {
                Some(version) => {
                    if is_semver_like(version.as_str()) {
                        set_npx_tag(args, version.as_str());
                    } else {
                        set_npx_tag(args, latest_str.as_str());
                    }
                },
                None => set_npx_tag(args, latest_str.as_str()),
            }
        }
        return;
    }
    match installed.update_policy {
        UpdatePolicy::Auto => {
            if str_is(command, &npx) {
                set_npx_tag(args, latest_str.as_str());
            }
        },
        UpdatePolicy::Pinned => {
            match &installed.pinned_version {
                Some(pinned) => {
                    if pinned.as_str().is_empty() {
                        return;
                    }
                    if str_is(command, &npx) {
                        set_npx_tag(args, pinned.as_str());
                    } else if str_is(command, &uvx) || str_is(command, &uv) {
                        set_uv_version(command, args, pinned.as_str());
                    }
                },
                None => {},
            }
        },
        UpdatePolicy::Notify => {},
    }
}

/// Package for which the policy runs `uv tool upgrade` before spawning
/// (`Auto`, or an explicit update, on a `uvx` / `uv` command).
pub open spec fn uv_upgrade_package(
    command: Seq<char>,
    args: Seq<Seq<char>>,
    policy: UpdatePolicy,
    options: TransportResolutionOptions,
) -> Option<Seq<char>> {
    if is_uv_command(command) && (explicit_update(policy, options) || policy == UpdatePolicy::Auto) {
        match uv_package_index(command, args) {
            Some(i) => Some(strip_version(args[i])),
            None => None,
        }
    } else {
        None
    }
}

/// The package that `uv tool upgrade` must be run for before this stdio
/// server is spawned, if any (see [`uv_upgrade_package`]).
pub fn uv_tool_upgrade_target(
    command: &str,
    args: &[String],
    installed: &InstalledServer,
    options: TransportResolutionOptions,
) -> (r: Option<String>)
    ensures
        opt_view(r) == uv_upgrade_package(command@, strings_view(args@), installed.update_policy, options),
{
    let uvx: Vec<char> = vec!['u', 'v', 'x'];
    let uv: Vec<char> = vec!['u', 'v'];
    assert(uvx@ =~= lit_uvx());
    assert(uv@ =~= lit_uv());
    let applies = (options.apply_package_update && installed.update_policy != UpdatePolicy::Pinned)
        || installed.update_policy == UpdatePolicy::Auto;
    if !(str_is(command, &uvx) || str_is(command, &uv)) || !applies {
        return None;
    }
    match find_uv_package_arg_index(command, args) {
        Some(index) => {
            assert(strings_view(args@)[index as int] == args@[index as int]@);
            Some(strip_package_version(args[index].as_str()))
        },
        None => None,
    }
}

/// POSIX `Path::join`: an absolute component replaces the base; otherwise
/// a `/` is put between a non-empty base without a trailing `/` and the
/// component.
pub open spec fn path_join(base: Seq<char>, comp: Seq<char>) -> Seq<char> {
    if comp.len() > 0 && comp[0] == '/' {
        comp
    } else if base.len() == 0 || base.last() == '/' {
        base + comp
    } else {
        base + seq!['/'] + comp
    }
}

/// `Path::join` on POSIX paths (see [`path_join`]).
pub fn join_path(base: &[char], comp: &[char]) -> (r: Vec<char>)
    ensures
        r@ == path_join(base@, comp@),
{
    if comp.len() > 0 && comp[0] == '/' {
        return concat(&[], comp);
    }
    if base.len() == 0 || base[base.len() - 1] == '/' {
        concat(base, comp)
    } else {
        let mut out = concat(base, &[]);
        out.push('/');
        append_chars(&mut out, comp);
        out
    }
}

/// `<base>/stdio/<space_id>/<server_id>`.
pub open spec fn state_dir_path(base: Seq<char>, space_id: Seq<char>, server_id: Seq<char>) -> Seq<char> {
    path_join(path_join(path_join(base, seq!['s', 't', 'd', 'i', 'o']), space_id), server_id)
}

/// The environment with `MCP_STATE_DIR` added when absent and a base state
/// directory is configured.
pub open spec fn with_state_dir(env: Entries, base: Option<Seq<char>>, space_id: Seq<char>, server_id: Seq<char>) -> Entries {
    if lookup(env, state_dir_key()) is Some {
        env
    } else {
        match base {
            Some(b) => insert_entry(env, state_dir_key(), state_dir_path(b, space_id, server_id)),
            None => env,
        }
    }
}

/// Inject `MCP_STATE_DIR` when it is not already set.
pub fn apply_state_dir_env(resolved_env: &mut StrMap, base_state_dir: Option<&str>, installed: &InstalledServer)
    ensures
        final(resolved_env)@ == with_state_dir(
            old(resolved_env)@,
            match base_state_dir {
                Some(b) => Some(b@),
                None => None,
            },
            installed.space_id@,
            installed.server_id@,
        ),
{
    let key: Vec<char> = vec!['M', 'C', 'P', '_', 'S', 'T', 'A', 'T', 'E', '_', 'D', 'I', 'R'];
    assert(key@ =~= state_dir_key());
    let key_string = string_of(&key);
    if resolved_env.contains_key(key_string.as_str()) {
        return;
    }
    match base_state_dir {
        None => {},
        Some(base) => {
            let stdio: Vec<char> = vec!['s', 't', 'd', 'i', 'o'];
            assert(stdio@ =~= seq!['s', 't', 'd', 'i', 'o']);
            let dir = join_path(
                &join_path(&join_path(&chars_of(base), &stdio), &chars_of(installed.space_id.as_str())),
                &chars_of(installed.server_id.as_str()),
            );
            resolved_env.insert(key_string, string_of(&dir));
        },
    }
}

/// Each string of `args` with its placeholders resolved.
pub open spec fn resolved_args(args: Seq<Seq<char>>, values: Entries) -> Seq<Seq<char>> {
    args.map_values(|a: Seq<char>| resolved_text(a, values))
}

/// `entries` with every value resolved, inserted in order into an empty map.
pub open spec fn resolved_entries(entries: Entries, values: Entries) -> Entries
    decreases entries.len(),
{
    if entries.len() == 0 {
        Seq::empty()
    } else {
        insert_entry(
            resolved_entries(entries.drop_last(), values),
            entries.last().0,
            resolved_text(entries.last().1, values),
        )
    }
}

fn resolve_entries(entries: &StrMap, values: &StrMap) -> (r: StrMap)
    ensures
        r@ == resolved_entries(entries@, values@),
{
    let mut out = StrMap::new();
    let mut i: usize = 0;
    while i < entries.len()
        invariant
            i <= entries@.len(),
            out@ == resolved_entries(entries@.take(i as int), values@),
        decreases entries@.len() - i,
    {
        let (k, v) = entries.entry(i);
        let resolved = resolve_placeholders(v.as_str(), values);
        out.insert(k.clone(), resolved);
        assert(entries@.take(i + 1).drop_last() =~= entries@.take(i as int));
        i = i + 1;
    }
    assert(entries@.take(entries@.len() as int) =~= entries@);
    out
}

fn resolve_args(args: &Vec<String>, values: &StrMap) -> (r: Vec<String>)
    ensures
        strings_view(r@) == resolved_args(strings_view(args@), values@),
{
    let mut out: Vec<String> = Vec::new();
    let mut i: usize = 0;
    while i < args.len()
        invariant
            i <= args@.len(),
            strings_view(out@) =~= resolved_args(strings_view(args@), values@).take(i as int),
        decreases args.len() - i,
    {
        let r = resolve_placeholders(args[i].as_str(), values);
        assert(strings_view(args@)[i as int] == args@[i as int]@);
        let ghost before = strings_view(out@);
        out.push(r);
        assert(strings_view(out@) =~= before.push(r@));
        i = i + 1;
        assert(strings_view(out@) =~= resolved_args(strings_view(args@), values@).take(i as int));
    }
    out
}

/// The effective input values of an installation against a registry
/// transport: the user's values plus defaults.
pub open spec fn effective_values(registry: TransportConfig, installed: InstalledServer) -> Entries {
    merged_inputs(inputs_view(transport_metadata(registry).inputs@), installed.input_values@)
}

/// Build the runtime transport from the registry transport and the
/// installed server.
///
/// Stdio: command and args have placeholders resolved, the extra args are
/// appended and the update policy applied; the environment is the registry
/// env (resolved), then every effective input value, then the user's
/// overrides, then `MCP_STATE_DIR` when absent. Http: the URL and header
/// values are resolved and the extra headers added.
pub fn build_transport_config(
    registry_transport: &TransportConfig,
    installed: &InstalledServer,
    base_state_dir: Option<&str>,
    options: TransportResolutionOptions,
) -> (r: ResolvedTransport)
    ensures
        ({
            let eff = effective_values(*registry_transport, *installed);
            match (*registry_transport, r) {
                (
                    TransportConfig::Stdio { command, args, env, .. },
                    ResolvedTransport::Stdio { command: c, args: a, env: e },
                ) => {
                    &&& c@ == resolved_text(command@, eff)
                    &&& strings_view(a@) == policy_args(
                        c@,
                        resolved_args(strings_view(args@), eff) + strings_view(installed.args_append@),
                        installed.update_policy,
                        opt_view(installed.pinned_version),
                        opt_view(installed.latest_available_version),
                        options,
                    )
                    &&& e@ == with_state_dir(
                        extend_entries(
                            extend_entries(resolved_entries(env@, eff), eff),
                            installed.env_overrides@,
                        ),
                        match base_state_dir {
                            Some(b) => Some(b@),
                            None => None,
                        },
                        installed.space_id@,
                        installed.server_id@,
                    )
                },
                (
                    TransportConfig::Http { url, headers, .. },
                    ResolvedTransport::Http { url: u, headers: h },
                ) => {
                    &&& u@ == resolved_text(url@, eff)
                    &&& h@ == extend_entries(resolved_entries(headers@, eff), installed.extra_headers@)
                },
                _ => false,
            }
        }),
{
    let effective_values = merge_input_defaults(registry_transport, &installed.input_values);
    match registry_transport {
        TransportConfig::Stdio { command, args, env, .. } => {
            let resolved_command = resolve_placeholders(command.as_str(), &effective_values);
            let mut resolved_args = resolve_args(args, &effective_values);
            let mut extra = installed.args_append.clone();
            let ghost before = strings_view(resolved_args@);
            resolved_args.append(&mut extra);
            assert(strings_view(resolved_args@) =~= before + strings_view(installed.args_append@));
            apply_update_policy(resolved_command.as_str(), &mut resolved_args, installed, options);
            let mut resolved_env = resolve_entries(env, &effective_values);
            resolved_env.extend(&effective_values);
            resolved_env.extend(&installed.env_overrides);
            apply_state_dir_env(&mut resolved_env, base_state_dir, installed);
            ResolvedTransport::Stdio { command: resolved_command, args: resolved_args, env: resolved_env }
        },
        TransportConfig::Http { url, headers, .. } => {
            let resolved_url = resolve_placeholders(url.as_str(), &effective_values);
            let mut resolved_headers = resolve_entries(headers, &effective_values);
            resolved_headers.extend(&installed.extra_headers);
            ResolvedTransport::Http { url: resolved_url, headers: resolved_headers }
        },
    }
}

proof fn lemma_lookup_inserted(env: Entries, k: Seq<char>, v: Seq<char>)
    requires
        lookup(env, k) is None,
    ensures
        lookup(insert_entry(env, k, v), k) == Some(v),
{
    let e = insert_entry(env, k, v);
    assert(e == env.push((k, v)));
    assert(e[env.len() as int].0 == k);
    let i = choose|i: int| 0 <= i < e.len() && e[i].0 == k;
    if i < env.len() {
        assert(env[i].0 == k);
        assert(key_index(env, k) is Some);
    }
}

/// `path_join(base, comp)` for a non-empty base and a non-empty relative
/// component ends with `/` and the component.
proof fn lemma_join_ends_with(base: Seq<char>, comp: Seq<char>)
    requires
        base.len() > 0,
        comp.len() > 0,
        comp[0] != '/',
    ensures
        ({
            let d = path_join(base, comp);
            &&& d.len() > comp.len()
            &&& d.subrange(d.len() - comp.len() - 1, d.len() as int) == seq!['/'] + comp
            &&& d.take(d.len() - comp.len()) == (if base.last() == '/' { base } else { base + seq!['/'] })
        }),
{
    let d = path_join(base, comp);
    if base.last() == '/' {
        assert(d.subrange(d.len() - comp.len() - 1, d.len() as int) =~= seq!['/'] + comp);
        assert(d.take(d.len() - comp.len()) =~= base);
    } else {
        assert(d.subrange(d.len() - comp.len() - 1, d.len() as int) =~= seq!['/'] + comp);
        assert(d.take(d.len() - comp.len()) =~= base + seq!['/']);
    }
}

/// The state directory of a Space, before the server's own component:
/// never empty.
proof fn lemma_space_dir_nonempty(base: Seq<char>, space_id: Seq<char>)
    ensures
        path_join(path_join(base, seq!['s', 't', 'd', 'i', 'o']), space_id).len() > 0,
{
    let q = path_join(base, seq!['s', 't', 'd', 'i', 'o']);
    assert(q.len() >= 5);
}

/// Each server gets a state directory of its own: when `MCP_STATE_DIR` is
/// not set and a base directory is configured, the injected directory ends
/// with `/` and the server's id (for a relative, non-empty id), and two
/// servers of one Space with different ids get different directories.
pub proof fn law_state_dir_is_per_server(env: Entries, base: Seq<char>, space_id: Seq<char>, server_a: Seq<char>, server_b: Seq<char>)
    requires
        lookup(env, state_dir_key()) is None,
        server_a.len() > 0,
        server_a[0] != '/',
        server_b.len() > 0,
        server_b[0] != '/',
    ensures
        lookup(with_state_dir(env, Some(base), space_id, server_a), state_dir_key()) matches Some(d)
            && d.len() > server_a.len()
            && d.subrange(d.len() - server_a.len() - 1, d.len() as int) == seq!['/'] + server_a,
        server_a != server_b ==> lookup(with_state_dir(env, Some(base), space_id, server_a), state_dir_key())
            != lookup(with_state_dir(env, Some(base), space_id, server_b), state_dir_key()),
{
    let p = path_join(path_join(base, seq!['s', 't', 'd', 'i', 'o']), space_id);
    lemma_space_dir_nonempty(base, space_id);
    let da = state_dir_path(base, space_id, server_a);
    let db = state_dir_path(base, space_id, server_b);
    lemma_lookup_inserted(env, state_dir_key(), da);
    lemma_lookup_inserted(env, state_dir_key(), db);
    lemma_join_ends_with(p, server_a);
    lemma_join_ends_with(p, server_b);
    if server_a != server_b && da == db {
        let x = if p.last() == '/' { p } else { p + seq!['/'] };
        assert(da =~= x + server_a);
        assert(db =~= x + server_b);
        assert(server_a =~= da.skip(x.len() as int));
        assert(server_b =~= db.skip(x.len() as int));
    }
}

} // verus!
