# mcpmux (verified core)

The decision logic of the mcpmux MCP gateway, written in Verus and proved
against its contracts.

- `src/` — the library. Every function is verified; calls into outside
  crates (`urlencoding`, `strsim`, `dashmap`, `uuid`, `chrono`,
  `serde_json`) sit behind small trusted wrappers whose doc comments say what
  is assumed of them.
  - `text`, `ordering`, `strmap`, `json`: string helpers, lexicographic
    order, small string maps, and JSON values (parsed and printed by
    serde_json behind named wrappers).
  - `workspace`, `package`, `transport`: root normalization and longest-prefix
    binding (POSIX by default; the `_for` / `_on` variants take the platform
    as a flag, for Windows separators and drive letters), package version
    pinning, transport resolution.
  - `session_store`, `session_roots`: per-session roots, pins, candidate
    folder sets and probe bookkeeping, over a `DashMap`-backed store.
  - `resolver`, `bind`, `window`: FeatureSet resolution and the
    bind-current-workspace call as state machines, window identity.
  - `invoke`, `discovery`, `catalog`, `diagnose`, `meta`, `call_context`,
    `hooks`, `config_events`, `admin`, `client`, `warmer`: the meta-tool
    decisions (invoke and bind flows, disclosure refusals), embedding warm-up
    selection,
    search filtering and paging, the Cursor hooks.json merge / removal /
    status, config-change plans,
    admin settings and client records.
  - Public `law_*` proof functions state properties that span several
    operations.
- `tests/` — runtime tests of the library.
- `app/` — the unverified shell: clocks, process probes, files, JSON
  conversion, the drivers of the resolution and bind machines, and the
  floating-point search ranking.
