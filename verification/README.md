# codex_plus_core

The core of a desktop manager for the Codex app, as a verified Verus library.

- `src/` is the library. Every function in it is verified by Verus against
  its `requires`/`ensures` contract; the calls into outside crates
  (`serde_json`, `base64`, `sha2`, `uuid`, `directories`, `url`) stand behind
  small trusted wrappers whose contracts are written in their doc comments.
  Laws that relate several functions are public `law_*` proof functions.
- `tests/` runs the library on concrete values.
- `app/` is ordinary Rust around the library: files, processes, sockets and
  the clock. It carries out what the library decides; the few choices left
  there are about the machine itself: which files exist, and whether a host
  name is an IPv6 address (which `std::net` answers, and which the library
  cannot use). It covers provider sync (rollouts, global state, backups),
  the session index, the local relay settings, the diagnostic log, the GPU
  cache guard, the import preview, SSH targets, the OAuth callback and the
  provider doctor; it has no settings store, SQLite access or manager
  commands, so the parts of the app built on those are not here.

Modules: `text`, `order`, `json` (a plain model of JSON documents), `settings`,
`relay_rotation` (choosing among the members of an aggregate provider),
`rotation_laws` (what a selector does over several requests), `local_relay`,
`manager` (the provider doctor's checks, OAuth upsert, provider sync
selection), `doctor` (the provider doctor run as a state machine), `codex_oauth` and `oauth_flow` (Codex OAuth tokens and the
browser login), `diagnostic_log` and `diagnostic_value` (redaction, rate
limits, rotation), `paths`, `gpu_cache_guard`, `native_menu`, `assets`, `ssh`,
`provider_sync`, `global_state` (the desktop app's workspace roots), `rollout`
(moving sessions between providers), `sync_lock`,
`legacy_import`, `config_text`, `market`, `model_suffix`.
