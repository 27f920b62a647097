# opto_sync_web_server

The framework-neutral Opto-Sync web boundary and the strict domain
configuration of the web server, with machine-checked contracts.

- `src/web_sync.rs` — `WebSyncService`: admits an already-validated mutation
  through one `MutationQueue`, reads the optimistic projection from
  `LocalReadback`, and emits privacy-bounded lifecycle events to
  `SyncTelemetry`. Each collaborator trait carries a model of its own
  history (the queue's admissions, the readback's lookups, the sink's
  events) that its methods' contracts extend; the service's contracts state
  what it hands each collaborator and map their answers to its result
  through the verified functions `admission_outcome` and `project`.
- `src/flags.rs` — the `.opto-sync.toml` reader: line-by-line model
  (`parse_spec`), validation of bindings, application of defaults to an
  environment, and admission of the command-line parser's findings.
- `src/env_map.rs` — `EnvMap`, a value-level environment map with
  argv-over-env merging.
- `src/text.rs` — Unicode white space, trimming and searching on char buffers.
- `app/main.rs` — the composition root: reads argv, the process environment
  and the flag contract file, and hands plain values to the library.
