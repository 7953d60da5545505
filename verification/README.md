# parallel_workflow

A local workflow engine for tracking execution across many git repositories:
for each initialized repository it keeps a canonical ordered plan, the runtime
focus and next action, sessions, activity, blockers, decision proposals and a
generated handoff. The engine is written in Verus: every public operation has
a contract over a mathematical model of the workflow state, and the properties
that span operations are proved as lemmas.

## Layout

- `src/` — the verified library.
  - `models.rs` — the workflow records and their models (views).
  - `plan.rs`, `sessions.rs`, `runtime.rs` — plan navigation, session
    bookkeeping, ownership reconciliation and the runtime refresh.
  - `mutations.rs` — the state transitions (`start_step`, `complete_step`,
    blockers, notes, runtime patches, decisions), each returning what to write.
  - `sync.rs` — synchronising the canonical plan with a submitted plan, and
    plan validation.
  - `decisions.rs`, `decision_format.rs` — the accepted-decisions Markdown:
    writing, reading, and the proof that reading gives back what was written.
  - `handoff.rs`, `summary.rs` — the handoff document and the board/summary
    projections.
  - `json.rs` — JSON values, and merging a runtime patch into the stored
    runtime.
  - `ids.rs`, `text.rs`, `paths.rs`, `roots.rs`, `discovery.rs` — ids and
    slugs, text helpers, workflow paths, watched roots and index locations.
  - `index.rs` — the project index: which watched roots still need a first
    scan, the one-time migration of watched roots, which watched root owns a
    project, which directories a refresh surfaces as projects (their own
    workflow files, or a Codex thread working in them), what it stores for
    each, and which rows it marks missing.
  - `agents.rs`, `agent_config.rs`, `codex_config.rs` — agent-default
    installation status, the managed instruction blocks, and the Codex
    client's `config.toml`. Codex is the only agent client whose
    configuration the library inspects and writes; the desktop-assistant
    clients that the product can also be connected to are not handled.
  - `bridge.rs`, `desktop.rs`, `cli.rs` — the decisions of the MCP bridge,
    the desktop shell and the command line (routing, authorization, framing,
    bridge supervision, argument resolution).
  - `laws.rs` — properties across operations (focus stays on open steps,
    completing moves focus on, several active sessions keep their own
    steps, syncing keeps titles, matched steps and ids and is stable,
    decisions round-trip, clearing a blocker undoes adding it, ...).
- `tests/` — executable tests of the library.
- `app/` — the `projectctl` program around the library: file storage and
  locking, the SQLite index tables, the directory walk and the Codex thread
  database reads, the HTTP and stdio bridge, and JSON/YAML encoding.
