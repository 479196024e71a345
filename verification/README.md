# cadence

The rules of an agent workshop, verified with Verus: who may run what, whose
connection this is, which facts may be trusted, and what an operator has to
look at next.

- `src/` is the library. Every function states what it returns in `requires`
  and `ensures` clauses, over the spec functions beside it; public proof
  functions state what holds across calls.
  - `memory` — facts learned about a project, their reviews and finalization,
    matching and lessons.
  - `master_perm` — permission requests, single-use grants and rules.
  - `operator_auth` — the operator's secret, login links and sessions.
  - `peer` — a connection's caller, from what the process table shows.
  - `platform` — enrolled credentials, custody, and the local outbox.
  - `model_defaults`, `pi_policy` — which model and which package an agent is
    launched with.
  - `mcp` — the permission prompt as a state machine.
  - `overview`, `needs_dismiss` — the screen of what needs attention.
  - `json`, `text`, `time`, `paths`, `hash`, `dict`, `order`, `error` — shared
    ground. What the library takes on trust from outside crates stands in
    `json`, `hash`, `text` and `model_defaults/scan`, each with a comment that
    says what is claimed of it.
- `app/` is ordinary Rust around it: files, processes, sockets, the clock, and
  the serialized copies of the library's types.
- `tests/` runs the library.
