# Orynth

The verified core of a supervised agent runtime, written in Verus. It holds the
rules of the runtime as functions on plain values, each with a contract that
Verus proves:

- identities, trust, events and the state that a run's events lead to
  (`ids`, `kernel`, `state`, `keys`, `table`);
- event stores, branches, forks and snapshots (`event_store`, `memory_store`,
  `fork`, `remap`, `snapshot_codec`, `artifact`);
- what durable stores write and accept: log frames, metadata, the replacement
  of the metadata file, database rows (`event_codec`, `frames`, `frame_laws`,
  `log`, `metadata`, `sidecar`, `rows`);
- shared context, messages between agents, assumptions, failures, cache
  telemetry and plug-ins (`context*`, `view_laws`, `ipc`, `assumptions`,
  `normal_laws`, `failure_memory`, `cache`, `plugin`);
- an agent's run over a provider's stream (`agent`, `agent_laws`);
- configuration, the terminal boundary and its undo journal, the operator's
  commands, the inspector, the demonstration and the measuring harness
  (`config`, `terminal`, `terminal_report`, `execution`, `undo`, `undo_laws`,
  `journal_steps`, `operator`, `operator_laws`, `inspector`, `figures`, `demo`,
  `bench`).

`app/` holds the programs around the library: files, the database, the terminal
and the clock. Time, randomness and what other services answer reach the library
as arguments.

Properties that span several functions are public proof functions, named after
what they state: for example `appended_events_survive_reopening`,
`torn_appends_keep_the_old_events`, `crashes_keep_a_generation`,
`runs_replay`, `histories_replay`, `forks_are_isolated` and `publication_never_upgrades_trust`.
