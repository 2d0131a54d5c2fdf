# amont

The decisions behind amont's git hooks and its fleet dashboard, written in
Verus: every function under `src/` carries a contract that the verifier
proves, and the laws the project promises stand beside them as proof
functions.

## Layout

- `src/` — the library. Text scanning (`ban_terms`, `python_blank`,
  `secrets`, `merge_conflict`), the commit and push decisions (`check`,
  `dispatch`, `naming`, `check_list`, `gate_evidence`, `gate_stamp`,
  `run_tests`, `attest`), the append-only ledgers (`ledger`, `bypass`,
  `downgrade`) and their fleet readers, the generated `AGENTS.md` block
  (`agents_md`, `agents_md_drift`), the dispatcher shims (`shim`) and the
  fleet's summaries (`gates`, `gates_report`, `fleet_cli`).
  `text` holds the few calls into `std` the verifier takes on trust, each
  with its contract spelled out.
- `tests/` — tests on concrete values, run against the compiled library.
- `app/` — what cannot be verified: reading files and git's output,
  running processes, printing, and the serde copies of the library's types.

## Laws

Among what is proved, not only checked on examples:

- each blanker keeps the text's length and every newline, so a finding's
  line and column point at the source;
- a ledger reads back the events an append wrote, one per name in order,
  compacting keeps the newest, and the fleet's readers report the same
  per-name tally as the hook's parsers;
- writing a well-formed `AGENTS.md` block over its own output changes nothing, and the
  check then reports it as the generated one;
- recovering a shim's baked path undoes rendering it, wherever the template's
  fixed text marks where the path ends;
- a push stops at the first gate that fails with `block`, and a listing
  reports each check in exactly one of four states.
