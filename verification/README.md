# baton

The core of a terminal application's command system, as a verified Verus
library, plus the thin program around it.

- `src/` — the library. Every function is verified except eight small
  trusted wrappers around keyboard-types, nucleo-matcher and std (marked
  `external_body`, each with a doc comment saying what its contract claims):
  - `action`, `catalog`: actions, the channels they are reachable from, and
    the built-in action table and keymap;
  - `registry`: merging action tables and refusing duplicate names;
  - `context`, `predicate`, `clause_proofs`: the closed set of context flags
    and the `when` clause language, with its print-then-parse law;
  - `keystroke`: the physical-key syntax, with its round-trip law;
  - `keymap`: assembly, lookup, the text-editing rule and the search for
    conflicting bindings, with the laws that tie them together;
  - `router`: the one routing decision every terminal byte passes;
  - `search`: palette ranking (nucleo scores, the library orders);
  - `metrics`: render-path counters and the capped sample buffer;
  - `store`: the persistence port and the default-shell decision;
  - `text`: string helpers shared by the modules.
- `tests/` — the behaviour the library promises, on concrete values.
- `app/` — the program: the SQLite store, the platform's paths and default
  shell, process-wide metrics and their floating-point percentiles, and the
  window sizing arithmetic.
