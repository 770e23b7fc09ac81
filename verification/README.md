# flashboy

A terminal test runner for C++ programs: each program keeps a bank of test
cases (stdin and, optionally, expected stdout) in a compact file beside its
source (`solve.cpp` → `solve.cpp.fbk`, the `FBK1` magic followed by a zstd
stream of the postcard-encoded bank). Cases are compiled once per batch and
run with a 5 s wall-clock limit; output is compared after normalising line
endings and trailing whitespace.

Layout:

- `src/` — the verified library (Verus):
  - `text.rs`: line splitting as `str::lines` does it, trimming, decimal
    numbers, and the normal form of program output, with its laws
    (idempotence; trailing whitespace never matters).
  - `store.rs`: verdicts, cases and the bank (add, find, change, remove, with
    the bank's id invariant), the byte framing of bank files (magic check and
    zstd), sidecar paths and opening a bank.
  - `runner.rs`: judging a finished run, compile arguments and failure
    messages, compiler candidates.
  - `app.rs`: the front end as a state machine: keys and worker reports
    change the state and ask the host for effects (save, open, rescan,
    editor, run).
  - `ui.rs`: what the detail pane lists of a case (bodies, diffs) and pop-up
    geometry.
  - `paths.rs`: the few `std::path` operations used, on paths held as text.
- `app/` — the program around the library: terminal setup, drawing with
  ratatui, text areas, files, processes, threads and serde.
- `tests/` — tests of the library.
