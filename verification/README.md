# Crucible

Continuous integration for chess engines: Crucible follows an engine's git
branches, builds every revision, plays SPRT matches between neighbouring
revisions, hunts regressions down to a culprit commit, runs release gates
against outside engines and exports self-play training data.

## Layout

- `src/` is the library, written in Verus. Every function in it carries a
  contract that Verus proves: the regression hunt, the scheduler's pairing
  and priority rules, branch patterns, EPD opening books, configuration
  validation, the match referee (clocks, move limits, adjudication,
  repetitions), UCI answers and commands, the dashboard's lanes, lineage and
  admin check, the stored names of enum values, and the bookkeeping of
  training-data runs. Public `law_*` proof functions state properties that
  span several functions, such as round trips and invariants of the hunt.
- `app/` is the `crucible` program around the library: the command line,
  the daemon loop, SQLite storage, git and engine processes, the web
  dashboard, the terminal monitor, and the floating-point statistics (SPRT,
  Elo, gate scores).
- `tests/` exercises the library on concrete values.

The few calls into `shakmaty`, `cozy-chess`, `uuid` and `String::push`
that the library makes go through small trusted wrappers whose contracts
say only what those crates document or their source shows.
