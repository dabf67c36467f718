# Cronch

A small desktop task scheduler: rules run commands on an interval, a cron
expression or once at a given time, through a shell of the user's choice,
with catch-up after downtime, a per-rule overlap policy and a run history.

The decisions are a library verified with Verus; the program around it does
the I/O.

## Layout

- `src/` — the verified library (`cronch`):
  - `model.rs` — rules, schedules (next fire time, validation, description),
    shells, run records.
  - `scheduler.rs` — the scheduling engine as a state machine: arming with and
    without catch-up, firing under the overlap policy, job start and
    completion, one pass of the loop (`tick`), sleep length; with the laws of
    catch-up coalescing, one-shot expiry, and the overlap policies.
  - `executor.rs` — what a run executes: program and arguments, working
    directory, environment, captured-output limit.
  - `envres.rs` — the login environment jobs inherit.
  - `shell.rs` — the shell candidates of each platform and the catalog of
    those found.
  - `storage.rs` — the columns of a stored rule and reading them back, with
    the round-trip law; history retention cut-off.
  - `controller.rs` — the rule editor's fields (showing a rule, saving it,
    with the edit round-trip law), environment text, list rows.
  - `text.rs` — trimming, splitting, lines, integer parsing and printing.
- `app/` — the program: SQLite store, process spawning, shell and
  environment probing, the scheduling loop on tokio, autostart.
- `tests/` — tests of the library.
