# todo_sqlite

A per-project TODO list kept in SQLite, driven from the command line.
The crate is a Verus library: the rules of the tool are stated as
`requires`/`ensures` contracts and proved.

## Layout

- `src/` — the verified library.
  - `merge.rs`, `merge_laws.rs`, `merge_cmd.rs`: the three-way merge of two
    databases (field by field against the common ancestor, status by rank,
    tag/dependency/related unions, cycle-free dependencies, mutual related
    links) and what the merge commands report.
  - `lifecycle.rs`: `start`, `stop`, `revert`, `done` as transitions of the
    task states, with their laws (one task in progress, `done` idempotent).
  - `next_task.rs`: which task `next` picks (never a gate or a blocked task).
  - `deps.rs`, `graph.rs`, `strgraph.rs`: reachability over the dependency
    graph, cycle refusal on edit, cycle members for `doctor`.
  - `edit.rs`, `link_rows.rs`: checks and field updates of `add`/`edit`, and
    the rows they write to the link tables.
  - `listing.rs`, `completed.rs`, `format.rs`: queries and text output of
    `list`, `show`, `export-todo`, `export-completed`.
  - `cfd.rs`, `aging.rs`, `dates.rs`: the backlog trend reports and the date
    handling they need (through `chrono`).
  - `doctor.rs`, `schema.rs`, `refs.rs`, `resolve.rs`: health report,
    schema migrations (the plan, and the move to uuid identity), task
    references (through `uuid`), database location.
  - `text.rs`, `strs.rs`, `status.rs`, `task.rs`, `error.rs`, `cli.rs`:
    shared pieces.
- `tests/` — tests of the library.
- `app/` — the command-line program: argument parsing (`clap`), the SQLite
  store (`rusqlite`), JSON output (`serde_json`), and the commands, which
  read from the store, call the library, and write what it decided.
