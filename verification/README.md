# shanji

The verified core of 闪记, a local-first desktop notes app: notes with categories, tags,
todo state, soft deletion and revisions; search with history; settings; the rule-based
organizer that proposes due dates, todo state, tags, a category, similar titles and
archiving; JSON export and import; backup manifests; and the decisions of the desktop shell.

## Layout

- `src/` — the library, verified with Verus. The store is modelled as plain tables
  (`tables.rs`) whose view is `TablesV`; every operation on `Database` is specified by a spec
  function over that view (`save.rs`, `ops.rs`, `search.rs`, `settings.rs`, `suggest.rs`,
  `transfer.rs`, `files.rs`). The organizer lives in `organizer.rs` and `analyze.rs`.
  Calls into chrono, regex, serde_json, sha2 and uuid stand behind small trusted wrappers
  (`dates.rs`, `patterns.rs`, `json.rs`, `digest.rs`, `ids.rs`, `text.rs`).
  `laws.rs` states and proves what holds across operations.
- `tests/` — tests of the library on concrete values.
- `app/` — the desktop side: SQLite persistence and the full-text index (rusqlite), files and
  backup archives (zip), serde copies of the library's types, and the shell commands.
