# codex_history_repair

Repairs the visibility of local Codex conversation history after the
active model provider was switched (for example with cc-switch), and turns
exported OpenAI account JSON into cc-switch provider rows.

The library under `src/` holds the decisions, each with a proved contract:

- `repair`: plans a repair. It fixes the target bucket and the source
  buckets, rewrites the history files, migrates the state database and
  rebuilds the session index. It returns a list of actions and the
  outcome to report.
- `session`, `index`: reading and rewriting history lines; deriving and
  merging session index entries.
- `provider`, `import`, `cc_switch`: provider ids, the account import
  draft and the cc-switch row it becomes.
- `json`, `text`, `pick`, `paths`: the JSON model (read and written
  through serde_json), string helpers, value lookup, and the directory
  choice and the macOS application bundle lookup.
- `restart`, `report`: which processes are Codex, what a restart
  reports, and the summary lines of a repair.
- `laws`: properties of the library as a whole. A dry run writes nothing,
  and every write comes after its backup. A preview reports the same
  target, sources and counts of files, lines and rows as the repair. The
  index merge keeps user-given names and is idempotent. Sanitized ids are
  stable, and the sanitizer gives nothing exactly when there is no ASCII
  letter or digit. Re-importing a draft updates the row that the first
  import wrote, also where that row was found by its account.
- `rerun`: what a real repair leaves behind, and the proof that a second
  repair on it, where every session is dated, plans nothing. The repair
  also states that a dry run and a real run rebuild as many index entries.
  Both rest on serde_json reading back what it wrote, as `json` states.

`app/` is the command line around the library: it reads the disk and the
databases, carries out the planned actions, and prints the reports.
`tests/` runs the library on concrete cases.
