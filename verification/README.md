# braid

A lightweight, repo-local issue tracker (`brd`), with its logic verified in Verus.

- `src/` is the library. Every function there is proved against its contract: issue ids,
  partial-id resolution and the listing order (`issue`, `idgen`), the dependency graph,
  readiness and cycles (`graph`, `dep`), closing issues and the design-issue hand-over
  (`done`), claiming, skipping and field updates (`ops`), schema migrations of the
  frontmatter (`migrate`), the listing, show, status and doctor reports (`ls`, `show`,
  `status`, `doctor`), the configuration and its settings commands (`config`,
  `settings`, `mode`), the agents instructions block (`agent`), and the git protocols of
  `brd sync`, `brd start`, `brd agent branch` and publishing a change, written as step
  functions from state and outcome to the next state and action (`sync`, `pull`,
  `branch_sync`, `publish`). Laws that relate several functions are public proof
  functions (`lemma_*`).
- `app/` is the `brd` binary: the command line, files, git and the terminal. It reads
  what the library needs, calls it, and carries out the actions it returns.
- `tests/` runs the library on concrete cases.
