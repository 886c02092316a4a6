# xtask

Release automation for the `stmo-cli` repository, verified with Verus.

- `src/text.rs` — a character-level model of the string operations the
  release helpers need (splitting, lines, trimming, searching, joining),
  with executable versions proved against it.
- `src/release.rs` — version checks, the `Cargo.toml` version bump, dating
  the changelog's `## [Unreleased]` heading, reading a fork owner from a
  remote URL, and the argument lists of the `git`, `cargo` and `gh`
  invocations of a release; with the laws these obey.
- `src/git.rs` — what a finished `git` invocation means (success, trimmed
  output, or an error).
- `src/workflow.rs` — preparing and cutting a release as state machines
  that decide every step; the driver only performs commands and reports
  their outcomes.
- `src/error.rs` — the errors of the above.
- `app/main.rs` — the command line: runs the processes and file accesses the
  workflows ask for.
