# xtask

Release tooling for a Rust workspace, written in Verus: changeset validation,
workspace dependency version syncing, release naming, the release
procedures' decisions (advancing `rc`, heavy-test deployment and promotion,
the stable release, the release dashboard texts), and the decisions of the
source benchmark (command line values, sampled regions, parity sample).

## Layout

- `src/` is the verified library.
  - `text.rs`: the string operations the rest is built on (`str::lines`,
    `trim`, `find`, `split_once`, `replace`, sorting), each specified over
    `Seq<char>`.
  - `changeset.rs`: frontmatter splitting and changeset validation, the
    changeset directory listing.
  - `manifest.rs`: Cargo manifest lookups and the workspace dependency sync.
  - `version_table.rs`, `release.rs`: the version table, release names and
    schedule, the pull request and release texts.
  - `ci.rs`: the command lines of git, knope, cargo and gh, and the GitHub
    deployment requests.
  - `flow.rs`, `changeset_check.rs`, `sync_workspace_deps.rs`,
    `advance_rc.rs`, `validate_rc.rs`, `stable.rs`, `dashboard.rs`,
    `cli.rs`: the procedures, each a state machine whose `step` takes the
    reply to its last request and gives the next step (log lines and one
    request); `cli::run` drives the session of one command.
  - `bench.rs`: the source benchmark's decisions: command line values,
    sampled regions, the cells each source's sweeps run, the parity
    sample, its tally and whether parity holds.
- `app/` is the program around the library: argument parsing, finding the
  workspace root, reading `knope.toml`, running commands and reading and
  writing files on the procedures' behalf, and printing.
  It runs the release procedures only. The source benchmark's program is
  not here: its driver calls the indexer's own block-source clients, which
  are workspace crates of that project and not published, and it times
  calls in floating point. Only its decisions, in `bench.rs`, stand in this
  crate, and only `tests/` runs them.
- `tests/` exercises the library from outside.
