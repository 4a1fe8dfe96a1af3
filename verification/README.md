# commit_miner

The core of commit-miner, a tool that classifies Git commits (bug fixes, security
fixes with their CWEs, kinds of change) from their diffs and messages, as a library
verified with Verus.

## Layout

- `src/`: the verified library. Every function states its behaviour in
  `requires`/`ensures` over mathematical models (`Seq`, `Map`, `int`), and Verus
  proves it.
  - `walk.rs`, `refresh.rs`, `history.rs`, `command.rs`: which Git commands a scan
    runs and what it makes of their output: the commits a scan reads, how a saved
    clone is brought up to date, the hardened command lines and environment.
  - `git.rs`: unified diffs, request-sized evidence sections, transfer progress.
  - `remote.rs`, `store.rs`: GitHub addresses, checks on managed clones, where scans
    are saved.
  - `model.rs`, `filter.rs`, `score.rs`, `order.rs`: results, their classification
    from Jev's scores, filters and stable orderings.
  - `export.rs`, `terminal.rs`, `screens.rs`: CSV and HTML reports and the terminal
    screens.
  - `cost.rs`, `policy.rs`, `json.rs`, `text.rs`: cost records, path scope, JSON
    framing and text helpers.
- `tests/`: tests that run the compiled library with the real outside crates.
- `app/`: the unverified rest: running Git processes, the file system, the
  terminal, and the few computations on doubles.

Laws that span functions are public proof functions named `law_...`; for example
`walk::law_local_walks_never_fetch` proves that a scan of a local directory never
runs a fetch, and `refresh::law_clones_are_fetched_only_from_their_origin` that a
saved clone is fetched only after its origin was checked.
