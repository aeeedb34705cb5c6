# cellrune

The verified core of a spreadsheet calculation engine, written in Verus.

`src/` holds the library. Every function is checked against its contract except a few small
wrappers around std and `sha2` calls, whose contracts are trusted and say in their doc comments
what they claim:

- `lexer`, `limits`, `value`: formula tokens with byte spans, calculation limits, error kinds.
- `syntax`: the shape of parsed formula expressions and the node-count and nesting limits a
  parsed formula must respect.
- `cell`, `store`: workbook coordinates, their packed ordering keys, and the ordered cell store,
  whose edits report the work they did.
- `calculation`, `snapshot`: calculated results, materialization views, snapshots and their
  incremental patches.
- `graph`: lowest-first dependency scheduling, with the unscheduled cells split into cycle
  members and cells blocked behind a cycle.
- `delta`, `history`, `details`, `transaction_detail`, `report`, `cursor`: result deltas, the
  bounded delta history, transaction reports, their detail sections and authenticated page cursors.
- `runtime`, `reference`, `operators`, `lambda`: references, the reference operators and
  structured-reference resolution against a table, array broadcasting and local-name scoping.
- `xmatch`: the searches of `XMATCH`, by halving a sorted vector or entry by entry, over
  comparisons the caller supplies.
- `calculation_session`: guarded edit batches, captured recalculation jobs and their runs, and
  guarded installation of results.
- `transaction_run`: the totals a workbook transaction run checks against its limits, and the
  issue-change counts of its preview.
- `session`: session errors, limits, cancellation and the recalculation schedule decision.
- `identity`, `workbook`: length-framed SHA-256 hashing, a plain-value workbook model and its
  semantic fingerprint folded through per-chunk cell digests.
- `text`, `text_functions`, `text_split`, `trigonometry`, `counters`: text helpers, text-function
  kernels (among them the searches of `FIND`/`SEARCH` and the replacement of `SUBSTITUTE`), delimiter splitting and the `TEXTSPLIT` array layout, the reciprocal-trigonometry input limit and work counters.

## Design notes

- The scheduler keeps its ready cells and dependent lists in vectors sorted by the packed cell
  key, under a key-ascending invariant, rather than in `BTreeMap`/`BTreeSet`. The scheduler needs
  the smallest ready cell at each step (`BTreeSet::pop_first`) and grouped appends
  (`BTreeMap::entry`), and vstd gives neither a specification; over sorted vectors both are plain
  verified code.
- The result store is one vector sorted by the packed cell key. Edits are done in place and share
  no nodes with earlier stores, so the work an edit reports counts leaves rebuilt and entries
  reindexed but never copied nodes.
- `calculation_session` holds what the session's decisions read; the workbook draft and the
  formula evaluator stay with the caller, which hands their outcomes to the session (an applied
  batch's `EditOutcome`, an evaluation's `Evaluation`).

`app/` holds the process-wide work-counter bank and the floating-point normal-distribution
kernels. `tests/` exercises the library.
