# canon

A deterministic store of documentation atoms — single-fact records kept once and
referenced everywhere else — with its rules stated as contracts and proved.

## Layout

- `src/` — the verified library.
  - `model/` — statuses, atoms and their freshness, slugs, timestamps (with the
    proleptic Gregorian calendar behind them), decimal formatting.
  - `ops/` — adding drafts, id assignment, editing, activation, listing by status,
    composing documents from active atoms.
  - `compute/` — keyword recall and the decisions behind freshness scoring.
  - `store/` — file layout, the YAML front matter text format of atoms, documents
    and configuration, and the store handle.
  - `text.rs` — character-level text operations the rest is built on.
- `tests/` — tests of the library on concrete values.
- `app/` — what stands outside the proofs: disk access, YAML parsing through serde,
  floating-point scores and their combination, displayable error types.

Scores are floating-point numbers, so the library is generic over the score type
`S`; `app/` instantiates it with its `Score`.
