# colophon

A self-describing plaintext workspace: documents whose structure lives in their
own embedded metadata (frontmatter). This crate is the library, written in
Verus: its behaviour is stated in `requires`/`ensures` contracts and proved.

## Layout

- `src/` — the verified library.
  - `meta` — metadata values, insertion-ordered mappings (no key twice), and
    reading metadata text into them through `fig`.
  - `vocab`, `config` — the config vocabulary; reading a config surface
    (`apply`), writing one (`to_mapping`), and diagnosing keys `apply` would
    ignore. Proved: a serialized config reads back as itself and diagnoses
    clean; diagnosis flags exactly the values `apply` cannot read.
  - `relation` — the relation vocabulary and edge extraction.
  - `identity`, `index`, `records` — stable IDs, the id↔path registry, and its
    persistent form with tombstones. Proved: a retired ID is known but never
    resolves, IDs are never forgotten over any run of registry operations, and
    the records a write puts under `registry` read back as the same registry.
  - `document`, `edit`, `embed` — embedded metadata blocks, found, parsed and
    edited through the `fig` crate.
  - `validate`, `workspace` — the validation walk as a state machine, link
    resolution and findings; the workspace handle and its builder.
  - `textdist`, `strings`, `strmap` — edit distance and string helpers.
- `tests/` — tests of the library.
- `app/` — what stays outside the proofs: driving a validation walk over
  documents the caller reads (`check`, `census`), and inferring typed scalars
  from command-line text.
