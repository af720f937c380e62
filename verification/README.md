# specdrs

Evidence-linked knowledge maps for Rust crates. Spans, items, claims and their
evidence are declared in `#[specdrs(...)]` attributes and `specdrs_span!` /
`specdrs_module!` invocations; the library parses them, assembles a knowledge map,
projects claims for a span or item, prepares analysis jobs and checks model verdicts.

The library in `src/` is written in Verus; every function in it is verified but two
small wrappers around `String::push` and `syn`, whose contracts are trusted:

- `lexer`, `syntax`, `attribute` — the attribute grammar, as functions on text.
- `docs` — the rustdoc section an annotated item receives.
- `source`, `scan`, `identity`, `metadata` — walking a parsed source file (items,
  inline modules, out-of-line module tasks, memberships handed down) and turning it
  into an index of items and span declarations; `identity` parses paths with `syn`.
- `assembly`, `sets` — assembling the knowledge map and its diagnostics, with the
  map's laws (acyclic parents, resolved entries, closed containers, twelve axes).
- `model`, `projection`, `report`, `analysis`, `cli` — the map's types, claim
  projections, report lines, analysis jobs and verdicts, argument handling and the
  authoring guide.

`app/` is the `cargo specdrs` command around it: Cargo metadata, reading source files
and parsing them with `syn` into the library's `SourceFile` one item for one item,
JSON and TOML, and the model calls.
