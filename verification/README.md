# homotopy_dsl

A small source language for homotopy.io proofs, verified with Verus.

A program declares cells (generators with a source and a target), reusable
declarations (`property`/`schema` are applicative, `struct` and `macro`
generative), constructed proofs (`prove`/`construct`, with an optional body of
`attach` and `contract` steps), `unique` witnesses, folders, an `actions`
replay and a `show` statement. Compiling it gives a signature of globular
diagrams, the named symbols, an optional selected diagram and diagnostics.

## Layout

- `src/text.rs`, `src/diagnostics.rs`, `src/ast.rs`: text helpers (the one
  trusted item, `String::push`, is here), diagnostics and the syntax tree.
- `src/lexer.rs`, `src/parser.rs`: the text to tokens to syntax tree; both are
  proved equal to their spec functions (`spec_tokens`, `spec_parse`).
- `src/diagram.rs`: the diagram kernel (identities, composition, inverses,
  attachment, contraction, validation), with `src/laws.rs` for its laws.
- `src/compiler.rs`, `src/names.rs`, `src/declarations.rs`, `src/actions.rs`,
  `src/program.rs`: expressions, cells, proofs, uses of declarations,
  `unique`, the action replay, and `compile`.
- `src/presets.rs`, `src/community.rs`, `src/library.rs`: built-in and
  community presets and what the library shows.
- `src/catalog.rs`: validating community presets and ordering the catalog.
- `src/workbench.rs`, `src/source_panel.rs`: the editor panels' decisions.
- `app/main.rs`: the community library tool (reads the preset folders, writes
  or checks `generated/index.json`).
