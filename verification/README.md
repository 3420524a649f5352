# ast-doc-core, verified

A library that turns a codebase into an `llms.txt` document under a token
budget, written in Verus: each stage states its behaviour in `requires` /
`ensures` clauses and Verus proves the code against them.

## Layout

- `src/` — the verified library.
  - `parser/` — syntax trees as pre-order node lists (`syntax.rs`), the removal
    passes of each language (`lang/`), and the byte-range splicing that builds the
    Full / NoTests / Summary variants (`strategy.rs`).
  - `scheduler/` — the degradation loop that fits the variants into the budget.
  - `renderer/` — the markdown document and its anti-bloat rules.
  - `ingestion/` — file records, filtering and ordering of discovered paths, the
    directory tree, git context.
  - `paths.rs`, `text.rs` — `Path`-like reading of paths and character utilities.
  - `tokens.rs`, `globs.rs` and the `*_syntax_tree` functions — the calls into
    `tiktoken-rs`, `globset`, `tree-sitter` and `termtree`, with the contracts the
    proofs rely on.
- `tests/` — tests of the library.
- `app/` — the `ast-doc` command: argument parsing, walking the file system,
  reading files and the repository, the terminal report.
