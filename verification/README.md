# Leshy

Leshy builds a code graph of a repository: its directories, files and Rust symbols, with
deterministic identifiers and the structural edges between them.

- `src/` is the library, written in Verus. Its functions state their behaviour in
  `requires`/`ensures` clauses over mathematical models (sequences, maps, views), and the
  library is proved against them. It covers path normalization, identifiers, the graph
  and its insertion rules, the decisions of a repository scan, git ignore rules, git
  origin identities, the Rust source layout of crates, `use` declarations, symbol
  extraction from syntax items across the files of a crate, plugin dispatch, and the
  indexing pipeline.
- Parsing goes through tree-sitter behind small trusted wrappers in `src/syntax.rs`.
  Their results are not specified, so what is proved about extraction starts from the
  syntax items read out of the tree: the contracts say how symbols follow from those
  items, and that every text an item holds is a piece of the source, but not which
  items a given source text yields.
- Language plugins are a trait for users to implement; what a plugin answers is its own,
  and the registry's contracts say how those answers are dispatched.
- `app/` is the `leshy` command line: it reads the file system, runs the library's scan
  and ignore decisions on what it finds, and prints a summary.
- `tests/` runs the library on concrete inputs, with repositories held in memory.
