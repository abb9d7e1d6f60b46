# ctx-codegraph

A code-graph library for building LLM context: it indexes the symbols and calls
of a Rust workspace, resolves calls to symbols, walks the call graph, and packs
the most relevant code into a token budget. The library is written in Verus and
its behaviour is stated in `requires`/`ensures` contracts that Verus proves.

## Layout

- `src/` — the verified library.
  - `model.rs` — identifiers, symbols, call sites, edges, the index.
  - `rust_syntax.rs`, `rust_parser.rs` — the tree-sitter syntax tree of a file
    and the symbols and calls read from it.
  - `index.rs`, `backend.rs`, `noop.rs`, `lsp.rs` — building the index and
    resolving calls (by name, or from a language server's answer).
  - `diff.rs`, `storage.rs`, `affected.rs`, `hashing.rs` — change detection,
    compatibility of a stored index, incremental updates.
  - `stored_index.rs`, `store_rows.rs` — the rows a rebuild stores, what is
    concluded from the rows read back, and the ids saved rows refer to.
  - `slice.rs` — forward and reverse slices of the call graph, breadth first.
  - `roots.rs`, `ranking.rs`, `retrieval.rs`, `hybrid.rs`, `packing.rs`,
    `sections.rs`, `context.rs` — choosing roots, ranking candidates, the
    layered walk, and packing a context into a budget.
  - `render.rs`, `markdown.rs`, `mcp.rs`, `protocol.rs`, `tools.rs` — text and
    Markdown output and the decisions of the Model Context Protocol server.
  - `strings.rs`, `text.rs`, `paths.rs`, `unicode.rs`, `sorting.rs`,
    `snippet.rs` — helpers with specifications over `Seq<char>`.
- `app/` — ordinary Rust around the library: walking and reading files, the
  SQLite store, floating-point rankers, the rust-analyzer client and the MCP
  server loop.
- `tests/` — tests of the library on concrete values.

The laws of the library (for example, that a slice never goes deeper than its
depth limit, that a slice is determined by its inputs, or that a packed context
stays within its limits) are public proof functions named `law_*`.
