# codeatlas

Turns a Rust codebase into a graph of repositories, files and symbols (imports,
functions, structs) that can be searched by name, instead of searching text.

The logic is written in Verus and proved against its contracts:

- `src/text.rs`, `src/paths.rs`: character sequences, `::`-separated Rust paths and
  `/`-separated file paths, taken apart into components and ordered the way
  `std::path::Path` does it on Unix.
- `src/naming.rs`: module paths of files, qualified names, import resolution.
- `src/ids.rs`: the identifier counter.
- `src/syntax.rs`: the syntax tree that tree-sitter produces, flattened into a list of
  nodes, and the queries the extraction asks of it.
- `src/extraction.rs`: imports, functions and structs read from a syntax tree.
- `src/repo.rs`: the repository graph, its edges, and symbol lookup.
- `src/find.rs`: symbol search across stored repositories and the order of its report.
- `src/config.rs`, `src/ignore_filter.rs`: the application configuration and the
  `.gitignore`-based scan filter. The filter is built in the library from the lines of the
  root `.gitignore`: the rules it holds are stated from those lines (comments, blank lines
  and trailing white space as the `ignore` crate reads them), and it exists exactly when
  there is a rule. Which paths the rules ignore is the `ignore` crate's answer, named over
  the root and rules but not spelt out.

Each module states its laws as public proof functions next to the code they speak of
(idempotent anchoring of module paths, imports resolving under the crate root, the search
report being sorted and holding exactly the in-scope matches, extracted symbols being
located in their files once the edges are built, and so on).

`app/` holds the command line around the library: argument parsing, walking directories,
reading and writing files, and JSON encoding. `tests/` exercises the library on concrete
values.
