# objectscript_lsp

A language server for InterSystems ObjectScript class files (`.cls`; routine and include files
are not stored), built on the tree-sitter ObjectScript grammar. It indexes the classes
of a workspace, resolves inheritance and method overrides, records variables and call sites,
and answers go-to-definition and go-to-implementation requests.

The semantic core is a Verus library whose functions carry `requires`/`ensures` contracts
proved by Verus:

- `src/maps.rs`: an association list with a `Map` view, used for every keyed table.
- `src/syntax.rs`: the syntax tree as a flat node table, the parser entry point (tree-sitter
  behind trusted wrappers, whose results are named as functions of the text and of a node's
  path of named-child indices), and tree queries such as the class definition and class name.
- `src/text.rs`: byte/point/editor-position conversions and incremental text edits.
- `src/keywords.rs`: string helpers and the grammar's keyword node types (read through
  `serde_json` behind trusted wrappers).
- `src/class.rs`, `src/method.rs`, `src/variable.rs`, `src/expressions.rs`, `src/calls.rs`:
  the first build of classes and methods, variable typing and call-site extraction.
- `src/override_index.rs`, `src/global_semantic.rs`, `src/local_semantic.rs`: the semantic
  model, keyword inheritance and the override index.
- `src/scope_tree.rs`, `src/scope_structures.rs`: scopes and symbols of a document.
- `src/workspace.rs`: the workspace state: opening, changing and re-indexing documents and
  the symbol queries behind the editor requests.
- `src/lsp.rs`: the decisions of the definition and implementation requests.

`app/` holds the server itself (tower-lsp, tokio, the workspace walk, settings parsing): it
performs the I/O and hands plain values to the library. `tests/` exercises the library.
