# xquery_lsp

XQuery language support backed by an eXist-db server, as a verified library
and a thin language server around it.

- `src/` is the library, verified with Verus: where a compiler error message
  says an error is, the function call under the cursor and its arity, the
  module imports and function declarations of a document, the requests sent
  to eXist-db (compiling, describing functions, checking and installing the
  support package) and what their answers mean, the mapping between database
  collections and workspace directories, and the store of open documents.
- `app/` is the language server itself (LSP over stdio, HTTP with `ureq`,
  files) and the Zed extension that starts it; it converts between the
  library's plain values and the protocol's types.
- `tests/` runs the library on concrete inputs.
