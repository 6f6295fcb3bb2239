# phpmd_lsp

A language server that shows the findings of PHPMD, the PHP mess detector, in an editor.

- `src/` holds what the server decides and computes, verified with Verus: what it remembers of
  documents and results, how PHPMD is called, and how its report becomes diagnostics. The
  model of the server's memory and the laws about it stand in `src/state.rs`.
- `app/` is the program: the protocol, the processes, the files and the log.
- `tests/` runs the library.
