# commander

A Midnight Commander-style dual-pane file picker for terminal coding agents,
with its logic verified by Verus.

- `src/` is the verified library: the pane model (listing order, cursor,
  marks, selection), the picker's and the cockpit's key handling, key-to-byte
  mapping for the docked terminal, the session-file rules, the MCP
  server's routing and texts, a reader of `git status --porcelain`, and the
  laws that relate them (`src/laws.rs`).
- `app/` is the program around it: terminal UI, pseudo-terminal, file system,
  process spawning and JSON.
- `tests/` runs the library on concrete values.
