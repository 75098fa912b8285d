# Sugo

Sugo manages AI "harnesses": boards of prompt-bearing cells joined by
labelled edges, which an agent walks one cell per turn.

- `src/` is the verified library: the board model and its validation, the
  edits that produce new immutable board versions under an optimistic lock,
  the rules that start, advance and stop a run, the liveness and trash
  timing rules, the agent-facing tool boundary, and in-memory repositories
  of harnesses, runs and cell display positions that keep the persistence
  contracts those stores owe, with use cases that run against any store
  keeping the harness contract.
- `app/` is the program around it: the MCP server over stdio, the Nipper
  callback server, SQLite persistence and the canvas commands.
- `tests/` exercises the library from outside.
