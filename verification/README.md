# arcanum

An event-sourced runtime for Lua apps. Every message to a process is a
proposal on that process's schedule; running it produces receipts (chunks)
that are appended to the event's and the process's histories, and calls
between processes resolve through promises.

- `src/` is the verified core, checked with Verus: identifiers and their text
  forms (`types`), the scheduler and its saved copy (`scheduler`, `persist`),
  the chunk log (`log`), key/value state (`in_memory`, `state`), the package
  store and package versions (`store`, `package`, `version`), configuration (`config`), the management
  protocol and shell parsing (`mgmt`, `shell`), the decisions of the actors
  and front ends (`actor`, `dispatch`), and the properties that span several
  operations (`laws`).
- `app/` is the program around it: the tokio actors, SQLite, the Lua
  executor, the HTTP client and server, the management server and the shell.
- `tests/` exercises the library on concrete values.
