# xclaw

An agent that answers users on chat channels (WebSocket, Discord) with a
language model, runs tools on their behalf (asking for approval where a tool
needs it), and keeps its sessions in SQLite.

- `src/` is the library, verified with Verus: sessions, threads and turns
  and the routing of conversations to them; the binding's agentic loop as a
  machine that the host drives (`binding::driver`), with its laws
  (`binding::laws`, and the bound on model calls per turn in
  `binding::loop_bound`); tool approvals; the rows of the database and reading
  them back (`storage`); drafts streamed to channels; skills; configuration;
  attachments' names and kinds. Calls into `uuid`, `chrono`, `serde_json`,
  `base64` and `std::path` go through the trusted wrappers of `src/ext.rs`.
- `app/` is the program around it: configuration file, database, channels,
  the model's streaming API, tools that touch the file system, and `main`.
- `tests/` runs the library on concrete values.
