# ogent

`ogent` is a command-line agent that works on a task inside a workspace: it
talks to a model provider, runs the tools the model calls, and keeps a task
tracker and an optional workflow while it works.

The library under `src/` holds the agent's logic, written in Verus and
proved against its contracts:

- `text`: the string and sequence model the other modules state their
  contracts over.
- `hashline`: line anchors (line number and hash) and anchored edits.
- `task_tracker`, `workflow`: the task tracker and the workflow state machine,
  with the laws their updates keep.
- `tools`: the tools' decisions (file access, text search and globs, edit
  previews, git status and diffs, shell, skills, web search requests, and
  the argument checks of the functions agent code calls).
- `symbol_tree`: outlines of source files, over a model of syntax nodes.
- `sse`, `client`, `providers`, `websocket`, `session`, `config`, `profiles`,
  `prompts`, `cli`, `tui`, `agent`: the client protocol, sessions,
  configuration and the decisions of the command line and the interface.

Calls into outside crates (`unicode-width`, `serde_json`, `serde_yaml`,
`base64`, `regex`, `globset`, `similar`, `nucleo-matcher`) and a few std
functions stand behind small trusted wrappers whose contracts are stated in
their doc comments.

`app/` is the program around the library: argument parsing, files, the HTTP
transport and the main loop. `tests/` runs the library on concrete values.
