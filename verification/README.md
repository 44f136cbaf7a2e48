# llama_agent

An agent framework for local language models, with its decision logic
verified by Verus.

- `src/` is the verified library: stopping criteria (end-of-sequence, token
  limit, repetition), validation of messages, tool calls and generation
  requests, chat-template rendering and tool-call extraction, the session
  store, reading of MCP prompt replies and the bookkeeping of server
  discovery, the checks of the command-line settings, and the sizing
  decisions of the model manager. Calls into `serde_json`, `regex`, `ulid`
  and a few std functions go through small trusted wrappers whose contracts
  are documented where they are declared.
- `app/` is the command-line program around it: argument parsing, process
  and file I/O, the asynchronous agent server, MCP server processes, model
  loading and Parquet output.
- `tests/` exercises the library from outside.
