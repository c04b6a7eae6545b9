# mcp_wsl

An MCP server for WSL, exposing system information and command execution to
MCP clients over stdio or streamable HTTP. The decisions and text handling of
the server form a library verified with Verus, including the reading of
JSON-RPC bodies and the JSON of every answer (serde_json parses and prints;
the library decides). A thin program around it does the file, process and
network I/O and hands serde_json's values to the transports.

## Layout

- `src/` — the verified library:
  - `args` — tool arguments as plain values;
  - `tools` — the tool catalog (names, descriptions, input schemas) and the
    lookup of a tool by name;
  - `exec` — what the exec tools run and the reply built from the run;
  - `passwd` — the user database: lookups by name or UID, the UID-to-name
    table, the identity a command runs under;
  - `procs` — process records, filtering and ordering, sizes and durations;
  - `files` — directory and file records, permission strings, modification
    times, hex contents;
  - `system` — environment, shells, OS release, WSL, package managers;
  - `record` — records (ordered fields) and their stable ordering;
  - `json` — JSON values, the parse of a request body, tool arguments read
    from JSON, pretty-printed JSON text;
  - `server`, `http` — the MCP server description, the reading of a POST
    body (one message or a batch) and the JSON-RPC answers with their HTTP
    status;
  - `replies` — the JSON of answers: tool input schemas, method results,
    envelopes, and the JSON text of listings and command reports;
  - `text` — character-level text handling (lines, splitting, trimming,
    numerals, joining).
- `app/` — the program: command line, rmcp stdio server, axum HTTP server,
  and the I/O of each tool.
- `tests/` — tests of the library on concrete values.
