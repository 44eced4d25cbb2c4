# Raven

Raven is a mock server for HTTP and other protocols. Its logic is a Verus
library whose functions carry contracts that Verus proves:

- `request`: reading an HTTP request from the bytes received (start line,
  headers, query string, body length), and the request view the engine uses.
- `mock_engine`: mock definitions, the matching of a request against a mock's
  constraints, and the response text a mock answers with.
- `matcher`: route normalization and the resolution of a request to the mock
  that serves it (exact key first, then keys with `{param}` placeholders).
- `delay`: a bound on the seconds a mock's delay can add up to, which keeps
  humantime's reading of it clear of overflow.
- `handler`: placeholder matching and the replies of the HTTP handler
  (served mock, 422 mismatch report, 404).
- `resolver`: telling HTTP, WebSocket and other protocols apart.
- `logger`: log lines and mismatch reports, colored through `colored`.
- `cli`: settings and the naming of mocks loaded from a directory tree.
- `strmap`, `text`, `strings`, `colors`: an insertion-ordered string map and
  the character-sequence operations the rest is built from.

`app/` holds the program around the library: command-line parsing, reading
mock files, the Tokio listener and connection I/O, and the Lua server
(run with `--lua`).
