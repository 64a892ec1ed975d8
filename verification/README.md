# sakura_repl

An interactive client for the Sakura relational engine: a terminal REPL that
sends S-expression commands to the server over TCP or a Unix socket and shows
the replies.

The client's logic is a Verus library under `src/`, every function of it
verified against its contract:

- `text` — character-level text primitives (trimming, whitespace collapsing,
  line counting, decimal numbers, UTF-8 widths).
- `sexpr` — S-expressions as plain values; reading goes through the `sexp`
  crate behind one trusted wrapper.
- `language` — classification of user input (envelope, unknown tag, legacy,
  shortcut, malformed) and the `(schema)` shortcut.
- `connection` — reading server replies into responses and rendering them as
  text (tables through the `ascii_table` crate behind one trusted wrapper).
- `repl` — the session state: editing, history recall, submission, recording
  replies, scrolling; with the laws that tie these operations together.
- `input` — mapping key and mouse events to actions and applying them.
- `ui` — screen geometry and text: help line, input box height, cursor cell,
  results title, error popup placement.

`app/main.rs` is the unverified front end: command line, starting the server,
socket I/O, clipboard, and drawing with `ratatui`. It checks each library
function's precondition before the call.

`tests/` holds the tests, run against the compiled library.
