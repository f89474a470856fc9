# gader

A log-shipping system for self-hosted containers: an agent follows the
containers' logs and serves them over QUIC to terminal viewers.

- `src/` is the verified library (Verus):
  - `common`: log entries and the protocol's packets; the one-line rendering.
  - `app`, `screen`: the viewer's state machine (entries, service filter,
    table selection, screens) with its invariant and laws.
  - `ui`: the text the viewer shows (status bar, titles, shortened messages,
    level colours, decimal numbers).
  - `agent`: handshake judgement, per-viewer filtering and batching, and the
    container watcher's reaction to its log stream.
  - `history`: the bounded history the agent replays to new viewers.
  - `tofu`: trust-on-first-use certificate pinning decisions.
  - `parsers`: the log parser interface and a plain line parser.
- `app/` is the program around it: networking, Docker, TLS, files, terminal
  drawing. `gader agent` runs the agent, `gader` the viewer; both read the
  shared secret from `GADER_SECRET`.
- `tests/` exercises the library on concrete values.
