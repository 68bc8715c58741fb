# tord

A SOCKS5 proxy whose egress is Tor circuits. This crate is its logic,
specified and proved with Verus; `app/` is the daemon around it.

- `socks::server` — the SOCKS5 handshake (RFC 1928 `CONNECT`, RFC 1929
  username/password) as a state machine: `handshake` says, for every
  byte sequence a client may send, what the server has written and what
  it does next; `Handshake` is proved to follow it step by step. Also
  the fail-closed CONNECT reply and the bookkeeping around a connection.
- `socks::metered` — byte counting for the proxied splice.
- `streams` — the registry of live connections, viewed as a map by id.
- `metrics` — process counters.
- `config` — the `tor:` settings, their defaults, the start decision.
- `format` — rendering of control-socket replies for a terminal.
- `json` — JSON values as plain data, parsed and printed by `serde_json`.
- `addr`, `text` — socket-address and text building blocks.
- `runtime::net` — the source address an outbound connection binds.
