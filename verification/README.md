# rs_p2_gateway

A gateway between a broker and Nostr. The broker asks for a key for each working
directory, registers keys, and sends private messages (NIP-17) with them; the
gateway tells it of the private messages that come in for registered keys.

- `src/` is the verified library: the key store and its file, the configuration,
  the events that were seen, the clients and their pool, and what to do about
  each message of the broker. It does no I/O; it says what to do, and takes the
  outcome.
- `app/` is the program: command line, files, relays, HTTP and WebSocket.
- `tests/` runs the library with the real outside crates.

`src/key_laws.rs` and `src/message_laws.rs` hold what is proved of several calls
together. What is taken on trust of outside crates stands in functions marked
`external_body`, each with a comment that says what it claims.
