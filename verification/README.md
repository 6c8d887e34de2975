# simple_chat

A chat server and command-line client that speak newline-delimited JSON over
TCP. The library in `src/` holds the protocol and every decision, verified with
Verus:

- `message`: the client and server messages; `encode` writes one as compact
  JSON and a line feed, `decode` reads one back, from a JSON object tagged by
  its `type` member or from an array whose first element is the tag.
  `encode`'s contract states that decoding its output gives back the message.
- `json`, `reader`: the JSON text that the codec writes and reads, as a grammar
  over characters, with the lemmas that tie writing and reading together.
  serde_json writes and reads the string literals and judges the values that
  the decoder steps over.
- `registry`: the connected users (a `dashmap::DashMap` from name to
  connection number); every name in it is a valid username.
- `session`: the handshake (join, name checks, unique names), who a message
  goes to, what a line from a joined user means, and leaving.
- `client`: what the client does with a typed line and with a server line.

`app/` is the program: `main.rs` runs the client, or the server with the
argument `server`; `server.rs` is the tokio server that runs the library's
decisions on sockets; `wire.rs` holds the message types with serde's derives,
for serde_json's wording of errors.
