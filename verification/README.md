# hyper-sse

Simple Server-Sent Events (SSE) library for hyper, verified with Verus.

- `src/` is the library. `Server` holds the clients of each channel. `push` and `send_heartbeats`
  send to them, `remove_stale_clients` forgets those to whom sending has been failing for more than
  five seconds, and `create_stream` adds a client if the request carries a token that allows it.
- `app/` runs it: `app/push_server.rs` shares a `Server` between threads and serves it over HTTP,
  `app/main.rs` is a page with a stream of events that is fed from the terminal.
- `tests/` runs the library against real response bodies.

The library does no I/O of its own. It is handed the path and the query of a request, and three
functions that the application chooses: how a channel is parsed, how a token is serialized and
parsed, and how it is encrypted and decrypted. The contracts say what these functions are called
with and what follows from their results.

What is not proved is in the functions marked `external_body`: reading the clocks (`clock`), the two
halves of a response body (`transport`), Base64 (`encoding`), and taking everything out of a
`HashMap` (`channels`). What each of them claims is written above it.

Contracts that speak of channels hold of every channel type that obeys vstd's model of a map's key,
such as the integer types.
