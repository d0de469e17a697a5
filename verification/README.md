# claude_sse

Translates the event stream of a Gemini model into a Messages event stream,
chunk by chunk.

- `src/` is the library. Its functions carry contracts over mathematical models:
  a JSON value, the state of a message, the frames that are sent. Verus proves
  them.
- `src/protocol.rs`, `src/laws.rs`, `src/client.rs` and `src/plain.rs` state what
  holds of every stream: the order of its frames, what its end and its failure
  look like, that it does not matter where the bytes are cut, and that a client
  reads back what was sent.
- `app/` drives the library over an asynchronous upstream, with a heartbeat, and
  writes its log.
- `tests/` run the library with `serde_json` and `bytes`.

What `serde_json`, `bytes`, `chrono` and `std` do is stated, not proved, in the
functions marked `external_body`; each names the function that it calls.
