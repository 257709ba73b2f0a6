# tokio-stomp

STOMP 1.2 frames and messages, with proofs.

- `src/` is the library. `grammar` says what a frame is, how it is written and which frame an
  input starts with; `frame`, `escape`, `scan` and `heartbeat` write and read frames; `message`,
  `to_server`, `from_server` and `fields` turn frames into messages and back; `client` and `server`
  hold the codecs and the decisions of the handshake. `laws` states what holds of all of these
  together; `roundtrip`, `streaming`, `envelope`, `delivery` and `reread` lead up to it. `buffer`
  and `text` are the only modules with functions that are trusted rather than proved: calls into
  the `bytes` crate and into `std`.
- `app/` puts the codecs on TCP transports.
- `tests/` runs the library, among other things against the same grammar written with combinators.
