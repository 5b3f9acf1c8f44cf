# msg_transmitter

Framing and routing for a single-server, many-client message transport,
verified with Verus.

A frame is a four-byte big-endian size, one state byte and the data; the size
counts the state byte and the data. State 0 registers the sender's name,
state 1 carries a serialized user message.

- `src/header.rs`: the four-byte size header and its two round-trip laws.
- `src/buffer.rs`: `bytes::BytesMut`, the buffer frames are read from and
  written to, and the methods of it that the codec calls.
- `src/codec.rs`: `MessageCodec` (encode and decode of frames), `parse_frame`,
  and the laws on frames.
- `src/routing.rs`: the server's registry of names and the routing of
  outgoing messages, and the sorting of what arrives.
- `app/lib.rs`: the tokio TCP server and client, bincode serialization of user
  messages, and tokio's codec traits on top of `MessageCodec`.
