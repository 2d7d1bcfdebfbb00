# yamux

One end of a yamux connection: many streams over one transport, verified with Verus.

- `src/` is the library. `session::Session` holds what one end knows and decides. It asks for
  input and output step by step (`step`), and reads the channels of its streams and controls
  itself (`channel` makes the calls). `model` states what it does; `laws`, `keeping`,
  `arrivals`, `delivery`, `ordering`, `transmission` and `handshake` state what follows from
  that.
  `codec` writes and reads frames as bytes.
- `app/` runs a session on an asynchronous byte stream with a timer.
- `tests/` runs sessions against each other and against a transport in memory.
