# vectorwar_core

The verified core of a small networked multiplayer game (a remake of the
GGPO example VectorWar, played over iroh/QUIC with a Godot front end).

- `src/wire.rs` — message framing: a delimiter byte, a big-endian `u32`
  length, the payload; `FrameReader` reads a byte stream frame by frame.
  Proved: a stream of frames reads back as exactly the framed payloads, and
  stray bytes before a frame are skipped.
- `src/messages.rs` — the messages between clients and server.
- `src/ecs.rs` — the player rows, kept in a `hecs` world behind small
  trusted wrappers.
- `src/game_state.rs` — the game world of one peer: spawning, removing and
  moving players, the index from player id to entity, and the session.
- `src/poll.rs` — what one poll of a client or server session does with the
  messages received since the last poll, and what it decides to send.
- `src/channels.rs` — the polls over the async channels of a session: they
  take the waiting messages, decide as `poll.rs` says, and hand each decided
  message to the channel of its recipient (the server poll returns the list
  of what it handed over, the client poll its position report). The
  contracts fix what is returned; that the same messages went into the
  channels follows from the code but is not proved, since the channels are
  shared handles whose contents Verus does not see. Each poll also takes
  only the messages that were waiting when it began; later ones wait for
  the next poll.
- `src/endpoint_id.rs` — the server id a player types in, parsed by
  `iroh::PublicKey::from_str` into the server's key bytes.

`app/` holds the parts that do I/O: the iroh endpoints and connection
handlers, the async tasks that read and write frames, the `rkyv`
serialisation of the messages, the session object that drains the channels
and carries out the sends, and the Godot classes.
