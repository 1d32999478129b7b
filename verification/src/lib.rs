//! Verified core of a small networked top-down multiplayer game: the server id
//! a player types in, the wire framing of messages, the message vocabulary, the player world kept in an
//! entity-component store, and the decisions that each poll of a client or a
//! server session takes.

pub mod endpoint_id;
pub mod wire;
pub mod messages;
pub mod ecs;
pub mod game_state;
pub mod poll;
pub mod channels;
