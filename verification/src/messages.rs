//! The messages that clients and the server exchange, and the values they carry.
use vstd::prelude::*;

verus! {

/// The identifier of a player: the network identity of the peer it plays on.
pub type PlayerId = String;

/// A position on the 2D plane. Each coordinate is kept as the IEEE-754 bit
/// pattern of the `f32` that the game engine uses; the logic here only moves
/// positions around and never computes with them.
#[derive(Clone, Copy, Debug, PartialEq, Eq, Structural)]
pub struct PlayerPosition {
    pub x_bits: u32,
    pub y_bits: u32,
}

/// Messages the server sends on the reliable stream.
#[derive(Clone, Debug)]
pub enum ReliableServerMessage {
    /// Greets a newly connected client with the id it plays under.
    Hello { player_id: PlayerId },
    /// Players that are (now) in the session.
    PlayersJoined { player_ids: Vec<PlayerId> },
    /// Players that left the session.
    PlayersLeft { player_ids: Vec<PlayerId> },
    /// The server asks the client to quit.
    Quit,
}

/// Messages the server sends on unreliable streams.
#[derive(Clone, Debug)]
pub enum UnreliableServerMessage {
    /// Where a player currently is.
    PlayerPosition(PlayerId, PlayerPosition),
}

/// Messages a client (or the connection handler on its behalf) sends on the reliable stream.
#[derive(Clone, Debug)]
pub enum ReliableClientMessage {
    /// A player joined the session.
    PlayerJoined { player_id: PlayerId },
    /// A player quits the session.
    Quit { player_id: PlayerId },
}

/// Messages a client sends on unreliable streams.
#[derive(Clone, Copy, Debug, PartialEq, Eq, Structural)]
pub enum UnreliableClientMessage {
    /// Where the client's own player currently is.
    PlayerPosition(PlayerPosition),
}

/// The mathematical content of a [`ReliableServerMessage`].
pub enum ReliableServerMessageView {
    Hello { player_id: Seq<char> },
    PlayersJoined { player_ids: Seq<Seq<char>> },
    PlayersLeft { player_ids: Seq<Seq<char>> },
    Quit,
}

/// The mathematical content of an [`UnreliableServerMessage`].
pub enum UnreliableServerMessageView {
    PlayerPosition(Seq<char>, PlayerPosition),
}

/// The mathematical content of a [`ReliableClientMessage`].
pub enum ReliableClientMessageView {
    PlayerJoined { player_id: Seq<char> },
    Quit { player_id: Seq<char> },
}

impl View for ReliableServerMessage {
    type V = ReliableServerMessageView;

    open spec fn view(&self) -> ReliableServerMessageView {
        match self {
            ReliableServerMessage::Hello { player_id } => ReliableServerMessageView::Hello {
                player_id: player_id@,
            },
            ReliableServerMessage::PlayersJoined { player_ids } =>
                ReliableServerMessageView::PlayersJoined { player_ids: player_ids.deep_view() },
            ReliableServerMessage::PlayersLeft { player_ids } =>
                ReliableServerMessageView::PlayersLeft { player_ids: player_ids.deep_view() },
            ReliableServerMessage::Quit => ReliableServerMessageView::Quit,
        }
    }
}

impl View for UnreliableServerMessage {
    type V = UnreliableServerMessageView;

    open spec fn view(&self) -> UnreliableServerMessageView {
        match self {
            UnreliableServerMessage::PlayerPosition(id, pos) =>
                UnreliableServerMessageView::PlayerPosition(id@, *pos),
        }
    }
}

impl View for ReliableClientMessage {
    type V = ReliableClientMessageView;

    open spec fn view(&self) -> ReliableClientMessageView {
        match self {
            ReliableClientMessage::PlayerJoined { player_id } =>
                ReliableClientMessageView::PlayerJoined { player_id: player_id@ },
            ReliableClientMessage::Quit { player_id } => ReliableClientMessageView::Quit {
                player_id: player_id@,
            },
        }
    }
}

} // verus!
