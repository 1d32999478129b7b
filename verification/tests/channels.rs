use std::sync::Arc;

use vectorwar_core::channels::{MessageChannels, Outgoing};
use vectorwar_core::game_state::GameState;
use vectorwar_core::messages::{
    PlayerPosition, ReliableClientMessage, ReliableServerMessage, UnreliableClientMessage,
    UnreliableServerMessage,
};

struct PeerEnds {
    cancel: tokio::sync::watch::Receiver<bool>,
    to_server: async_channel::Sender<ReliableClientMessage>,
    from_server: async_channel::Receiver<ReliableServerMessage>,
    positions_to_server: async_channel::Sender<UnreliableClientMessage>,
    positions_from_server: async_channel::Receiver<UnreliableServerMessage>,
}

fn connect(id: &str) -> ((String, Arc<MessageChannels>), PeerEnds) {
    let (cancel_sender, cancel) = tokio::sync::watch::channel(false);
    let (to_server, reliable_receiver) = async_channel::unbounded();
    let (reliable_sender, from_server) = async_channel::unbounded();
    let (positions_to_server, unreliable_receiver) = async_channel::unbounded();
    let (unreliable_sender, positions_from_server) = async_channel::unbounded();
    (
        (
            id.to_string(),
            Arc::new(MessageChannels {
                cancel_sender,
                reliable_receiver,
                reliable_sender,
                unreliable_receiver,
                unreliable_sender,
            }),
        ),
        PeerEnds { cancel, to_server, from_server, positions_to_server, positions_from_server },
    )
}

fn pos(x: f32, y: f32) -> PlayerPosition {
    PlayerPosition { x_bits: x.to_bits(), y_bits: y.to_bits() }
}

fn drain<T>(r: &async_channel::Receiver<T>) -> Vec<T> {
    let mut out = Vec::new();
    while let Ok(m) = r.try_recv() {
        out.push(m);
    }
    out
}

#[test]
fn server_channels_poll_greets_and_broadcasts() {
    let mut g = GameState::default();
    g.enter_server_session("host".to_string());
    let (a, a_ends) = connect("a");
    let (b, b_ends) = connect("b");
    a_ends.to_server.try_send(ReliableClientMessage::PlayerJoined { player_id: "a".to_string() }).unwrap();
    b_ends.positions_to_server.try_send(UnreliableClientMessage::PlayerPosition(pos(1.0, 2.0))).unwrap();
    let round = g.poll_server_channels(&vec![a, b]);
    let result = round.poll.result;
    assert_eq!(result.new_players, vec!["a".to_string()]);
    assert!(result.leaving_players.is_empty());

    let to_a = drain(&a_ends.from_server);
    assert_eq!(to_a.len(), 2);
    match &to_a[0] {
        ReliableServerMessage::PlayersJoined { player_ids } => {
            assert_eq!(player_ids, &vec!["a".to_string(), "b".to_string(), "host".to_string()])
        }
        other => panic!("unexpected {:?}", other),
    }
    match &to_a[1] {
        ReliableServerMessage::PlayersJoined { player_ids } => assert_eq!(player_ids, &vec!["a".to_string()]),
        other => panic!("unexpected {:?}", other),
    }
    let to_b = drain(&b_ends.from_server);
    assert_eq!(to_b.len(), 1);
    assert_eq!(drain(&a_ends.positions_from_server).len(), 2);
    assert_eq!(drain(&b_ends.positions_from_server).len(), 2);
    assert!(!*a_ends.cancel.borrow());
}

#[test]
fn server_channels_poll_stops_leaving_players() {
    let mut g = GameState::default();
    g.enter_server_session("host".to_string());
    let (a, a_ends) = connect("a");
    let (b, b_ends) = connect("b");
    b_ends.to_server.try_send(ReliableClientMessage::Quit { player_id: "b".to_string() }).unwrap();
    let round = g.poll_server_channels(&vec![a, b]);
    let result = round.poll.result;
    assert_eq!(result.leaving_players, vec!["b".to_string()]);
    assert!(*b_ends.cancel.borrow());
    assert!(!*a_ends.cancel.borrow());
    let to_a = drain(&a_ends.from_server);
    match to_a.as_slice() {
        [ReliableServerMessage::PlayersLeft { player_ids }] => assert_eq!(player_ids, &vec!["b".to_string()]),
        other => panic!("unexpected {:?}", other),
    }
    assert!(drain(&b_ends.from_server).is_empty());
}

#[test]
fn server_channels_poll_notices_closed_channels() {
    let mut g = GameState::default();
    g.enter_server_session("host".to_string());
    let (a, a_ends) = connect("a");
    drop(a_ends.to_server);
    let result = g.poll_server_channels(&vec![a]).poll.result;
    assert_eq!(result.leaving_players, vec!["a".to_string()]);
}

#[test]
fn client_channels_poll_spawns_moves_and_reports() {
    let mut g = GameState::default();
    g.enter_client_session("me".to_string());
    g.submit_local_input(pos(7.0, 8.0));
    let (rel_tx, rel_rx) = async_channel::unbounded();
    let (unrel_tx, unrel_rx) = async_channel::unbounded();
    let (out_tx, out_rx) = async_channel::unbounded();
    rel_tx.try_send(ReliableServerMessage::PlayersJoined { player_ids: vec!["x".to_string()] }).unwrap();
    rel_tx.try_send(ReliableServerMessage::PlayersLeft { player_ids: vec!["y".to_string()] }).unwrap();
    unrel_tx.try_send(UnreliableServerMessage::PlayerPosition("x".to_string(), pos(3.0, 4.0))).unwrap();
    let poll = g.poll_client_channels(&rel_rx, &unrel_rx, &out_tx);
    let result = poll.result;
    assert_eq!(result.new_players, vec!["x".to_string()]);
    assert_eq!(result.leaving_players, vec!["y".to_string()]);
    assert_eq!(g.get_player_component(&"x".to_string()).unwrap().position, pos(3.0, 4.0));
    assert_eq!(drain(&out_rx), vec![UnreliableClientMessage::PlayerPosition(pos(7.0, 8.0))]);
    assert!(rel_rx.is_empty() && unrel_rx.is_empty());
}

#[test]
fn client_channels_poll_without_session_leaves_channels_alone() {
    let mut g = GameState::default();
    let (rel_tx, rel_rx) = async_channel::unbounded();
    let (_unrel_tx, unrel_rx) = async_channel::unbounded::<UnreliableServerMessage>();
    let (out_tx, out_rx) = async_channel::unbounded();
    rel_tx.try_send(ReliableServerMessage::Quit).unwrap();
    let poll = g.poll_client_channels(&rel_rx, &unrel_rx, &out_tx);
    let result = poll.result;
    assert!(result.new_players.is_empty());
    assert_eq!(rel_rx.len(), 1);
    assert!(out_rx.is_empty());
}

#[test]
fn server_channels_poll_reports_its_deliveries() {
    let mut g = GameState::default();
    g.enter_server_session("host".to_string());
    let (a, _a_ends) = connect("a");
    let (b, b_ends) = connect("b");
    b_ends.to_server.try_send(ReliableClientMessage::PlayerJoined { player_id: "b".to_string() }).unwrap();
    let round = g.poll_server_channels(&vec![a, b]);
    // roster to b (position 1), then two positions to each of a and b, then the announcement to both
    let summary: Vec<(usize, &str)> = round
        .deliveries
        .iter()
        .map(|d| {
            (
                d.to,
                match &d.item {
                    Outgoing::Reliable(_) => "reliable",
                    Outgoing::Unreliable(_) => "unreliable",
                    Outgoing::Stop => "stop",
                },
            )
        })
        .collect();
    assert_eq!(
        summary,
        vec![
            (1, "reliable"),
            (0, "unreliable"),
            (0, "unreliable"),
            (1, "unreliable"),
            (1, "unreliable"),
            (0, "reliable"),
            (1, "reliable"),
        ]
    );
}

#[test]
fn server_channels_poll_without_session_leaves_channels_alone() {
    let mut g = GameState::default();
    let (a, a_ends) = connect("a");
    a_ends.to_server.try_send(ReliableClientMessage::Quit { player_id: "a".to_string() }).unwrap();
    let round = g.poll_server_channels(&vec![a]);
    assert!(round.deliveries.is_empty());
    assert!(round.poll.result.leaving_players.is_empty());
    assert_eq!(a_ends.to_server.len(), 1);
}

#[test]
fn client_channels_poll_returns_the_report_it_sent() {
    let mut g = GameState::default();
    g.enter_client_session("me".to_string());
    let (_rel_tx, rel_rx) = async_channel::unbounded::<ReliableServerMessage>();
    let (_unrel_tx, unrel_rx) = async_channel::unbounded::<UnreliableServerMessage>();
    let (out_tx, out_rx) = async_channel::unbounded();
    let poll = g.poll_client_channels(&rel_rx, &unrel_rx, &out_tx);
    assert_eq!(poll.report, Some(UnreliableClientMessage::PlayerPosition(pos(0.0, 0.0))));
    assert_eq!(drain(&out_rx), vec![UnreliableClientMessage::PlayerPosition(pos(0.0, 0.0))]);
}
