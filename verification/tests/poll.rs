use vectorwar_core::game_state::{new_player, GameState};
use vectorwar_core::messages::{
    PlayerPosition, ReliableClientMessage, ReliableServerMessage, UnreliableClientMessage,
    UnreliableServerMessage,
};
use vectorwar_core::poll::{PlayerInbox, Received, WorldOp};

fn pos(x: f32, y: f32) -> PlayerPosition {
    PlayerPosition { x_bits: x.to_bits(), y_bits: y.to_bits() }
}

fn ids(v: &[&str]) -> Vec<String> {
    v.iter().map(|s| s.to_string()).collect()
}

fn joined_ids(m: &ReliableServerMessage) -> Vec<String> {
    match m {
        ReliableServerMessage::PlayersJoined { player_ids } => player_ids.clone(),
        other => panic!("expected PlayersJoined, got {:?}", other),
    }
}

fn left_ids(m: &ReliableServerMessage) -> Vec<String> {
    match m {
        ReliableServerMessage::PlayersLeft { player_ids } => player_ids.clone(),
        other => panic!("expected PlayersLeft, got {:?}", other),
    }
}

fn inbox(
    id: &str,
    reliable: Received<ReliableClientMessage>,
    unreliable: Received<UnreliableClientMessage>,
) -> PlayerInbox {
    PlayerInbox { player_id: id.to_string(), reliable, unreliable }
}

#[test]
fn client_poll_spawns_joined_and_reports_left() {
    let mut g = GameState::default();
    g.enter_client_session("me".to_string());
    let poll = g.poll_client(
        vec![
            ReliableServerMessage::Hello { player_id: "me".to_string() },
            ReliableServerMessage::PlayersJoined { player_ids: ids(&["me", "a", "b"]) },
            ReliableServerMessage::PlayersLeft { player_ids: ids(&["c"]) },
            ReliableServerMessage::Quit,
        ],
        vec![],
    );
    assert_eq!(poll.result.new_players, ids(&["me", "a", "b"]));
    assert_eq!(poll.result.leaving_players, ids(&["c"]));
    assert!(g.get_entity_associated_with_player_id(&"a".to_string()).is_some());
    assert!(g.get_entity_associated_with_player_id(&"b".to_string()).is_some());
    assert_eq!(g.get_remote_player_amount(), 3);
    assert_eq!(poll.report, Some(UnreliableClientMessage::PlayerPosition(pos(0.0, 0.0))));
}

#[test]
fn client_poll_ignores_updates_about_itself() {
    let mut g = GameState::default();
    g.enter_client_session("me".to_string());
    g.submit_local_input(pos(5.0, 5.0));
    g.spawn_remote_player("a".to_string());
    let poll = g.poll_client(
        vec![],
        vec![
            UnreliableServerMessage::PlayerPosition("me".to_string(), pos(-1.0, -1.0)),
            UnreliableServerMessage::PlayerPosition("a".to_string(), pos(2.0, 3.0)),
        ],
    );
    assert_eq!(g.get_player_component(&"a".to_string()).unwrap().position, pos(2.0, 3.0));
    assert_eq!(g.get_local_player_component().unwrap().position, pos(5.0, 5.0));
    assert_eq!(poll.report, Some(UnreliableClientMessage::PlayerPosition(pos(5.0, 5.0))));
}

#[test]
fn client_poll_without_client_session_does_nothing() {
    let mut g = GameState::default();
    g.enter_server_session("host".to_string());
    let poll = g.poll_client(vec![ReliableServerMessage::PlayersJoined { player_ids: ids(&["a"]) }], vec![]);
    assert!(poll.result.new_players.is_empty());
    assert_eq!(poll.report, None);
    assert_eq!(g.get_entity_associated_with_player_id(&"a".to_string()), None);
}

#[test]
fn server_poll_handles_a_join() {
    let mut g = GameState::default();
    g.enter_server_session("host".to_string());
    let poll = g.poll_server(vec![
        inbox("a", Received::Message(ReliableClientMessage::PlayerJoined { player_id: "a".to_string() }), Received::Empty),
        inbox("b", Received::Empty, Received::Empty),
    ]);
    assert_eq!(poll.result.new_players, ids(&["a"]));
    assert!(poll.result.leaving_players.is_empty());
    assert_eq!(poll.roster_recipients, ids(&["a"]));
    assert_eq!(joined_ids(&poll.roster), ids(&["a", "b", "host"]));
    assert_eq!(poll.recipients, ids(&["a", "b"]));
    assert_eq!(joined_ids(poll.announcement.as_ref().unwrap()), ids(&["a"]));
    assert!(poll.farewell.is_none());
    assert_eq!(poll.farewell_recipients, ids(&["a", "b"]));
    assert!(g.get_entity_associated_with_player_id(&"a".to_string()).is_some());
    let mut positions: Vec<String> = poll
        .positions
        .iter()
        .map(|m| match m {
            UnreliableServerMessage::PlayerPosition(id, p) => {
                assert_eq!(*p, pos(0.0, 0.0));
                id.clone()
            }
        })
        .collect();
    positions.sort();
    assert_eq!(positions, ids(&["a", "host"]));
}

#[test]
fn server_poll_moves_players_and_handles_leavers() {
    let mut g = GameState::default();
    g.enter_server_session("host".to_string());
    g.spawn_remote_player("a".to_string());
    g.spawn_remote_player("b".to_string());
    let poll = g.poll_server(vec![
        inbox("a", Received::Empty, Received::Message(UnreliableClientMessage::PlayerPosition(pos(4.0, 2.0)))),
        inbox("b", Received::Message(ReliableClientMessage::Quit { player_id: "b".to_string() }), Received::Closed),
        inbox("c", Received::Closed, Received::Empty),
    ]);
    assert!(poll.result.new_players.is_empty());
    assert!(poll.announcement.is_none());
    assert!(poll.roster_recipients.is_empty());
    assert_eq!(poll.result.leaving_players, ids(&["b", "c"]));
    assert_eq!(left_ids(poll.farewell.as_ref().unwrap()), ids(&["b", "c"]));
    assert_eq!(poll.farewell_recipients, ids(&["a"]));
    assert_eq!(g.get_player_component(&"a".to_string()).unwrap().position, pos(4.0, 2.0));
    assert_eq!(poll.positions.len(), 3);
}

#[test]
fn server_poll_lists_each_player_once() {
    let mut g = GameState::default();
    g.enter_server_session("host".to_string());
    let poll = g.poll_server(vec![
        inbox("a", Received::Message(ReliableClientMessage::PlayerJoined { player_id: "a".to_string() }), Received::Closed),
        inbox("x", Received::Message(ReliableClientMessage::PlayerJoined { player_id: "a".to_string() }), Received::Empty),
    ]);
    assert_eq!(poll.result.new_players, ids(&["a"]));
    assert_eq!(poll.result.leaving_players, ids(&["a"]));
    assert_eq!(poll.roster_recipients, ids(&["a", "a"]));
    assert_eq!(g.get_remote_player_amount(), 2);
}

#[test]
fn roster_does_not_repeat_a_connected_host() {
    let mut g = GameState::default();
    g.enter_server_session("host".to_string());
    let poll = g.poll_server(vec![inbox(
        "host",
        Received::Message(ReliableClientMessage::PlayerJoined { player_id: "host".to_string() }),
        Received::Empty,
    )]);
    assert_eq!(joined_ids(&poll.roster), ids(&["host"]));
    assert_eq!(g.get_remote_player_amount(), 1);
}

#[test]
fn server_poll_without_server_session_does_nothing() {
    let mut g = GameState::default();
    let poll = g.poll_server(vec![inbox("a", Received::Closed, Received::Closed)]);
    assert!(poll.result.leaving_players.is_empty());
    assert!(poll.recipients.is_empty());
    assert!(poll.positions.is_empty());
}

#[test]
fn world_ops_apply_in_order() {
    let mut g = GameState::default();
    g.apply_world_ops(&vec![
        WorldOp::Move("a".to_string(), pos(1.0, 1.0)),
        WorldOp::SpawnRemote("a".to_string()),
        WorldOp::Move("a".to_string(), pos(2.0, 2.0)),
        WorldOp::SpawnRemote("a".to_string()),
    ]);
    assert_eq!(g.get_remote_player_amount(), 1);
    let mut expected = new_player(false);
    expected.position = pos(2.0, 2.0);
    assert_eq!(g.get_player_component(&"a".to_string()), Some(expected));
}

#[test]
fn server_poll_sends_positions_in_store_order() {
    let mut g = GameState::default();
    g.enter_server_session("host".to_string());
    g.spawn_remote_player("b".to_string());
    let poll = g.poll_server(vec![
        inbox("b", Received::Empty, Received::Message(UnreliableClientMessage::PlayerPosition(pos(1.0, 2.0)))),
        inbox("a", Received::Message(ReliableClientMessage::PlayerJoined { player_id: "a".to_string() }), Received::Empty),
    ]);
    let sent: Vec<(String, PlayerPosition)> = poll
        .positions
        .iter()
        .map(|m| match m {
            UnreliableServerMessage::PlayerPosition(id, p) => (id.clone(), *p),
        })
        .collect();
    assert_eq!(
        sent,
        vec![
            ("host".to_string(), pos(0.0, 0.0)),
            ("b".to_string(), pos(1.0, 2.0)),
            ("a".to_string(), pos(0.0, 0.0)),
        ]
    );
}

#[test]
fn world_ops_keep_the_order_of_existing_players() {
    let mut g = GameState::default();
    g.spawn_remote_player("b".to_string());
    g.spawn_remote_player("a".to_string());
    g.apply_world_ops(&vec![
        WorldOp::SpawnRemote("d".to_string()),
        WorldOp::Move("b".to_string(), pos(5.0, 6.0)),
        WorldOp::SpawnRemote("a".to_string()),
        WorldOp::SpawnRemote("c".to_string()),
    ]);
    let listed: Vec<(String, PlayerPosition)> =
        g.get_remote_players().into_iter().map(|(id, p)| (id, p.position)).collect();
    assert_eq!(
        listed,
        vec![
            ("b".to_string(), pos(5.0, 6.0)),
            ("a".to_string(), pos(0.0, 0.0)),
            ("d".to_string(), pos(0.0, 0.0)),
            ("c".to_string(), pos(0.0, 0.0)),
        ]
    );
}
