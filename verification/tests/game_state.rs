use vectorwar_core::game_state::{
    new_player, GameState, InputData, Player, DEFAULT_PLAYER_HEIGHT_BITS, DEFAULT_PLAYER_WIDTH_BITS,
};
use vectorwar_core::messages::{PlayerPosition, UnreliableServerMessage};

fn pos(x: f32, y: f32) -> PlayerPosition {
    PlayerPosition { x_bits: x.to_bits(), y_bits: y.to_bits() }
}

#[test]
fn new_players_start_at_origin_with_default_size() {
    let p: Player = new_player(true);
    assert_eq!(p.position, pos(0.0, 0.0));
    assert_eq!(f32::from_bits(p.width_bits), 50.0);
    assert_eq!(f32::from_bits(p.height_bits), 50.0);
    assert_eq!(p.width_bits, DEFAULT_PLAYER_WIDTH_BITS);
    assert_eq!(p.height_bits, DEFAULT_PLAYER_HEIGHT_BITS);
    assert!(p.is_local);
    assert!(!new_player(false).is_local);
}

#[test]
fn input_data_holds_the_four_keys() {
    let input = InputData { up: true, down: false, left: true, right: false };
    let copy = input;
    assert_eq!(copy, input);
    assert!(copy.up && copy.left && !copy.down && !copy.right);
}

#[test]
fn fresh_state_has_no_session() {
    let g = GameState::default();
    assert_eq!(g.get_local_network_id(), None);
    assert_eq!(g.get_current_network_state(), None);
    assert_eq!(g.get_remote_player_amount(), 0);
    assert_eq!(g.get_local_player_component(), None);
    assert!(g.get_remote_players().is_empty());
}

#[test]
fn server_session_spawns_the_host() {
    let mut g = GameState::default();
    let key = g.enter_server_session("host".to_string());
    assert_eq!(g.get_local_network_id(), Some("host".to_string()));
    assert_eq!(g.get_current_network_state(), Some("Server".to_string()));
    assert_eq!(g.get_entity_associated_with_player_id(&"host".to_string()), Some(key));
    assert_eq!(g.get_local_player_component(), Some(new_player(true)));
    assert_eq!(g.get_remote_player_amount(), 1);
    assert!(g.get_remote_players().is_empty());
}

#[test]
fn client_session_reports_client() {
    let mut g = GameState::default();
    g.enter_client_session("me".to_string());
    assert_eq!(g.get_current_network_state(), Some("Client".to_string()));
    assert_eq!(g.get_local_network_id(), Some("me".to_string()));
    g.leave_session();
    assert_eq!(g.get_current_network_state(), None);
    assert_eq!(g.get_remote_player_amount(), 1);
}

#[test]
fn spawning_a_remote_player_twice_changes_nothing() {
    let mut g = GameState::default();
    let first = g.spawn_remote_player("a".to_string());
    assert!(first.is_some());
    assert_eq!(g.spawn_remote_player("a".to_string()), None);
    assert_eq!(g.get_remote_player_amount(), 1);
    assert_eq!(g.get_entity_associated_with_player_id(&"a".to_string()), first);
    assert_eq!(g.get_remote_players(), vec![("a".to_string(), new_player(false))]);
}

#[test]
fn remove_undoes_spawn() {
    let mut g = GameState::default();
    g.spawn_remote_player("b".to_string());
    let entity = g.get_entity_associated_with_player_id(&"b".to_string());
    assert_eq!(g.remove_player(&"b".to_string()), entity);
    assert_eq!(g.get_entity_associated_with_player_id(&"b".to_string()), None);
    assert_eq!(g.get_player_component(&"b".to_string()), None);
    assert_eq!(g.get_remote_player_amount(), 0);
    assert!(g.get_remote_players().is_empty());
    assert_eq!(g.remove_player(&"b".to_string()), None);
}

#[test]
fn remote_update_moves_every_row_of_that_id() {
    let mut g = GameState::default();
    g.spawn_remote_player("a".to_string());
    g.spawn_remote_player("b".to_string());
    g.update_player_with_remote_data(&"a".to_string(), &pos(3.5, -2.0));
    assert_eq!(g.get_player_component(&"a".to_string()).unwrap().position, pos(3.5, -2.0));
    assert_eq!(g.get_player_component(&"b".to_string()).unwrap().position, pos(0.0, 0.0));
    g.update_player_with_remote_data(&"a".to_string(), &pos(1.0, 1.0));
    assert_eq!(g.get_player_component(&"a".to_string()).unwrap().position, pos(1.0, 1.0));
    g.update_player_with_remote_data(&"nobody".to_string(), &pos(9.0, 9.0));
    assert_eq!(g.get_remote_players().len(), 2);
}

#[test]
fn local_input_moves_the_local_player() {
    let mut g = GameState::default();
    g.enter_client_session("me".to_string());
    g.spawn_remote_player("other".to_string());
    g.submit_local_input(pos(10.0, 20.0));
    assert_eq!(g.get_local_player_component().unwrap().position, pos(10.0, 20.0));
    assert_eq!(g.get_player_component(&"other".to_string()).unwrap().position, pos(0.0, 0.0));
}

#[test]
fn local_input_without_session_is_ignored() {
    let mut g = GameState::default();
    g.spawn_remote_player("x".to_string());
    g.submit_local_input(pos(10.0, 20.0));
    assert_eq!(g.get_player_component(&"x".to_string()).unwrap().position, pos(0.0, 0.0));
}

#[test]
fn remote_players_leave_out_local_ones() {
    let mut g = GameState::default();
    g.enter_server_session("host".to_string());
    g.spawn_remote_player("r1".to_string());
    g.spawn_remote_player("r2".to_string());
    let mut ids: Vec<String> = g.get_remote_players().into_iter().map(|(id, _)| id).collect();
    ids.sort();
    assert_eq!(ids, vec!["r1".to_string(), "r2".to_string()]);
}

#[test]
fn spawning_the_local_player_again_replaces_the_index_entry() {
    let mut g = GameState::default();
    let first = g.spawn_local_player("me".to_string());
    let second = g.spawn_local_player("me".to_string());
    assert_ne!(first, second);
    assert_eq!(g.get_entity_associated_with_player_id(&"me".to_string()), Some(second));
    assert_eq!(g.get_remote_player_amount(), 1);
}

#[test]
fn remote_players_come_in_spawn_order() {
    let mut g = GameState::default();
    g.spawn_remote_player("c".to_string());
    g.spawn_remote_player("a".to_string());
    g.spawn_remote_player("b".to_string());
    let ids: Vec<String> = g.get_remote_players().into_iter().map(|(id, _)| id).collect();
    assert_eq!(ids, vec!["c".to_string(), "a".to_string(), "b".to_string()]);
}

#[test]
fn a_local_spawn_leaves_the_remote_list_unchanged() {
    let mut g = GameState::default();
    g.spawn_remote_player("r1".to_string());
    g.spawn_remote_player("r2".to_string());
    g.update_player_with_remote_data(&"r2".to_string(), &pos(3.0, 4.0));
    let before = g.get_remote_players();
    let amount = g.get_remote_player_amount();
    let key = g.spawn_local_player("me".to_string());
    assert_eq!(g.get_remote_players(), before);
    assert_eq!(g.get_remote_player_amount(), amount + 1);
    assert_eq!(g.get_entity_associated_with_player_id(&"me".to_string()), Some(key));
    assert_eq!(g.get_player_component(&"me".to_string()), Some(new_player(true)));
}

#[test]
fn local_input_moves_the_first_row_of_the_local_id() {
    let mut g = GameState::default();
    g.spawn_local_player("me".to_string());
    g.enter_client_session("me".to_string());
    g.submit_local_input(pos(7.0, 8.0));
    // The index points at the second row, which stays where it was.
    assert_eq!(g.get_local_player_component().unwrap().position, pos(0.0, 0.0));
    let positions: Vec<PlayerPosition> = g
        .position_broadcast()
        .into_iter()
        .map(|m| match m {
            UnreliableServerMessage::PlayerPosition(_, p) => p,
        })
        .collect();
    assert_eq!(positions, vec![pos(7.0, 8.0), pos(0.0, 0.0)]);
}
