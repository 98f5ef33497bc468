//! The lobby bookkeeping and the handshake, end to end on frames.

use relay_hub::codec::{decode_join_request, encode_join_request, JoinRequest};
use relay_hub::handshake::{
    get_initial_query, inform_client_of_connection, process_handshake_client,
    process_handshake_server, shutdown_connection, DisconnectData, HandshakeError,
};
use relay_hub::lobby::{AppState, GameEntry, LobbyError};

fn catalog(state: &mut AppState, name: &str, max_players: u16) {
    let mut entries = Vec::new();
    entries.push(GameEntry {
        name: name.to_string(),
        max_players,
    });
    state.replace_catalog(entries);
}

fn request(game: &str, room: &str, variation: u16, create: bool) -> Vec<u8> {
    let req = JoinRequest {
        game_id: game.to_string(),
        room_id: room.to_string(),
        rule_variation: variation,
        create_room: create,
    };
    encode_join_request(&req).expect("the names fit the wire")
}

#[test]
fn join_request_round_trip() {
    let raw = request("Tërnio", "room über 9", 7, true);
    let back = decode_join_request(&raw).expect("the encoding decodes");
    assert_eq!(back.game_id, "Tërnio");
    assert_eq!(back.room_id, "room über 9");
    assert_eq!(back.rule_variation, 7);
    assert!(back.create_room);
}

#[test]
fn join_request_rejects_garbage() {
    assert!(decode_join_request(&vec![]).is_none());
    assert!(decode_join_request(&vec![0, 1]).is_none());
    // A valid frame with one trailing byte is no longer a join request.
    let mut raw = request("a", "b", 0, false);
    raw.push(0);
    assert!(decode_join_request(&raw).is_none());
    // The body of a name must be valid UTF-8.
    let raw = vec![0, 1, 0xff, 0, 0, 0, 0, 0];
    assert!(decode_join_request(&raw).is_none());
}

#[test]
fn happy_handshake_host() {
    let mut state = AppState::new();
    catalog(&mut state, "Ternio", 3);
    let raw = request("Ternio", "r1", 0, true);
    let init = get_initial_query(&state, &raw).expect("the request is valid");
    let result = process_handshake_server(&mut state, init).expect("the room is fresh");
    assert_eq!(result.player_id, 0);
    assert_eq!(result.rule_variation, 0);
    let response = inform_client_of_connection(&result);
    assert_eq!(response, vec![6, 0, 0, 0, 0]);
    assert_eq!(state.rooms.len(), 1);
    assert_eq!(state.rooms[0].room.amount_of_players, 1);
    assert_eq!(state.rooms[0].room.next_client_id, 1);
}

#[test]
fn rooms_are_unique_per_key() {
    let mut state = AppState::new();
    catalog(&mut state, "Ternio", 0);
    let first = state.create_room("Ternio".to_string(), "r1".to_string(), 4);
    assert!(first.is_ok());
    let second = state.create_room("Ternio".to_string(), "r1".to_string(), 9);
    assert!(matches!(second, Err(LobbyError::AlreadyExists)));
    assert_eq!(state.rooms.len(), 1);
    // The same room name under another game is another key.
    let other = state.create_room("Chess".to_string(), "r1".to_string(), 0);
    assert!(other.is_ok());
    assert_eq!(state.rooms.len(), 2);
}

#[test]
fn join_assigns_increasing_ids_and_counts() {
    let mut state = AppState::new();
    catalog(&mut state, "Ternio", 0);
    state
        .create_room("Ternio".to_string(), "r1".to_string(), 2)
        .expect("fresh room");
    let game = "Ternio".to_string();
    let room = "r1".to_string();
    let first = state.join_room(&game, &room, 0).expect("joinable");
    let second = state.join_room(&game, &room, 0).expect("joinable");
    assert_eq!(first.player_id, 1);
    assert_eq!(second.player_id, 2);
    assert!(second.player_id > first.player_id);
    assert_eq!(first.rule_variation, 2);
    assert_eq!(second.rule_variation, 2);
    assert_eq!(state.rooms[0].room.amount_of_players, 3);
    state.leave_room(&game, &room);
    assert_eq!(state.rooms[0].room.amount_of_players, 2);
    // A third joiner still gets a fresh id: ids are never reused.
    let third = state.join_room(&game, &room, 0).expect("joinable");
    assert_eq!(third.player_id, 3);
}

#[test]
fn capacity_refusal_leaves_peers_alone() {
    let mut state = AppState::new();
    catalog(&mut state, "Ternio", 2);
    let raw = request("Ternio", "r1", 0, true);
    let init = get_initial_query(&state, &raw).expect("valid");
    process_handshake_server(&mut state, init).expect("fresh");
    let raw = request("Ternio", "r1", 0, false);
    let init = get_initial_query(&state, &raw).expect("valid");
    let (client, new_client_frame) =
        process_handshake_client(&mut state, init).expect("one seat is free");
    assert_eq!(client.player_id, 1);
    assert_eq!(new_client_frame, vec![0, 0, 1]);
    // The room is now at its quota of 2; the third peer is refused.
    let raw = request("Ternio", "r1", 0, false);
    let init = get_initial_query(&state, &raw).expect("valid");
    let refused = process_handshake_client(&mut state, init);
    assert!(matches!(refused, Err(HandshakeError::RoomFull)));
    assert_eq!(state.rooms[0].room.amount_of_players, 2);
}

#[test]
fn unknown_game_and_missing_room_are_refused() {
    let mut state = AppState::new();
    catalog(&mut state, "Ternio", 0);
    let raw = request("Chess", "r1", 0, true);
    assert!(matches!(
        get_initial_query(&state, &raw),
        Err(HandshakeError::UnknownGame)
    ));
    let raw = request("Ternio", "nowhere", 0, false);
    let init = get_initial_query(&state, &raw).expect("valid");
    assert!(matches!(
        process_handshake_client(&mut state, init),
        Err(HandshakeError::RoomMissing)
    ));
    let garbage = vec![9, 9, 9];
    assert!(matches!(
        get_initial_query(&state, &garbage),
        Err(HandshakeError::MalformedRequest)
    ));
}

#[test]
fn host_departure_removes_room_and_client_departure_counts_down() {
    let mut state = AppState::new();
    catalog(&mut state, "Ternio", 0);
    let raw = request("Ternio", "r1", 3, true);
    let init = get_initial_query(&state, &raw).expect("valid");
    let host = process_handshake_server(&mut state, init).expect("fresh");
    let raw = request("Ternio", "r1", 0, false);
    let init = get_initial_query(&state, &raw).expect("valid");
    let (client, _) = process_handshake_client(&mut state, init).expect("open");
    assert_eq!(state.rooms[0].room.amount_of_players, 2);

    // The client goes: its departure frame names it, the count drops.
    let frame = shutdown_connection(&mut state, &DisconnectData::from(&client));
    assert_eq!(frame, vec![1, 0, 1]);
    assert_eq!(state.rooms[0].room.amount_of_players, 1);

    // The host goes: the room disappears and the broadcast is owed the
    // closing frame.
    let frame = shutdown_connection(&mut state, &DisconnectData::from(&host));
    assert_eq!(frame, vec![0]);
    assert_eq!(state.rooms.len(), 0);

    // A late client departure after the room is gone is a no-op.
    let frame = shutdown_connection(&mut state, &DisconnectData::from(&client));
    assert_eq!(frame, vec![1, 0, 1]);
    assert_eq!(state.rooms.len(), 0);
}

#[test]
fn rule_variation_round_trip() {
    let mut state = AppState::new();
    catalog(&mut state, "Ternio", 0);
    let raw = request("Ternio", "r1", 42, true);
    let init = get_initial_query(&state, &raw).expect("valid");
    let host = process_handshake_server(&mut state, init).expect("fresh");
    assert_eq!(host.rule_variation, 42);
    let raw = request("Ternio", "r1", 0, false);
    let init = get_initial_query(&state, &raw).expect("valid");
    let (client, _) = process_handshake_client(&mut state, init).expect("open");
    // The joiner is granted exactly the variation the host provided.
    assert_eq!(client.rule_variation, 42);
    assert_eq!(inform_client_of_connection(&client), vec![6, 0, 1, 0, 42]);
}

#[test]
fn catalog_reload_keeps_rooms_and_last_entry_wins() {
    let mut state = AppState::new();
    catalog(&mut state, "Ternio", 3);
    state
        .create_room("Ternio".to_string(), "r1".to_string(), 0)
        .expect("fresh");
    let mut entries = Vec::new();
    entries.push(GameEntry {
        name: "Ternio".to_string(),
        max_players: 5,
    });
    entries.push(GameEntry {
        name: "Ternio".to_string(),
        max_players: 7,
    });
    state.replace_catalog(entries);
    assert_eq!(state.rooms.len(), 1);
    assert_eq!(state.max_players_of(&"Ternio".to_string()), Some(7));
    assert_eq!(state.max_players_of(&"Chess".to_string()), None);
}
