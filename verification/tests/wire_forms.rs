//! The wire forms of the three-color game: round trips value by value.

use relay_hub::ternio::back_end::TernioLogic;
use relay_hub::ternio::basic_commands::{DeltaInformation, GameState, RpcPayload};
use relay_hub::ternio::board_representation::{FieldPosition, StoneColor, StonePlacement};
use relay_hub::ternio::view_state::ViewState;
use relay_hub::transport_layer::{ConnectionState, SerializationCap, TransportLayer};

fn roundtrip_rpc(payload: RpcPayload) -> RpcPayload {
    let bytes = payload.serialize();
    let (back, end) = RpcPayload::deserialize_prefix(&bytes, 0).expect("own wire decodes");
    assert_eq!(end, bytes.len());
    back
}

fn roundtrip_delta(delta: DeltaInformation) -> DeltaInformation {
    let bytes = delta.serialize();
    let (back, end) =
        DeltaInformation::deserialize_prefix(&bytes, 0).expect("own wire decodes");
    assert_eq!(end, bytes.len());
    back
}

#[test]
fn rpc_payloads_round_trip() {
    match roundtrip_rpc(RpcPayload::SetPlayerName("Grün".to_string())) {
        RpcPayload::SetPlayerName(n) => assert_eq!(n, "Grün"),
        _ => panic!("the variant survives"),
    }
    match roundtrip_rpc(RpcPayload::SetPlayerColors([
        StoneColor::Blue,
        StoneColor::Red,
        StoneColor::Green,
    ])) {
        RpcPayload::SetPlayerColors(cs) => {
            assert_eq!(cs, [StoneColor::Blue, StoneColor::Red, StoneColor::Green])
        }
        _ => panic!("the variant survives"),
    }
    match roundtrip_rpc(RpcPayload::MakeMove(StonePlacement {
        field_position: FieldPosition {
            x_coord: 4,
            y_coord: 2,
        },
        stone_color: StoneColor::Red,
    })) {
        RpcPayload::MakeMove(p) => {
            assert_eq!((p.field_position.x_coord, p.field_position.y_coord), (4, 2));
            assert_eq!(p.stone_color, StoneColor::Red);
        }
        _ => panic!("the variant survives"),
    }
    // Garbage does not decode.
    assert!(RpcPayload::deserialize_prefix(&vec![9, 9], 0).is_none());
    assert!(RpcPayload::deserialize_prefix(&vec![], 0).is_none());
}

#[test]
fn deltas_round_trip() {
    match roundtrip_delta(DeltaInformation::SetGameState(GameState::Move(
        StoneColor::Green,
    ))) {
        DeltaInformation::SetGameState(GameState::Move(c)) => assert_eq!(c, StoneColor::Green),
        _ => panic!("the variant survives"),
    }
    match roundtrip_delta(DeltaInformation::SetPlayerNames([
        "ä".to_string(),
        "".to_string(),
        "cæsar".to_string(),
    ])) {
        DeltaInformation::SetPlayerNames(ns) => {
            assert_eq!(ns[0], "ä");
            assert_eq!(ns[1], "");
            assert_eq!(ns[2], "cæsar");
        }
        _ => panic!("the variant survives"),
    }
    // Two deltas concatenate and decode one after the other.
    let first = DeltaInformation::SetGameState(GameState::GameOver);
    let second = DeltaInformation::MakeMove(StonePlacement {
        field_position: FieldPosition {
            x_coord: 1,
            y_coord: 7,
        },
        stone_color: StoneColor::Blue,
    });
    let mut bytes = first.serialize();
    bytes.extend(second.serialize());
    let (_, mid) = DeltaInformation::deserialize_prefix(&bytes, 0).expect("first decodes");
    let (back, end) =
        DeltaInformation::deserialize_prefix(&bytes, mid).expect("second decodes");
    assert_eq!(end, bytes.len());
    match back {
        DeltaInformation::MakeMove(p) => assert_eq!(p.field_position.y_coord, 7),
        _ => panic!("the order is kept"),
    }
}

#[test]
fn view_states_round_trip() {
    let mut state = ViewState::new();
    state.player_names = [
        "Olaf".to_string(),
        "Ada".to_string(),
        "Böb".to_string(),
    ];
    state.player_colors = [StoneColor::Green, StoneColor::Blue, StoneColor::Red];
    state.game_state = GameState::Move(StoneColor::Blue);
    let bytes = state.serialize();
    let (back, end) = ViewState::deserialize_prefix(&bytes, 0).expect("own wire decodes");
    assert_eq!(end, bytes.len());
    assert_eq!(back.player_names[2], "Böb");
    assert_eq!(back.player_colors, [StoneColor::Green, StoneColor::Blue, StoneColor::Red]);
    assert_eq!(back.game_state, GameState::Move(StoneColor::Blue));
    assert_eq!(
        back.game_board.select_field(&FieldPosition {
            x_coord: 4,
            y_coord: 4
        }),
        StoneColor::Red
    );
    assert_eq!(back.game_board.get_score(), [3, 3, 3]);
}

#[test]
fn ternio_session_carries_a_move_over_the_wire() {
    type Session = TransportLayer<RpcPayload, DeltaInformation, TernioLogic, ViewState>;
    let mut host = Session::generate_transport_layer(
        "ws://relay.invalid/ws".to_string(),
        "Ternio".to_string(),
    );
    host.start_game_server("r1".to_string(), 0);
    host.update(0, Ok(vec![]));
    host.update(0, Ok(vec![vec![6, 0, 0, 0, 0]]));
    assert!(matches!(
        host.connection_state(),
        ConnectionState::Connected {
            is_server: true,
            ..
        }
    ));
    // Two remote players join; the relay then delivers their names as
    // spliced RPC frames; the host answers each tick with broadcasts.
    host.update(16, Ok(vec![vec![0, 0, 1], vec![0, 0, 2]]));
    let mut name_rpc = vec![2, 0, 1];
    name_rpc.extend(RpcPayload::SetPlayerName("beryl".to_string()).serialize());
    let tick = host.update(16, Ok(vec![name_rpc]));
    // One name alone changes nothing outward but the tick is healthy.
    assert!(tick.frames.is_empty());
}
