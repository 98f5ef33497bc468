//! The two game backends and their board rules.

use relay_hub::ternio::back_end::TernioLogic;
use relay_hub::ternio::basic_commands::{DeltaInformation, GameState, RpcPayload};
use relay_hub::ternio::board_and_transition::BufferedBoardForRendering;
use relay_hub::ternio::board_representation::{
    FieldContent, FieldPosition, GameBoard, StoneColor, StonePlacement,
};
use relay_hub::ternio::view_state::ViewState;
use relay_hub::tic_tac_toe::backend::TicTacToeLogic;
use relay_hub::tic_tac_toe::traits_implementation as ttt;
use relay_hub::transport_layer::{BackEndArchitecture, BackendCommand};

fn pos(x: i8, y: i8) -> FieldPosition {
    FieldPosition {
        x_coord: x,
        y_coord: y,
    }
}

#[test]
fn start_board_has_three_stones_of_each_color() {
    let mut board = GameBoard::new();
    board.reset_board();
    let score = board.get_score();
    assert_eq!(score, [3, 3, 3]);
    assert_eq!(board.get_stone_placement().len(), 9);
    assert!(board.is_empty(&pos(0, 0)));
    assert_eq!(board.select_field(&pos(4, 4)), StoneColor::Red);
}

#[test]
fn legality_follows_the_flipping_rule() {
    let mut board = GameBoard::new();
    board.reset_board();
    // Below the blue stone at (4, 3) sits red at (4, 4): placing red at
    // (4, 2) closes the blue run upward.
    assert!(board.is_legal_move(pos(4, 2), StoneColor::Red));
    // An empty corner far from everything flips nothing.
    assert!(!board.is_legal_move(pos(0, 0), StoneColor::Red));
    // An occupied field is never legal.
    assert!(!board.is_legal_move(pos(4, 4), StoneColor::Red));
    // Off the board is never legal.
    assert!(!board.is_legal_move(pos(9, 4), StoneColor::Red));
    let moves = board.get_all_legal_moves(StoneColor::Red);
    assert!(moves.iter().any(|p| p.x_coord == 4 && p.y_coord == 2));
    assert!(!moves.iter().any(|p| p.x_coord == 0 && p.y_coord == 0));
}

#[test]
fn set_stone_flips_the_closed_run() {
    let mut board = GameBoard::new();
    board.reset_board();
    let flips = board.get_all_flipped_stones(pos(4, 2), StoneColor::Red);
    assert_eq!(flips.len(), 1);
    assert_eq!((flips[0].field_position.x_coord, flips[0].field_position.y_coord), (4, 3));
    assert_eq!(flips[0].source_color, StoneColor::Blue);
    assert_eq!(flips[0].destination_color, StoneColor::Red);

    board.set_stone(&pos(4, 2), StoneColor::Red);
    assert_eq!(board.select_field(&pos(4, 2)), StoneColor::Red);
    assert_eq!(board.select_field(&pos(4, 3)), StoneColor::Red);
    // An uninvolved stone keeps its color.
    assert_eq!(board.select_field(&pos(3, 3)), StoneColor::Green);
    assert_eq!(board.get_score(), [5, 3, 2]);
}

#[test]
fn cycle_from_next_rotates_the_colors() {
    assert_eq!(
        StoneColor::Red.cycle_from_next(),
        [StoneColor::Green, StoneColor::Blue, StoneColor::Red]
    );
    assert_eq!(
        StoneColor::Blue.cycle_from_next(),
        [StoneColor::Red, StoneColor::Green, StoneColor::Blue]
    );
}

#[test]
fn view_state_guards_phases_and_players() {
    let vs = ViewState::new();
    assert_eq!(vs.game_state, GameState::AwaitingPlayers);
    // Name setting is open while waiting; a move is not.
    assert!(vs.check_legal_execution(1, &RpcPayload::SetPlayerName("Ada".to_string())));
    assert!(!vs.check_legal_execution(
        1,
        &RpcPayload::MakeMove(StonePlacement {
            field_position: pos(4, 2),
            stone_color: StoneColor::Red,
        })
    ));
    // Only player 0 assigns colors, and only in the assignment phase.
    assert!(!vs.check_legal_execution(
        0,
        &RpcPayload::SetPlayerColors([StoneColor::Red, StoneColor::Green, StoneColor::Blue])
    ));
    // A fourth player is never legal.
    assert!(!vs.check_legal_execution(3, &RpcPayload::SetPlayerName("Eve".to_string())));
}

#[test]
fn player_names_come_back_in_color_order() {
    let mut vs = ViewState::new();
    vs.player_names = [
        "amber".to_string(),
        "beryl".to_string(),
        "coral".to_string(),
    ];
    vs.player_colors = [StoneColor::Blue, StoneColor::Red, StoneColor::Green];
    let rgb = vs.get_player_names_in_rgb_sequence();
    assert_eq!(rgb[0], "beryl");
    assert_eq!(rgb[1], "coral");
    assert_eq!(rgb[2], "amber");
}

#[test]
fn ternio_backend_runs_a_setup_and_a_move() {
    let mut backend = TernioLogic::new(0);
    backend.player_arrival(0);
    assert!(backend.drain_commands().is_empty());
    // Three names arrive; with the third the assignment phase opens.
    backend.inform_rpc(0, RpcPayload::SetPlayerName("amber".to_string()));
    backend.inform_rpc(1, RpcPayload::SetPlayerName("beryl".to_string()));
    assert!(backend.drain_commands().is_empty());
    backend.inform_rpc(2, RpcPayload::SetPlayerName("coral".to_string()));
    let commands = backend.drain_commands();
    assert_eq!(commands.len(), 2);
    assert!(matches!(
        commands[1],
        BackendCommand::Delta(DeltaInformation::SetGameState(GameState::AssigningPlayers))
    ));
    // Player 0 assigns the colors; red moves first.
    backend.inform_rpc(
        0,
        RpcPayload::SetPlayerColors([StoneColor::Red, StoneColor::Green, StoneColor::Blue]),
    );
    let commands = backend.drain_commands();
    assert!(matches!(
        commands[1],
        BackendCommand::Delta(DeltaInformation::SetGameState(GameState::Move(
            StoneColor::Red
        )))
    ));
    assert_eq!(
        backend.get_view_state().game_state,
        GameState::Move(StoneColor::Red)
    );
    // Red moves; the turn passes to the next color able to move.
    backend.inform_rpc(
        0,
        RpcPayload::MakeMove(StonePlacement {
            field_position: pos(4, 2),
            stone_color: StoneColor::Red,
        }),
    );
    let commands = backend.drain_commands();
    assert_eq!(commands.len(), 2);
    assert!(matches!(
        commands[1],
        BackendCommand::Delta(DeltaInformation::SetGameState(GameState::Move(
            StoneColor::Green
        )))
    ));
    assert_eq!(
        backend.get_view_state().game_board.select_field(&pos(4, 3)),
        StoneColor::Red
    );
    // A wrong-color move is refused without a trace.
    backend.inform_rpc(
        0,
        RpcPayload::MakeMove(StonePlacement {
            field_position: pos(2, 4),
            stone_color: StoneColor::Red,
        }),
    );
    assert!(backend.drain_commands().is_empty());
    // A fourth player is kicked on arrival, the departure of a player
    // ends the room.
    backend.player_arrival(3);
    assert!(matches!(
        backend.drain_commands()[0],
        BackendCommand::KickPlayer { player: 3 }
    ));
    backend.player_departure(1);
    assert!(matches!(
        backend.drain_commands()[0],
        BackendCommand::TerminateRoom
    ));
}

#[test]
fn ternio_timer_resets_the_game() {
    let mut backend = TernioLogic::new(0);
    backend.inform_rpc(0, RpcPayload::SetPlayerName("a".to_string()));
    backend.timer_triggered(0);
    let commands = backend.drain_commands();
    assert!(commands
        .iter()
        .any(|c| matches!(c, BackendCommand::ResetViewState)));
    assert_eq!(
        backend.get_view_state().game_state,
        GameState::AssigningPlayers
    );
}

#[test]
fn buffered_board_prepares_rendering_data() {
    let mut vs = ViewState::new();
    vs.game_state = GameState::Move(StoneColor::Red);
    let buffered = BufferedBoardForRendering::new(&vs, 0);
    assert_eq!(buffered.next_move_color(), StoneColor::Red);
    assert!(!buffered.game_ended());
    assert!(buffered.local_player_moves());
    assert_eq!(buffered.score(), [3, 3, 3]);
    assert!(buffered
        .possible_moves()
        .iter()
        .any(|p| p.x_coord == 4 && p.y_coord == 2));
    assert_eq!(buffered.stone_collection().len(), 9);
}

#[test]
fn field_contents_compare_by_value() {
    assert_eq!(FieldContent::Stone(StoneColor::Red), FieldContent::Stone(StoneColor::Red));
    assert_ne!(FieldContent::Empty, FieldContent::Stone(StoneColor::Blue));
    assert!(pos(1, 2).is_valid());
    assert!(!pos(-1, 2).is_valid());
    assert!(!pos(1, 9).is_valid());
}

#[test]
fn tic_tac_toe_finds_wins_and_draws() {
    let mut vs = ttt::ViewState::new(true);
    assert_eq!(vs.game_state, ttt::GameState::Pending);
    // Circle (the host) fills the top row.
    for (col, row) in [(0u8, 0u8), (1, 0), (2, 0)] {
        vs.apply_delta(&ttt::ViewStateDelta {
            is_circle: true,
            column: col,
            row,
        });
        vs.next_move_host = true;
    }
    assert_eq!(vs.game_state, ttt::GameState::CircleWins);
    assert_eq!(vs.check_winning(), ttt::GameState::CircleWins);
}

#[test]
fn tic_tac_toe_backend_alternates_and_restarts() {
    let mut backend = TicTacToeLogic::new(0);
    backend.inform_rpc(0, ttt::StonePlacement { column: 0, row: 0 });
    let commands = backend.drain_commands();
    assert_eq!(commands.len(), 1);
    assert!(matches!(commands[0], BackendCommand::Delta(_)));
    // The same player cannot move twice in a row.
    backend.inform_rpc(0, ttt::StonePlacement { column: 1, row: 0 });
    assert!(backend.drain_commands().is_empty());
    // A move outside the board is refused.
    backend.inform_rpc(1, ttt::StonePlacement { column: 9, row: 0 });
    assert!(backend.drain_commands().is_empty());
    // Without spectators a third player is kicked; the partner's
    // departure ends the room.
    backend.player_arrival(2);
    assert!(matches!(
        backend.drain_commands()[0],
        BackendCommand::KickPlayer { player: 2 }
    ));
    let mut with_spectators = TicTacToeLogic::new(1);
    with_spectators.player_arrival(2);
    assert!(with_spectators.drain_commands().is_empty());
    // The restart timer swaps the starting side and resets the board.
    backend.timer_triggered(0);
    let commands = backend.drain_commands();
    assert!(matches!(commands[0], BackendCommand::ResetViewState));
    assert!(!backend.get_view_state().next_move_host);
}
