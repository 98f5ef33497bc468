//! The timer wheel and the session transport, driven frame by frame with
//! the small board game as its backend.

use relay_hub::tic_tac_toe::backend::TicTacToeLogic;
use relay_hub::tic_tac_toe::traits_implementation::{StonePlacement, ViewState, ViewStateDelta};
use relay_hub::timer::Timer;
use relay_hub::transport_layer::{
    process_backend_commands, BackendCommand, ConnectionState, SerializationCap, TimerOp,
    TransportLayer, ViewStateUpdate,
};

type Session = TransportLayer<StonePlacement, ViewStateDelta, TicTacToeLogic, ViewState>;

fn delta(is_circle: bool, column: u8, row: u8) -> ViewStateDelta {
    ViewStateDelta {
        is_circle,
        column,
        row,
    }
}

#[test]
fn timer_fires_at_its_duration_in_insertion_order() {
    let mut timer = Timer::new();
    timer.start_timer(1, 50);
    timer.start_timer(2, 30);
    assert_eq!(timer.update_and_get_list(10), Vec::<u16>::new());
    assert_eq!(timer.update_and_get_list(20), vec![2]);
    assert_eq!(timer.update_and_get_list(20), vec![1]);
    assert_eq!(timer.update_and_get_list(1000), Vec::<u16>::new());
}

#[test]
fn timer_replacement_restarts_the_clock() {
    let mut timer = Timer::new();
    timer.start_timer(1, 10);
    assert_eq!(timer.update_and_get_list(6), Vec::<u16>::new());
    // Setting the id again replaces the timer: only the new duration
    // counts from here on.
    timer.start_timer(1, 10);
    assert_eq!(timer.update_and_get_list(6), Vec::<u16>::new());
    assert_eq!(timer.update_and_get_list(4), vec![1]);
}

#[test]
fn timer_cancel_is_idempotent_and_final() {
    let mut timer = Timer::new();
    // Cancelling an id that was never set changes nothing.
    timer.cancel_timer(9);
    assert_eq!(timer.update_and_get_list(100), Vec::<u16>::new());
    // Set then cancel: no later tick fires the id.
    timer.start_timer(3, 10);
    timer.cancel_timer(3);
    assert_eq!(timer.update_and_get_list(11), Vec::<u16>::new());
}

#[test]
fn reset_coalesces_the_dispatch() {
    let mut commands: Vec<BackendCommand<ViewStateDelta>> = vec![
        BackendCommand::Delta(delta(true, 0, 0)),
        BackendCommand::Delta(delta(false, 1, 0)),
        BackendCommand::ResetViewState,
        BackendCommand::Delta(delta(true, 2, 0)),
    ];
    let dispatch = process_backend_commands(&mut commands);
    assert!(dispatch.reset);
    assert!(!dispatch.terminate);
    assert_eq!(dispatch.deltas.len(), 3);
    assert_eq!(dispatch.kicks.len(), 0);
}

#[test]
fn termination_cuts_the_dispatch_short() {
    let mut commands: Vec<BackendCommand<ViewStateDelta>> = vec![
        BackendCommand::SetTimer {
            timer_id: 4,
            duration: 100,
        },
        BackendCommand::CancelTimer { timer_id: 4 },
        BackendCommand::TerminateRoom,
        BackendCommand::KickPlayer { player: 2 },
    ];
    let dispatch = process_backend_commands(&mut commands);
    assert!(dispatch.terminate);
    assert_eq!(
        dispatch.timer_ops,
        vec![
            TimerOp::Start {
                timer_id: 4,
                duration: 100
            },
            TimerOp::Cancel { timer_id: 4 }
        ]
    );
    // The kick came after the termination and is dropped.
    assert_eq!(dispatch.kicks.len(), 0);
}

fn connect_host() -> Session {
    let mut session = Session::generate_transport_layer(
        "ws://relay.invalid/ws".to_string(),
        "tic-tac-toe".to_string(),
    );
    session.start_game_server("r1".to_string(), 0);
    let opening = session.update(0, Ok(vec![]));
    // The one frame of the opening tick is the join request.
    assert_eq!(opening.frames.len(), 1);
    let granted = session.update(0, Ok(vec![vec![6, 0, 0, 0, 0]]));
    assert_eq!(granted.frames.len(), 0);
    assert!(matches!(
        session.connection_state(),
        ConnectionState::Connected {
            is_server: true,
            player_id: 0,
            ..
        }
    ));
    session
}

#[test]
fn host_session_lifecycle() {
    let mut session = connect_host();
    // The freshly hosted game hands the frontend its first snapshot.
    match session.get_next_update() {
        Some(ViewStateUpdate::Full(state)) => {
            assert!(state.next_move_host);
        }
        _ => panic!("the host starts with a full snapshot"),
    }
    // With no remote player a local move stays local: one incremental
    // update, no frames.
    session.register_server_rpc(StonePlacement { column: 0, row: 0 });
    let tick = session.update(16, Ok(vec![]));
    assert_eq!(tick.frames.len(), 0);
    match session.get_next_update() {
        Some(ViewStateUpdate::Incremental(d)) => {
            assert!(d.is_circle);
            assert_eq!((d.column, d.row), (0, 0));
        }
        _ => panic!("the move comes back as one incremental update"),
    }
    // A joiner announced by the relay earns a full sync, last in the
    // tick.
    let tick = session.update(16, Ok(vec![vec![0, 0, 1]]));
    assert_eq!(tick.frames.len(), 1);
    assert_eq!(tick.frames[0][0], 3);
    // The remote player moves: the relay delivers the RPC with the id
    // spliced in; the host answers with one delta bundle.
    let placement = StonePlacement { column: 1, row: 1 };
    let mut rpc = vec![2, 0, 1];
    rpc.extend(placement.serialize());
    let tick = session.update(16, Ok(vec![rpc]));
    assert_eq!(tick.frames.len(), 1);
    assert_eq!(tick.frames[0][0], 2);
    // The bundle holds exactly the one encoded delta.
    assert_eq!(&tick.frames[0][1..], &delta(false, 1, 1).serialize()[..]);
}

#[test]
fn finished_game_restarts_with_one_reset_frame() {
    let mut session = connect_host();
    session.get_next_update();
    // One remote player joins so that broadcasts actually leave.
    session.update(16, Ok(vec![vec![0, 0, 1]]));
    // Circle (the host) and cross alternate until circle fills row 0.
    let moves: [(u16, u8, u8); 5] = [(0, 0, 0), (1, 0, 1), (0, 1, 0), (1, 1, 1), (0, 2, 0)];
    for (player, column, row) in moves {
        if player == 0 {
            session.register_server_rpc(StonePlacement { column, row });
            session.update(16, Ok(vec![]));
        } else {
            let mut rpc = vec![2, 0, 1];
            rpc.extend(StonePlacement { column, row }.serialize());
            session.update(16, Ok(vec![rpc]));
        }
    }
    // The win set the restart timer; when its delay has elapsed the
    // backend resets, and the whole tick leaves as one reset frame:
    // no delta and no full sync ride along.
    let tick = session.update(5000, Ok(vec![]));
    assert_eq!(tick.frames.len(), 1);
    assert_eq!(tick.frames[0][0], 4);
    // The frontend queue ends in exactly one snapshot for this tick.
    let mut last = None;
    while let Some(update) = session.get_next_update() {
        last = Some(update);
    }
    match last {
        Some(ViewStateUpdate::Full(state)) => {
            // The restart alternates the starting side.
            assert!(!state.next_move_host);
        }
        _ => panic!("the reset tick ends in one full snapshot"),
    }
    // A tick short of the timer would not have fired it: the wheel
    // counts only the time handed in.
    let tick = session.update(16, Ok(vec![]));
    assert!(tick.frames.is_empty());
}

#[test]
fn host_session_rejects_lawless_inbox_frames() {
    // A frame outside the relay-to-host rules ends the session.
    let mut session = connect_host();
    let tick = session.update(16, Ok(vec![vec![9, 9, 9]]));
    assert!(tick.frames.is_empty());
    assert!(matches!(
        session.connection_state(),
        ConnectionState::Disconnected {
            error_string: Some(_)
        }
    ));
    // An error frame in the inbox carries its text out as the reason.
    let mut session = connect_host();
    let mut error = vec![5u8];
    error.extend("room fell over".as_bytes());
    session.update(16, Ok(vec![error]));
    match session.connection_state() {
        ConnectionState::Disconnected { error_string } => {
            assert_eq!(error_string.as_deref(), Some("room fell over"));
        }
        _ => panic!("an error frame ends the session"),
    }
}

#[test]
fn host_session_ignores_bytes_after_an_rpc_payload() {
    // The body of an action frame opens with one encoded payload; what
    // follows it is not interpreted.
    let mut session = connect_host();
    session.get_next_update();
    session.update(16, Ok(vec![vec![0, 0, 1]]));
    let placement = StonePlacement { column: 1, row: 1 };
    let mut rpc = vec![2, 0, 1];
    rpc.extend(placement.serialize());
    rpc.push(77);
    // The host is circle and moves first; hand it a move so the remote
    // player's turn comes.
    session.register_server_rpc(StonePlacement { column: 0, row: 0 });
    session.update(16, Ok(vec![]));
    let tick = session.update(16, Ok(vec![rpc]));
    assert!(matches!(
        session.connection_state(),
        ConnectionState::Connected { .. }
    ));
    assert_eq!(tick.frames.len(), 1);
    assert_eq!(tick.frames[0][0], 2);
    assert_eq!(&tick.frames[0][1..], &delta(false, 1, 1).serialize()[..]);
}

#[test]
fn host_disconnect_sends_the_closing_frame() {
    let mut session = connect_host();
    let frame = session.disconnect().expect("a connected host may leave");
    assert_eq!(frame, vec![0]);
    assert!(matches!(
        session.connection_state(),
        ConnectionState::Disconnected { .. }
    ));
    // A second disconnect is a no-op.
    assert!(session.disconnect().is_none());
}

fn connect_client() -> Session {
    let mut session = Session::generate_transport_layer(
        "ws://relay.invalid/ws".to_string(),
        "tic-tac-toe".to_string(),
    );
    session.start_game_client("r1".to_string());
    session.update(0, Ok(vec![]));
    session.update(0, Ok(vec![vec![6, 0, 1, 0, 0]]));
    assert!(matches!(
        session.connection_state(),
        ConnectionState::Connected {
            is_server: false,
            player_id: 1,
            ..
        }
    ));
    session
}

#[test]
fn client_session_sends_rpc_frames_and_decodes_bundles() {
    let mut session = connect_client();
    session.register_server_rpc(StonePlacement { column: 2, row: 2 });
    let tick = session.update(16, Ok(vec![]));
    assert_eq!(tick.frames, vec![vec![2, 2, 2]]);

    // A delta bundle of two encoded deltas becomes two incremental
    // updates, in order.
    let mut bundle = vec![2u8];
    bundle.extend(delta(true, 0, 0).serialize());
    bundle.extend(delta(false, 1, 0).serialize());
    session.update(16, Ok(vec![bundle]));
    match session.get_next_update() {
        Some(ViewStateUpdate::Incremental(d)) => assert_eq!((d.column, d.row), (0, 0)),
        _ => panic!("the first delta comes first"),
    }
    match session.get_next_update() {
        Some(ViewStateUpdate::Incremental(d)) => assert_eq!((d.column, d.row), (1, 0)),
        _ => panic!("the second delta follows"),
    }

    // A full update becomes one snapshot.
    let fresh = ViewState::new(false);
    let mut full = vec![3u8];
    full.extend(fresh.serialize());
    session.update(16, Ok(vec![full]));
    match session.get_next_update() {
        Some(ViewStateUpdate::Full(state)) => assert!(!state.next_move_host),
        _ => panic!("a full update becomes one snapshot"),
    }
}

#[test]
fn client_session_ends_on_error_frames() {
    let mut session = connect_client();
    let mut error = vec![5u8];
    error.extend("room closed".as_bytes());
    session.update(16, Ok(vec![error]));
    match session.connection_state() {
        ConnectionState::Disconnected { error_string } => {
            assert_eq!(error_string.as_deref(), Some("room closed"));
        }
        _ => panic!("an error frame ends the session"),
    }
}

#[test]
fn transport_failure_ends_the_session() {
    let mut session = connect_client();
    session.update(16, Err("Connection lost".to_string()));
    match session.connection_state() {
        ConnectionState::Disconnected { error_string } => {
            assert_eq!(error_string.as_deref(), Some("Connection lost"));
        }
        _ => panic!("a transport failure ends the session"),
    }
}

#[test]
fn handshake_refusal_carries_the_reason() {
    let mut session = Session::generate_transport_layer(
        "ws://relay.invalid/ws".to_string(),
        "tic-tac-toe".to_string(),
    );
    session.start_game_client("r1".to_string());
    session.update(0, Ok(vec![]));
    let mut refusal = vec![5u8];
    refusal.extend("Room r1 does not exist for game tic-tac-toe.".as_bytes());
    session.update(0, Ok(vec![refusal]));
    match session.connection_state() {
        ConnectionState::Disconnected { error_string } => {
            assert_eq!(
                error_string.as_deref(),
                Some("Room r1 does not exist for game tic-tac-toe.")
            );
        }
        _ => panic!("a refused handshake ends the session"),
    }
}
