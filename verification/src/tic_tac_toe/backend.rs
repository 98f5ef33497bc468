//! The backend of tic-tac-toe: the part that runs only on the host.

use vstd::prelude::*;
use crate::tic_tac_toe::traits_implementation::{GameState, StonePlacement, ViewState,
    ViewStateDelta, spec_winning, cell};
use crate::transport_layer::{BackEndArchitecture, BackendCommand};

verus! {

/// How long a finished game stands before the board restarts, in
/// milliseconds.
pub const RESTART_DELAY: u64 = 5000;

/// The game logic of tic-tac-toe.
pub struct TicTacToeLogic {
    /// The commands the transport layer drains.
    command_list: Vec<BackendCommand<ViewStateDelta>>,
    /// The complete game representation.
    view_state: ViewState,
    /// Whether the host begins the next game.
    is_host_starting: bool,
    /// Whether players beyond the two contestants may watch.
    allow_spectators: bool,
}

impl TicTacToeLogic {
    /// The board of the backend's view state is always well-formed.
    #[verifier::type_invariant]
    closed spec fn wf(self) -> bool {
        self.view_state.wf()
    }

    /// Restarts the game and asks every client to reset its view.
    fn reset_game(&mut self) {
        proof {
            use_type_invariant(&*self);
        }
        let mut commands: Vec<BackendCommand<ViewStateDelta>> = Vec::new();
        core::mem::swap(&mut commands, &mut self.command_list);
        commands.push(BackendCommand::ResetViewState);
        core::mem::swap(&mut commands, &mut self.command_list);
        self.view_state = ViewState::new(self.is_host_starting);
    }
}

impl BackEndArchitecture<StonePlacement, ViewStateDelta, ViewState> for TicTacToeLogic {
    /// Starts the game; the rule variation says whether spectators are
    /// allowed.
    fn new(rule_variation: u16) -> Self {
        TicTacToeLogic {
            is_host_starting: true,
            command_list: Vec::new(),
            view_state: ViewState::new(true),
            allow_spectators: rule_variation == 1,
        }
    }

    /// Without spectators every player beyond the two contestants is
    /// kicked.
    fn player_arrival(&mut self, player: u16) {
        proof {
            use_type_invariant(&*self);
        }
        if !self.allow_spectators && player > 1 {
            let mut commands: Vec<BackendCommand<ViewStateDelta>> = Vec::new();
            core::mem::swap(&mut commands, &mut self.command_list);
            commands.push(BackendCommand::KickPlayer { player });
            core::mem::swap(&mut commands, &mut self.command_list);
        }
    }

    /// When the playing partner leaves the game cannot continue.
    fn player_departure(&mut self, player: u16) {
        proof {
            use_type_invariant(&*self);
        }
        if player == 1 {
            let mut commands: Vec<BackendCommand<ViewStateDelta>> = Vec::new();
            core::mem::swap(&mut commands, &mut self.command_list);
            commands.push(BackendCommand::TerminateRoom);
            core::mem::swap(&mut commands, &mut self.command_list);
        }
    }

    /// Checks a move for legality; a legal one is applied and announced,
    /// and a finished game schedules its restart.
    fn inform_rpc(&mut self, player_id: u16, payload: StonePlacement) {
        proof {
            use_type_invariant(&*self);
        }
        if payload.row >= 3 || payload.column >= 3 {
            // A move outside the board is refused like any illegal move.
            return;
        }
        match self.view_state.game_state {
            GameState::Pending => {},
            _ => {
                return;
            },
        }
        if !self.view_state.check_legality(&payload, player_id) {
            return;
        }
        let delta = ViewStateDelta {
            is_circle: player_id == 0,
            column: payload.column,
            row: payload.row,
        };
        let mut working = ViewState::new(true);
        core::mem::swap(&mut working, &mut self.view_state);
        working.apply_delta(&delta);
        core::mem::swap(&mut working, &mut self.view_state);
        let mut commands: Vec<BackendCommand<ViewStateDelta>> = Vec::new();
        core::mem::swap(&mut commands, &mut self.command_list);
        commands.push(BackendCommand::Delta(delta));
        match self.view_state.game_state {
            GameState::Pending => {},
            _ => {
                commands.push(BackendCommand::SetTimer { timer_id: 0, duration: RESTART_DELAY });
            },
        }
        core::mem::swap(&mut commands, &mut self.command_list);
    }

    /// The only timer is the one that restarts a finished game; the
    /// starting side alternates.
    fn timer_triggered(&mut self, _timer_id: u16) {
        proof {
            use_type_invariant(&*self);
        }
        self.is_host_starting = !self.is_host_starting;
        self.reset_game();
    }

    fn get_view_state(&self) -> &ViewState {
        &self.view_state
    }

    fn drain_commands(&mut self) -> Vec<BackendCommand<ViewStateDelta>> {
        proof {
            use_type_invariant(&*self);
        }
        let mut drained: Vec<BackendCommand<ViewStateDelta>> = Vec::new();
        core::mem::swap(&mut drained, &mut self.command_list);
        drained
    }
}

} // verus!
