//! The backend of the three-color game: all game logic that runs on the
//! host.

use vstd::prelude::*;
use crate::ternio::basic_commands::{DeltaInformation, GameState, RpcPayload};
use crate::ternio::board_representation::StoneColor;
use crate::ternio::view_state::ViewState;
use crate::transport_layer::{BackEndArchitecture, BackendCommand};

verus! {

/// How long a finished game stands before it restarts, in milliseconds.
pub const RESTART_DELAY: u64 = 15000;

/// The game logic of the three-color board game.
pub struct TernioLogic {
    /// The commands the transport layer drains.
    command_list: Vec<BackendCommand<DeltaInformation>>,
    /// The authoritative game representation.
    view_state: ViewState,
    /// The names of the three players, once set; set only once even if
    /// the game restarts.
    player_names: [Option<String>; 3],
}

impl BackEndArchitecture<RpcPayload, DeltaInformation, ViewState> for TernioLogic {
    /// The game has no rule variations.
    fn new(_rule_variation: u16) -> Self {
        TernioLogic {
            command_list: Vec::new(),
            view_state: ViewState::new(),
            player_names: [None, None, None],
        }
    }

    /// Nothing is owed on arrival — the name comes with its own action —
    /// but a fourth player is kicked.
    fn player_arrival(&mut self, player_id: u16) {
        if player_id >= 3 {
            self.command_list.push(BackendCommand::KickPlayer { player: player_id });
        }
    }

    /// When any of the three players leaves, the game cannot continue.
    fn player_departure(&mut self, player_id: u16) {
        if player_id < 3 {
            self.command_list.push(BackendCommand::TerminateRoom);
        }
    }

    /// Handles a player's action after checking it for legality: a name
    /// is recorded (three names open the assignment phase), a color
    /// assignment starts the game with red to move, and a move flips its
    /// runs and passes the turn to the next player able to move — or ends
    /// the game and sets the restart timer.
    fn inform_rpc(&mut self, player: u16, payload: RpcPayload) {
        if !self.view_state.check_legal_execution(player, &payload) {
            return;
        }
        match payload {
            RpcPayload::SetPlayerName(player_name) => {
                self.player_names[player as usize] = Some(player_name);
                let complete = self.player_names[0].is_some() && self.player_names[1].is_some()
                    && self.player_names[2].is_some();
                if complete {
                    let first = name_or_empty(&self.player_names[0]);
                    let second = name_or_empty(&self.player_names[1]);
                    let third = name_or_empty(&self.player_names[2]);
                    let delta = DeltaInformation::SetPlayerNames([first, second, third]);
                    self.view_state.apply_delta(&delta);
                    self.command_list.push(BackendCommand::Delta(delta));
                    let delta = DeltaInformation::SetGameState(GameState::AssigningPlayers);
                    self.view_state.apply_delta(&delta);
                    self.command_list.push(BackendCommand::Delta(delta));
                }
            },
            RpcPayload::SetPlayerColors(player_colors) => {
                let delta = DeltaInformation::SetPlayerColors(player_colors);
                self.view_state.apply_delta(&delta);
                self.command_list.push(BackendCommand::Delta(delta));
                // The red player begins.
                let delta = DeltaInformation::SetGameState(GameState::Move(StoneColor::Red));
                self.view_state.apply_delta(&delta);
                self.command_list.push(BackendCommand::Delta(delta));
            },
            RpcPayload::MakeMove(move_command) => {
                let current_color = move_command.stone_color;
                let delta = DeltaInformation::MakeMove(move_command);
                self.view_state.apply_delta(&delta);
                self.command_list.push(BackendCommand::Delta(delta));
                // The turn passes to the next color that can still move;
                // with none left the game is over.
                let cycle = current_color.cycle_from_next();
                let mut next_phase = GameState::GameOver;
                let mut c: usize = 0;
                let mut found = false;
                while c < 3
                    invariant
                        c <= 3,
                    decreases 3 - c,
                {
                    if !found {
                        let color = cycle[c];
                        let moves = self.view_state.game_board.get_all_legal_moves(color);
                        if moves.len() > 0 {
                            next_phase = GameState::Move(color);
                            found = true;
                        }
                    }
                    c = c + 1;
                }
                let delta = DeltaInformation::SetGameState(next_phase);
                self.view_state.apply_delta(&delta);
                self.command_list.push(BackendCommand::Delta(delta));
                match next_phase {
                    GameState::GameOver => {
                        self.command_list.push(
                            BackendCommand::SetTimer { timer_id: 0, duration: RESTART_DELAY },
                        );
                    },
                    _ => {},
                }
            },
        }
    }

    /// The only timer is the one that restarts a finished game.
    fn timer_triggered(&mut self, _timer_id: u16) {
        self.view_state.reset();
        self.command_list.push(BackendCommand::ResetViewState);
    }

    fn get_view_state(&self) -> &ViewState {
        &self.view_state
    }

    fn drain_commands(&mut self) -> Vec<BackendCommand<DeltaInformation>> {
        let mut drained: Vec<BackendCommand<DeltaInformation>> = Vec::new();
        core::mem::swap(&mut drained, &mut self.command_list);
        drained
    }
}

/// The name, or an empty one where none was set.
fn name_or_empty(name: &Option<String>) -> (r: String)
    ensures
        name matches Some(n) ==> r@ == n@,
{
    match name {
        Some(n) => n.clone(),
        None => String::new(),
    }
}

} // verus!
