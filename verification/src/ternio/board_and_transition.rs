//! The prepared board data a frontend renders between moves.

use vstd::prelude::*;
use crate::ternio::basic_commands::GameState;
use crate::ternio::board_representation::{FieldPosition, StoneColor, StonePlacement,
    legal_move_seq, placement_seq, count_color};
use crate::ternio::view_state::{ViewState, has_color};

verus! {

/// Everything a frontend needs to draw a still board: the stones, the
/// possible moves of the player to act, the score, and who is next.
pub struct BufferedBoardForRendering {
    /// All stones standing on the board.
    pub stone_collection: Vec<StonePlacement>,
    /// The possible upcoming moves.
    pub possible_moves: Vec<FieldPosition>,
    /// The color to move next; it colors the move markers.
    pub next_move_color: StoneColor,
    /// The score per color in red-green-blue order.
    pub score: [i8; 3],
    /// Whether the game has ended.
    pub game_ended: bool,
    /// The name of the player to move, by color order.
    pub next_player_name: String,
    /// Whether the local player is the one to move.
    pub local_player_moves: bool,
    /// All player names in red-green-blue order.
    pub player_names: [String; 3],
}

impl BufferedBoardForRendering {
    /// Prepares the board data from the view state for the local player
    /// with the given id. The game must stand in a move phase or be
    /// over, and every color must be assigned.
    pub fn new(view_state: &ViewState, player_id: u16) -> (r: BufferedBoardForRendering)
        requires
            view_state.game_state matches GameState::Move(_) || view_state.game_state
                == GameState::GameOver,
            has_color(view_state.player_colors@, StoneColor::Red),
            has_color(view_state.player_colors@, StoneColor::Green),
            has_color(view_state.player_colors@, StoneColor::Blue),
            player_id < 3,
        ensures
            r.stone_collection@ == placement_seq(view_state.game_board, 81),
            (view_state.game_state matches GameState::Move(c) ==> r.possible_moves@
                == legal_move_seq(view_state.game_board, c, 81) && r.next_move_color == c),
            r.game_ended == (view_state.game_state == GameState::GameOver),
            r.score@[0] == count_color(view_state.game_board, StoneColor::Red, 81),
            r.score@[1] == count_color(view_state.game_board, StoneColor::Green, 81),
            r.score@[2] == count_color(view_state.game_board, StoneColor::Blue, 81),
    {
        let player_names = view_state.get_player_names_in_rgb_sequence();
        let (next_move, game_ended) = match view_state.game_state {
            GameState::Move(color) => (color, false),
            _ => (StoneColor::Red, true),
        };
        let next_player_name = match view_state.game_state {
            GameState::Move(color) => match color {
                StoneColor::Red => player_names[0].clone(),
                StoneColor::Green => player_names[1].clone(),
                StoneColor::Blue => player_names[2].clone(),
            },
            _ => String::new(),
        };
        let local_player_moves = !game_ended && view_state.player_colors[player_id as usize]
            == next_move;
        let stone_collection = view_state.game_board.get_stone_placement();
        let possible_moves = view_state.game_board.get_all_legal_moves(next_move);
        let score = view_state.game_board.get_score();
        BufferedBoardForRendering {
            stone_collection,
            possible_moves,
            next_move_color: next_move,
            score,
            game_ended,
            next_player_name,
            local_player_moves,
            player_names,
        }
    }

    /// The possible moves of the player to act.
    pub fn possible_moves(&self) -> (r: &Vec<FieldPosition>)
        ensures
            r@ == self.possible_moves@,
    {
        &self.possible_moves
    }

    /// The stones standing on the board.
    pub fn stone_collection(&self) -> (r: &Vec<StonePlacement>)
        ensures
            r@ == self.stone_collection@,
    {
        &self.stone_collection
    }

    /// The color to move next.
    pub fn next_move_color(&self) -> (r: StoneColor)
        ensures
            r == self.next_move_color,
    {
        self.next_move_color
    }

    /// The score per color in red-green-blue order.
    pub fn score(&self) -> (r: [i8; 3])
        ensures
            r@ == self.score@,
    {
        let r = [self.score[0], self.score[1], self.score[2]];
        proof {
            assert(r@ =~= self.score@);
        }
        r
    }

    /// Whether the game has ended.
    pub fn game_ended(&self) -> (r: bool)
        ensures
            r == self.game_ended,
    {
        self.game_ended
    }

    /// The name of the player to move; empty when the game is over.
    pub fn next_player_name(&self) -> (r: &String)
        ensures
            r@ == self.next_player_name@,
    {
        &self.next_player_name
    }

    /// Whether the local player is the one to move.
    pub fn local_player_moves(&self) -> (r: bool)
        ensures
            r == self.local_player_moves,
    {
        self.local_player_moves
    }

    /// All player names in red-green-blue order.
    pub fn player_names(&self) -> (r: &[String; 3])
        ensures
            r@ == self.player_names@,
    {
        &self.player_names
    }
}

} // verus!
