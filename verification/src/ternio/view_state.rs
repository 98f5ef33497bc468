//! The view state: the complete game representation that the backend
//! keeps and the clients synchronize to.

use vstd::prelude::*;
use crate::ternio::basic_commands::{DeltaInformation, GameState, RpcPayload};
use crate::ternio::board_representation::{GameBoard, StoneColor, cell, spec_is_legal,
    start_cell, valid_pos, is_flipped, FieldContent};
use vstd::utf8::encode_utf8;

verus! {

/// The central synchronized state: the board, the players' names and
/// colors, and the phase.
#[derive(Clone)]
pub struct ViewState {
    /// The game board.
    pub game_board: GameBoard,
    /// The names of the three players, by player id.
    pub player_names: [String; 3],
    /// The colors of the three players, by player id.
    pub player_colors: [StoneColor; 3],
    /// The phase the game is in.
    pub game_state: GameState,
}

/// Whether a move by the given player is legal in the given state: only
/// the named phases accept the respective actions, a move must come from
/// the player holding the moving color, and the placement itself must be
/// legal on the board.
pub open spec fn legal_execution(vs: ViewState, player_id: u16, rpc: RpcPayload) -> bool {
    &&& player_id < 3
    &&& match rpc {
        RpcPayload::SetPlayerName(_) => vs.game_state == GameState::AwaitingPlayers,
        RpcPayload::SetPlayerColors(_) => player_id == 0 && vs.game_state
            == GameState::AssigningPlayers,
        RpcPayload::MakeMove(placement) => {
            &&& vs.player_colors@[player_id as int] == placement.stone_color
            &&& spec_is_legal(
                vs.game_board,
                placement.field_position.x_coord as int,
                placement.field_position.y_coord as int,
                placement.stone_color,
            )
            &&& vs.game_state == GameState::Move(placement.stone_color)
        },
    }
}

/// What applying a delta does to a view state, for the fields besides
/// the board.
pub open spec fn delta_applied(old_vs: ViewState, new_vs: ViewState, delta: DeltaInformation)
    -> bool {
    match delta {
        DeltaInformation::SetGameState(s) => new_vs.game_state == s && new_vs.game_board
            == old_vs.game_board && new_vs.player_names@ == old_vs.player_names@
            && new_vs.player_colors@ == old_vs.player_colors@,
        DeltaInformation::SetPlayerNames(names) => new_vs.player_names@ == names@
            && new_vs.game_board == old_vs.game_board && new_vs.player_colors@
            == old_vs.player_colors@ && new_vs.game_state == old_vs.game_state,
        DeltaInformation::SetPlayerColors(colors) => new_vs.player_colors@ == colors@
            && new_vs.game_board == old_vs.game_board && new_vs.player_names@
            == old_vs.player_names@ && new_vs.game_state == old_vs.game_state,
        DeltaInformation::MakeMove(placement) => {
            &&& new_vs.player_names@ == old_vs.player_names@
            &&& new_vs.player_colors@ == old_vs.player_colors@
            &&& new_vs.game_state == old_vs.game_state
            &&& forall|x0: int, y0: int|
                valid_pos(x0, y0) ==> #[trigger] cell(new_vs.game_board, x0, y0) == (if (x0
                    == placement.field_position.x_coord as int && y0
                    == placement.field_position.y_coord as int) || is_flipped(
                    old_vs.game_board,
                    placement.field_position.x_coord as int,
                    placement.field_position.y_coord as int,
                    placement.stone_color,
                    x0,
                    y0,
                ) {
                    FieldContent::Stone(placement.stone_color)
                } else {
                    cell(old_vs.game_board, x0, y0)
                })
        },
    }
}

/// Whether some player holds the color.
pub open spec fn has_color(colors: Seq<StoneColor>, c: StoneColor) -> bool {
    exists|i: int| 0 <= i < 3 && colors[i] == c
}

impl ViewState {
    /// The fresh state: the start board, empty names, the default color
    /// assignment, and the waiting phase.
    pub fn new() -> (r: ViewState)
        ensures
            forall|x: int, y: int|
                valid_pos(x, y) ==> #[trigger] cell(r.game_board, x, y) == start_cell(x, y),
            r.player_names@[0]@ == Seq::<char>::empty(),
            r.player_names@[1]@ == Seq::<char>::empty(),
            r.player_names@[2]@ == Seq::<char>::empty(),
            r.player_colors@ == seq![StoneColor::Red, StoneColor::Green, StoneColor::Blue],
            r.game_state == GameState::AwaitingPlayers,
    {
        let mut game_board = GameBoard::new();
        game_board.reset_board();
        let player_colors = [StoneColor::Red, StoneColor::Green, StoneColor::Blue];
        let player_names = [String::new(), String::new(), String::new()];
        proof {
            assert(player_colors@ =~= seq![StoneColor::Red, StoneColor::Green, StoneColor::Blue]);
        }
        ViewState {
            game_board,
            player_names,
            player_colors,
            game_state: GameState::AwaitingPlayers,
        }
    }

    /// The player names ordered by color: red's name first, then green's,
    /// then blue's. Every color must be assigned to some player.
    pub fn get_player_names_in_rgb_sequence(&self) -> (r: [String; 3])
        requires
            has_color(self.player_colors@, StoneColor::Red),
            has_color(self.player_colors@, StoneColor::Green),
            has_color(self.player_colors@, StoneColor::Blue),
        ensures
            exists|j: int|
                0 <= j < 3 && #[trigger] self.player_colors@[j] == StoneColor::Red && r@[0]@
                    == self.player_names@[j]@,
            exists|j: int|
                0 <= j < 3 && #[trigger] self.player_colors@[j] == StoneColor::Green && r@[1]@
                    == self.player_names@[j]@,
            exists|j: int|
                0 <= j < 3 && #[trigger] self.player_colors@[j] == StoneColor::Blue && r@[2]@
                    == self.player_names@[j]@,
    {
        let red = self.name_of_color(StoneColor::Red);
        let green = self.name_of_color(StoneColor::Green);
        let blue = self.name_of_color(StoneColor::Blue);
        let r = [red, green, blue];
        proof {
            assert(r@ =~= seq![r@[0], r@[1], r@[2]]);
        }
        r
    }

    /// The name of the player holding the color.
    fn name_of_color(&self, color: StoneColor) -> (r: String)
        requires
            has_color(self.player_colors@, color),
        ensures
            exists|i: int|
                0 <= i < 3 && #[trigger] self.player_colors@[i] == color && r@
                    == self.player_names@[i]@,
    {
        let mut i: usize = 0;
        while i < 3
            invariant
                i <= 3,
                has_color(self.player_colors@, color),
                forall|j: int| 0 <= j < i ==> self.player_colors@[j] != color,
            decreases 3 - i,
        {
            let c = self.player_colors[i];
            if c == color {
                return self.player_names[i].clone();
            }
            i = i + 1;
        }
        proof {
            assert(false);
        }
        String::new()
    }

    /// A reset: the board starts over, the names stay, and the colors
    /// are assigned anew.
    pub fn reset(&mut self)
        ensures
            forall|x: int, y: int|
                valid_pos(x, y) ==> #[trigger] cell(final(self).game_board, x, y) == start_cell(
                    x,
                    y,
                ),
            final(self).player_names@ == old(self).player_names@,
            final(self).player_colors@ == old(self).player_colors@,
            final(self).game_state == GameState::AssigningPlayers,
    {
        self.game_board.reset_board();
        self.game_state = GameState::AssigningPlayers;
    }

    /// Whether the action of the given player is legal in this state.
    pub fn check_legal_execution(&self, player_id: u16, rpc_payload: &RpcPayload) -> (r: bool)
        ensures
            r == legal_execution(*self, player_id, *rpc_payload),
    {
        if player_id >= 3 {
            return false;
        }
        match rpc_payload {
            RpcPayload::SetPlayerName(_) => {
                match self.game_state {
                    GameState::AwaitingPlayers => true,
                    _ => false,
                }
            },
            RpcPayload::SetPlayerColors(_) => {
                player_id == 0 && match self.game_state {
                    GameState::AssigningPlayers => true,
                    _ => false,
                }
            },
            RpcPayload::MakeMove(move_command) => {
                let right_color = self.player_colors[player_id as usize]
                    == move_command.stone_color;
                let legal_placement = self.game_board.is_legal_move(
                    move_command.field_position,
                    move_command.stone_color,
                );
                let right_phase = match self.game_state {
                    GameState::Move(stone_color) => move_command.stone_color == stone_color,
                    _ => false,
                };
                right_color && legal_placement && right_phase
            },
        }
    }

    /// Applies a delta. A move must be legal on the current board; the
    /// backend checks legality before it emits one.
    pub fn apply_delta(&mut self, delta: &DeltaInformation)
        requires
            delta matches DeltaInformation::MakeMove(placement) ==> spec_is_legal(
                old(self).game_board,
                placement.field_position.x_coord as int,
                placement.field_position.y_coord as int,
                placement.stone_color,
            ),
        ensures
            delta_applied(*old(self), *final(self), *delta),
    {
        match delta {
            DeltaInformation::SetGameState(game_state) => {
                self.game_state = *game_state;
            },
            DeltaInformation::SetPlayerNames(names) => {
                self.player_names = clone_names(names);
            },
            DeltaInformation::SetPlayerColors(colors) => {
                self.player_colors = *colors;
            },
            DeltaInformation::MakeMove(move_command) => {
                self.game_board.set_stone(
                    &move_command.field_position,
                    move_command.stone_color,
                );
            },
        }
    }
}

/// Copies the three names.
fn clone_names(names: &[String; 3]) -> (r: [String; 3])
    ensures
        r@ == names@,
{
    let r = [names[0].clone(), names[1].clone(), names[2].clone()];
    proof {
        assert(r@ =~= names@);
    }
    r
}

/// The byte of a field content: zero for an empty field, the color byte
/// plus one for a stone.
pub open spec fn cell_byte(fc: FieldContent) -> u8 {
    match fc {
        FieldContent::Empty => 0u8,
        FieldContent::Stone(c) => (1 + crate::ternio::basic_commands::color_byte(c)) as u8,
    }
}

/// The field content of a byte; bytes above three carry no content.
pub open spec fn byte_content(b: u8) -> FieldContent {
    if b == 1 {
        FieldContent::Stone(StoneColor::Red)
    } else if b == 2 {
        FieldContent::Stone(StoneColor::Green)
    } else if b == 3 {
        FieldContent::Stone(StoneColor::Blue)
    } else {
        FieldContent::Empty
    }
}

/// The 81 bytes of a board, scanned with x outermost.
pub open spec fn board_wire(b: GameBoard) -> Seq<u8> {
    Seq::new(81, |k: int| cell_byte(cell(b, k / 9, k % 9)))
}

/// The wire form of a view state: the board, the colors and the phase,
/// then the three names.
pub open spec fn view_state_wire(vs: ViewState) -> Seq<u8> {
    board_wire(vs.game_board) + seq![
        crate::ternio::basic_commands::color_byte(vs.player_colors@[0]),
        crate::ternio::basic_commands::color_byte(vs.player_colors@[1]),
        crate::ternio::basic_commands::color_byte(vs.player_colors@[2]),
        crate::ternio::basic_commands::game_state_byte(vs.game_state),
    ] + crate::ternio::basic_commands::names_wire(vs.player_names@)
}

impl crate::transport_layer::SerializationCap for ViewState {
    /// The board, the colors and the phase, then the three names.
    open spec fn wire(&self) -> Seq<u8> {
        view_state_wire(*self)
    }

    fn serialize(&self) -> (r: Vec<u8>) {
        let mut out: Vec<u8> = Vec::new();
        let mut k: usize = 0;
        while k < 81
            invariant
                k <= 81,
                out@.len() == k,
                forall|m: int| 0 <= m < k ==> out@[m] == board_wire(self.game_board)[m],
            decreases 81 - k,
        {
            let x = (k / 9) as i8;
            let y = (k % 9) as i8;
            proof {
                assert(valid_pos(x as int, y as int));
            }
            match self.game_board.fields[(k / 9) as usize][(k % 9) as usize] {
                FieldContent::Empty => out.push(0),
                FieldContent::Stone(StoneColor::Red) => out.push(1),
                FieldContent::Stone(StoneColor::Green) => out.push(2),
                FieldContent::Stone(StoneColor::Blue) => out.push(3),
            }
            k = k + 1;
        }
        crate::ternio::basic_commands::push_color(&mut out, self.player_colors[0]);
        crate::ternio::basic_commands::push_color(&mut out, self.player_colors[1]);
        crate::ternio::basic_commands::push_color(&mut out, self.player_colors[2]);
        crate::ternio::basic_commands::push_game_state(&mut out, self.game_state);
        crate::ternio::basic_commands::push_names(&mut out, &self.player_names);
        proof {
            assert(out@ =~= self.wire());
        }
        out
    }

    fn deserialize_prefix(buf: &Vec<u8>, pos: usize) -> (r: Option<(Self, usize)>) {
        let n = buf.len();
        if n < 85 || pos > n - 85 {
            proof {
                lemma_no_view_state_wire(buf@, pos as int);
            }
            return None;
        }
        let mut board = GameBoard::new();
        let mut k: usize = 0;
        while k < 81
            invariant
                k <= 81,
                pos + 85 <= n,
                n == buf@.len(),
                forall|m: int| 0 <= m < k ==> #[trigger] buf@[pos + m] <= 3,
                forall|x: int, y: int|
                    valid_pos(x, y) ==> #[trigger] cell(board, x, y) == (if x * 9 + y < k {
                        byte_content(buf@[pos + x * 9 + y])
                    } else {
                        FieldContent::Empty
                    }),
            decreases 81 - k,
        {
            let b = buf[pos + k];
            if b > 3 {
                proof {
                    lemma_no_view_state_wire(buf@, pos as int);
                }
                return None;
            }
            let ghost prev = board;
            let x = (k / 9) as i8;
            let y = (k % 9) as i8;
            proof {
                assert(valid_pos(x as int, y as int));
            }
            let spot = crate::ternio::board_representation::FieldPosition {
                x_coord: x,
                y_coord: y,
            };
            if b == 1 {
                board.place_single_stone(&spot, StoneColor::Red);
            } else if b == 2 {
                board.place_single_stone(&spot, StoneColor::Green);
            } else if b == 3 {
                board.place_single_stone(&spot, StoneColor::Blue);
            }
            proof {
                assert forall|x0: int, y0: int|
                    valid_pos(x0, y0) implies #[trigger] cell(board, x0, y0) == (if x0 * 9 + y0 < k
                    + 1 {
                    byte_content(buf@[pos + x0 * 9 + y0])
                } else {
                    FieldContent::Empty
                }) by {
                    if x0 == x as int && y0 == y as int {
                        assert(x0 * 9 + y0 == k);
                    } else {
                        assert(cell(board, x0, y0) == cell(prev, x0, y0));
                        assert(x0 * 9 + y0 != k) by (nonlinear_arith)
                            requires
                                0 <= x0 < 9,
                                0 <= y0 < 9,
                                x as int == k as int / 9,
                                y as int == k as int % 9,
                                0 <= k < 81,
                                !(x0 == x as int && y0 == y as int),
                        ;
                    }
                }
            }
            k = k + 1;
        }
        let c0 = crate::ternio::basic_commands::read_color(buf, pos + 81);
        let Some(a) = c0 else {
            proof {
                lemma_no_view_state_wire(buf@, pos as int);
            }
            return None
        };
        let c1 = crate::ternio::basic_commands::read_color(buf, pos + 82);
        let Some(bb) = c1 else {
            proof {
                lemma_no_view_state_wire(buf@, pos as int);
            }
            return None
        };
        let c2 = crate::ternio::basic_commands::read_color(buf, pos + 83);
        let Some(c) = c2 else {
            proof {
                lemma_no_view_state_wire(buf@, pos as int);
            }
            return None
        };
        let gs = crate::ternio::basic_commands::read_game_state(buf, pos + 84);
        let Some(game_state) = gs else {
            proof {
                lemma_no_view_state_wire(buf@, pos as int);
            }
            return None
        };
        let names = crate::ternio::basic_commands::read_names(buf, pos + 85);
        let Some((player_names, end)) = names else {
            proof {
                lemma_no_view_state_wire(buf@, pos as int);
            }
            return None
        };
        let state = ViewState {
            game_board: board,
            player_names,
            player_colors: [a, bb, c],
            game_state,
        };
        proof {
            let w = view_state_wire(state);
            assert(state.player_colors@ =~= seq![a, bb, c]);
            assert forall|m: int| 0 <= m < 81 implies buf@.subrange(pos as int, end as int)[m]
                == w[m] by {
                let x0 = m / 9;
                let y0 = m % 9;
                assert(valid_pos(x0, y0));
                assert(cell(board, x0, y0) == byte_content(buf@[pos + x0 * 9 + y0]));
                assert(x0 * 9 + y0 == m);
                assert(buf@[pos + m] <= 3);
            }
            assert(buf@.subrange(pos as int, end as int) =~= w);
        }
        Some((state, end))
    }
}

/// When the bytes at `pos` fail the checks the decoder makes, no view
/// state's wire form stands there.
proof fn lemma_no_view_state_wire(bytes: Seq<u8>, pos: int)
    requires
        0 <= pos <= bytes.len(),
        pos + 85 <= bytes.len() ==> {
            &&& (exists|m: int| 0 <= m < 81 && #[trigger] bytes[pos + m] > 3) || {
                &&& (forall|c: StoneColor|
                    bytes[pos + 81] != #[trigger] crate::ternio::basic_commands::color_byte(c))
                    || (forall|c: StoneColor|
                    bytes[pos + 82] != #[trigger] crate::ternio::basic_commands::color_byte(c))
                    || (forall|c: StoneColor|
                    bytes[pos + 83] != #[trigger] crate::ternio::basic_commands::color_byte(c))
                    || (forall|g: GameState|
                    bytes[pos + 84] != #[trigger] crate::ternio::basic_commands::game_state_byte(
                        g,
                    )) || (forall|names: Seq<String>, end: int|
                    #![trigger bytes.subrange(pos + 85, end), crate::ternio::basic_commands::names_wire(names)]
                    pos + 85 <= end <= bytes.len() && names.len() == 3 ==> bytes.subrange(
                        pos + 85,
                        end,
                    ) != crate::ternio::basic_commands::names_wire(names))
            }
        },
    ensures
        forall|v: ViewState, end: int|
            pos <= end <= bytes.len() ==> bytes.subrange(pos, end) != view_state_wire(v),
{
    assert forall|v: ViewState, end: int|
        pos <= end <= bytes.len() implies bytes.subrange(pos, end) != view_state_wire(v) by {
        if bytes.subrange(pos, end) == view_state_wire(v) {
            let w = view_state_wire(v);
            assert(bytes.subrange(pos, end).len() == end - pos);
            assert(crate::ternio::basic_commands::names_wire(v.player_names@).len() >= 6) by {
                crate::ternio::basic_commands::lemma_name_block_len(v.player_names@[0]@);
                crate::ternio::basic_commands::lemma_name_block_len(v.player_names@[1]@);
                crate::ternio::basic_commands::lemma_name_block_len(v.player_names@[2]@);
            }
            assert(end - pos >= 91);
            assert(forall|m: int| 0 <= m < 81 ==> #[trigger] bytes[pos + m] == w[m]);
            assert(forall|m: int|
                0 <= m < 81 ==> #[trigger] w[m] == cell_byte(
                    cell(v.game_board, m / 9, m % 9),
                ));
            assert(forall|m: int| 0 <= m < 81 ==> #[trigger] bytes[pos + m] <= 3);
            let head = board_wire(v.game_board) + seq![
                crate::ternio::basic_commands::color_byte(v.player_colors@[0]),
                crate::ternio::basic_commands::color_byte(v.player_colors@[1]),
                crate::ternio::basic_commands::color_byte(v.player_colors@[2]),
                crate::ternio::basic_commands::game_state_byte(v.game_state),
            ];
            assert(w == head + crate::ternio::basic_commands::names_wire(v.player_names@));
            assert forall|m: int| 81 <= m < 85 implies #[trigger] bytes[pos + m] == head[m] by {
                assert(bytes.subrange(pos, end)[m] == bytes[pos + m]);
                assert(w[m] == head[m]);
            }
            assert(bytes[pos + 81] == crate::ternio::basic_commands::color_byte(
                v.player_colors@[0],
            ));
            assert(bytes[pos + 82] == crate::ternio::basic_commands::color_byte(
                v.player_colors@[1],
            ));
            assert(bytes[pos + 83] == crate::ternio::basic_commands::color_byte(
                v.player_colors@[2],
            ));
            assert(bytes[pos + 84] == crate::ternio::basic_commands::game_state_byte(
                v.game_state,
            ));
            assert(bytes.subrange(pos, end).subrange(85, end - pos) =~= bytes.subrange(
                pos + 85,
                end,
            ));
            assert(w.subrange(85, w.len() as int) =~= crate::ternio::basic_commands::names_wire(
                v.player_names@,
            ));
            assert(bytes.subrange(pos + 85, end) == crate::ternio::basic_commands::names_wire(
                v.player_names@,
            ));
            assert(v.player_names@.len() == 3);
        }
    }
}

} // verus!
