//! The game data of tic-tac-toe: the board as the view state, the move
//! as the action, and the single-cell change as the delta, each with its
//! wire form.

use vstd::prelude::*;
use crate::transport_layer::SerializationCap;

verus! {

/// The change of one cell: who moved and where.
#[derive(Clone)]
pub struct ViewStateDelta {
    /// Whether the mover plays circle (the host) or cross.
    pub is_circle: bool,
    /// The column of the move.
    pub column: u8,
    /// The row of the move.
    pub row: u8,
}

/// A player's wish to place a stone.
#[derive(Clone)]
pub struct StonePlacement {
    /// The column of the move.
    pub column: u8,
    /// The row of the move.
    pub row: u8,
}

/// How the game stands.
#[derive(Clone, Copy, PartialEq, Eq, Structural, Debug)]
pub enum GameState {
    /// The game is running.
    Pending,
    /// Cross has three in a line.
    CrossWins,
    /// Circle has three in a line.
    CircleWins,
    /// The board is full and nobody won.
    Draw,
}

/// The complete game representation: the raw board (0 empty, 1 cross,
/// 2 circle), whose move is next, and how the game stands.
#[derive(Clone)]
pub struct ViewState {
    /// The rows of the board, each of three cells.
    pub board: Vec<Vec<u8>>,
    /// Whether the next move is the host's.
    pub next_move_host: bool,
    /// How the game stands.
    pub game_state: GameState,
}

/// The board is three rows of three cells.
pub open spec fn board_wf(board: Seq<Vec<u8>>) -> bool {
    board.len() == 3 && forall|i: int| 0 <= i < 3 ==> (#[trigger] board[i])@.len() == 3
}

/// The cell of the board at the given row and column.
pub open spec fn cell(board: Seq<Vec<u8>>, row: int, col: int) -> u8 {
    board[row]@[col]
}

/// Whether the row is filled with the probe stone.
pub open spec fn row_filled(board: Seq<Vec<u8>>, row: int, probe: u8) -> bool {
    forall|col: int| 0 <= col < 3 ==> #[trigger] cell(board, row, col) == probe
}

/// Whether the column is filled with the probe stone.
pub open spec fn col_filled(board: Seq<Vec<u8>>, col: int, probe: u8) -> bool {
    forall|row: int| 0 <= row < 3 ==> #[trigger] cell(board, row, col) == probe
}

/// Whether the probe stone holds a full row, column or diagonal.
pub open spec fn spec_check_for(board: Seq<Vec<u8>>, probe: u8) -> bool {
    ||| exists|row: int| 0 <= row < 3 && #[trigger] row_filled(board, row, probe)
    ||| exists|col: int| 0 <= col < 3 && #[trigger] col_filled(board, col, probe)
    ||| forall|i: int| 0 <= i < 3 ==> #[trigger] cell(board, i, i) == probe
    ||| forall|i: int| 0 <= i < 3 ==> #[trigger] cell(board, i, 2 - i) == probe
}

/// Whether every cell holds a stone.
pub open spec fn board_full(board: Seq<Vec<u8>>) -> bool {
    forall|row: int, col: int| 0 <= row < 3 && 0 <= col < 3 ==> #[trigger] cell(board, row, col)
        != 0
}

/// How a board stands: a cross win, a circle win, a draw, or pending.
pub open spec fn spec_winning(board: Seq<Vec<u8>>) -> GameState {
    if spec_check_for(board, 1) {
        GameState::CrossWins
    } else if spec_check_for(board, 2) {
        GameState::CircleWins
    } else if board_full(board) {
        GameState::Draw
    } else {
        GameState::Pending
    }
}

impl ViewState {
    /// The board is well-formed.
    pub open spec fn wf(self) -> bool {
        board_wf(self.board@)
    }

    /// A fresh, empty board, with the given side to begin.
    pub fn new(is_host_starting: bool) -> (r: ViewState)
        ensures
            r.wf(),
            forall|row: int, col: int|
                0 <= row < 3 && 0 <= col < 3 ==> #[trigger] cell(r.board@, row, col) == 0,
            r.next_move_host == is_host_starting,
            r.game_state == GameState::Pending,
    {
        let mut board: Vec<Vec<u8>> = Vec::new();
        let mut i: usize = 0;
        while i < 3
            invariant
                i <= 3,
                board@.len() == i,
                forall|k: int| 0 <= k < i ==> (#[trigger] board@[k])@ =~= seq![0u8, 0u8, 0u8],
            decreases 3 - i,
        {
            let mut column: Vec<u8> = Vec::new();
            column.push(0);
            column.push(0);
            column.push(0);
            proof {
                assert(column@ =~= seq![0u8, 0u8, 0u8]);
            }
            board.push(column);
            i = i + 1;
        }
        ViewState { board, game_state: GameState::Pending, next_move_host: is_host_starting }
    }

    /// Applies one move: the cell is set, the turn passes, and the game
    /// state is judged anew.
    pub fn apply_delta(&mut self, delta: &ViewStateDelta)
        requires
            old(self).wf(),
            delta.row < 3,
            delta.column < 3,
        ensures
            final(self).wf(),
            cell(final(self).board@, delta.row as int, delta.column as int) == (if delta.is_circle {
                2u8
            } else {
                1u8
            }),
            forall|row: int, col: int|
                0 <= row < 3 && 0 <= col < 3 && !(row == delta.row as int && col
                    == delta.column as int) ==> #[trigger] cell(final(self).board@, row, col)
                    == cell(old(self).board@, row, col),
            final(self).next_move_host == !old(self).next_move_host,
            final(self).game_state == spec_winning(final(self).board@),
    {
        let stone: u8 = if delta.is_circle {
            2
        } else {
            1
        };
        let row = &mut self.board[delta.row as usize];
        row[delta.column as usize] = stone;
        self.next_move_host = !self.next_move_host;
        self.game_state = self.check_winning();
    }

    /// Whether the move is legal: the right player's turn and a free
    /// cell.
    pub fn check_legality(&self, move_data: &StonePlacement, player_id: u16) -> (r: bool)
        requires
            self.wf(),
            move_data.row < 3,
            move_data.column < 3,
        ensures
            r == (player_id <= 1 && (player_id == 0) == self.next_move_host && cell(
                self.board@,
                move_data.row as int,
                move_data.column as int,
            ) == 0),
    {
        if player_id > 1 {
            return false;
        }
        if (player_id == 0) != self.next_move_host {
            return false;
        }
        if self.board[move_data.row as usize][move_data.column as usize] != 0 {
            return false;
        }
        true
    }

    /// Whether the probe stone holds a full row, column or diagonal.
    fn check_for(&self, probe: u8) -> (r: bool)
        requires
            self.wf(),
        ensures
            r == spec_check_for(self.board@, probe),
    {
        let b = &self.board;
        let row_win = (b[0][0] == probe && b[0][1] == probe && b[0][2] == probe) || (b[1][0]
            == probe && b[1][1] == probe && b[1][2] == probe) || (b[2][0] == probe && b[2][1]
            == probe && b[2][2] == probe);
        let col_win = (b[0][0] == probe && b[1][0] == probe && b[2][0] == probe) || (b[0][1]
            == probe && b[1][1] == probe && b[2][1] == probe) || (b[0][2] == probe && b[1][2]
            == probe && b[2][2] == probe);
        let diag_win = (b[0][0] == probe && b[1][1] == probe && b[2][2] == probe) || (b[0][2]
            == probe && b[1][1] == probe && b[2][0] == probe);
        let r = row_win || col_win || diag_win;
        proof {
            if r {
                if row_win {
                    if b@[0]@[0] == probe && b@[0]@[1] == probe && b@[0]@[2] == probe {
                        assert(row_filled(b@, 0, probe));
                    } else if b@[1]@[0] == probe && b@[1]@[1] == probe && b@[1]@[2] == probe {
                        assert(row_filled(b@, 1, probe));
                    } else {
                        assert(row_filled(b@, 2, probe));
                    }
                } else if col_win {
                    if b@[0]@[0] == probe && b@[1]@[0] == probe && b@[2]@[0] == probe {
                        assert(col_filled(b@, 0, probe));
                    } else if b@[0]@[1] == probe && b@[1]@[1] == probe && b@[2]@[1] == probe {
                        assert(col_filled(b@, 1, probe));
                    } else {
                        assert(col_filled(b@, 2, probe));
                    }
                } else {
                    if b@[0]@[0] == probe && b@[1]@[1] == probe && b@[2]@[2] == probe {
                        assert(forall|i: int| 0 <= i < 3 ==> #[trigger] cell(b@, i, i) == probe);
                    } else {
                        assert(forall|i: int|
                            0 <= i < 3 ==> #[trigger] cell(b@, i, 2 - i) == probe);
                    }
                }
            } else {
                if spec_check_for(b@, probe) {
                    assert(false) by {
                        if exists|row: int| 0 <= row < 3 && #[trigger] row_filled(b@, row, probe) {
                            let row = choose|row: int|
                                0 <= row < 3 && #[trigger] row_filled(b@, row, probe);
                            assert(cell(b@, row, 0) == probe && cell(b@, row, 1) == probe && cell(
                                b@,
                                row,
                                2,
                            ) == probe);
                        } else if exists|col: int|
                            0 <= col < 3 && #[trigger] col_filled(b@, col, probe) {
                            let col = choose|col: int|
                                0 <= col < 3 && #[trigger] col_filled(b@, col, probe);
                            assert(cell(b@, 0, col) == probe && cell(b@, 1, col) == probe && cell(
                                b@,
                                2,
                                col,
                            ) == probe);
                        } else if forall|i: int| 0 <= i < 3 ==> #[trigger] cell(b@, i, i)
                            == probe {
                            assert(cell(b@, 0, 0) == probe && cell(b@, 1, 1) == probe && cell(
                                b@,
                                2,
                                2,
                            ) == probe);
                        } else {
                            assert(forall|i: int|
                                0 <= i < 3 ==> #[trigger] cell(b@, i, 2 - i) == probe);
                            assert(cell(b@, 0, 2 - 0) == probe && cell(b@, 1, 2 - 1) == probe
                                && cell(b@, 2, 2 - 2) == probe);
                        }
                    }
                }
            }
        }
        r
    }

    /// Judges the board: a cross win, a circle win, a draw, or pending.
    pub fn check_winning(&self) -> (r: GameState)
        requires
            self.wf(),
        ensures
            r == spec_winning(self.board@),
    {
        if self.check_for(1) {
            return GameState::CrossWins;
        }
        if self.check_for(2) {
            return GameState::CircleWins;
        }
        let mut row: usize = 0;
        while row < 3
            invariant
                row <= 3,
                self.wf(),
                !spec_check_for(self.board@, 1),
                !spec_check_for(self.board@, 2),
                forall|r0: int, c0: int|
                    0 <= r0 < row && 0 <= c0 < 3 ==> #[trigger] cell(self.board@, r0, c0) != 0,
            decreases 3 - row,
        {
            let mut col: usize = 0;
            while col < 3
                invariant
                    row < 3,
                    col <= 3,
                    self.wf(),
                    !spec_check_for(self.board@, 1),
                    !spec_check_for(self.board@, 2),
                    forall|r0: int, c0: int|
                        0 <= r0 < row && 0 <= c0 < 3 ==> #[trigger] cell(self.board@, r0, c0)
                            != 0,
                    forall|c0: int|
                        0 <= c0 < col ==> #[trigger] cell(self.board@, row as int, c0) != 0,
                decreases 3 - col,
            {
                if self.board[row][col] == 0 {
                    proof {
                        assert(cell(self.board@, row as int, col as int) == 0);
                        assert(!board_full(self.board@));
                    }
                    return GameState::Pending;
                }
                col = col + 1;
            }
            row = row + 1;
        }
        GameState::Draw
    }
}

/// The byte of a flag: 1 for true, 0 for false.
pub open spec fn flag_byte(b: bool) -> u8 {
    if b {
        1u8
    } else {
        0u8
    }
}

/// The byte of a game state.
pub open spec fn state_byte(s: GameState) -> u8 {
    match s {
        GameState::Pending => 0u8,
        GameState::CrossWins => 1u8,
        GameState::CircleWins => 2u8,
        GameState::Draw => 3u8,
    }
}

impl SerializationCap for StonePlacement {
    /// Two bytes: the column, then the row.
    open spec fn wire(&self) -> Seq<u8> {
        seq![self.column, self.row]
    }

    fn serialize(&self) -> (r: Vec<u8>) {
        let mut out: Vec<u8> = Vec::new();
        out.push(self.column);
        out.push(self.row);
        proof {
            assert(out@ =~= self.wire());
        }
        out
    }

    fn deserialize_prefix(buf: &Vec<u8>, pos: usize) -> (r: Option<(Self, usize)>) {
        let n = buf.len();
        if n < 2 || pos > n - 2 {
            proof {
                assert forall|v: Self, end: int|
                    pos <= end <= buf@.len() implies buf@.subrange(pos as int, end)
                    != v.wire() by {
                    if buf@.subrange(pos as int, end) == v.wire() {
                        assert(buf@.subrange(pos as int, end).len() == end - pos);
                        assert(v.wire().len() == 2);
                    }
                }
            }
            return None;
        }
        let column = buf[pos];
        let row = buf[pos + 1];
        let placement = StonePlacement { column, row };
        proof {
            assert(buf@.subrange(pos as int, pos + 2) =~= placement.wire());
        }
        Some((placement, pos + 2))
    }
}

impl SerializationCap for ViewStateDelta {
    /// Three bytes: the mover's flag, the column, the row.
    open spec fn wire(&self) -> Seq<u8> {
        seq![flag_byte(self.is_circle), self.column, self.row]
    }

    fn serialize(&self) -> (r: Vec<u8>) {
        let mut out: Vec<u8> = Vec::new();
        if self.is_circle {
            out.push(1);
        } else {
            out.push(0);
        }
        out.push(self.column);
        out.push(self.row);
        proof {
            assert(out@ =~= self.wire());
        }
        out
    }

    fn deserialize_prefix(buf: &Vec<u8>, pos: usize) -> (r: Option<(Self, usize)>) {
        let n = buf.len();
        if n < 3 || pos > n - 3 || buf[pos] > 1 {
            proof {
                assert forall|v: Self, end: int|
                    pos <= end <= buf@.len() implies buf@.subrange(pos as int, end)
                    != v.wire() by {
                    if buf@.subrange(pos as int, end) == v.wire() {
                        assert(buf@.subrange(pos as int, end).len() == end - pos);
                        assert(v.wire().len() == 3);
                        assert(buf@.subrange(pos as int, end)[0] == v.wire()[0]);
                        assert(buf@[pos as int] == flag_byte(v.is_circle));
                    }
                }
            }
            return None;
        }
        let delta = ViewStateDelta {
            is_circle: buf[pos] == 1,
            column: buf[pos + 1],
            row: buf[pos + 2],
        };
        proof {
            assert(buf@.subrange(pos as int, pos + 3) =~= delta.wire());
        }
        Some((delta, pos + 3))
    }
}

/// The length of a view state on the wire: nine cells, the turn flag and
/// the game state.
pub const VIEW_STATE_WIRE_LEN: usize = 11;

impl SerializationCap for ViewState {
    /// The nine cells row by row, the turn flag, the game state; a board
    /// of a foreign shape travels as an empty one.
    open spec fn wire(&self) -> Seq<u8> {
        Seq::new(9, |k: int| if self.wf() {
            cell(self.board@, k / 3, k % 3)
        } else {
            0u8
        }) + seq![flag_byte(self.next_move_host), state_byte(self.game_state)]
    }

    fn serialize(&self) -> (r: Vec<u8>) {
        let mut out: Vec<u8> = Vec::new();
        let ok = self.board_ok();
        let mut k: usize = 0;
        while k < 9
            invariant
                k <= 9,
                out@.len() == k,
                ok == self.wf(),
                forall|m: int|
                    0 <= m < k ==> out@[m] == (if self.wf() {
                        cell(self.board@, m / 3, m % 3)
                    } else {
                        0u8
                    }),
            decreases 9 - k,
        {
            if ok {
                out.push(self.board[k / 3][k % 3]);
            } else {
                out.push(0);
            }
            k = k + 1;
        }
        if self.next_move_host {
            out.push(1);
        } else {
            out.push(0);
        }
        out.push(
            match self.game_state {
                GameState::Pending => 0,
                GameState::CrossWins => 1,
                GameState::CircleWins => 2,
                GameState::Draw => 3,
            },
        );
        proof {
            assert(out@ =~= self.wire());
        }
        out
    }

    fn deserialize_prefix(buf: &Vec<u8>, pos: usize) -> (r: Option<(Self, usize)>) {
        let n = buf.len();
        if n < VIEW_STATE_WIRE_LEN || pos > n - VIEW_STATE_WIRE_LEN || buf[pos + 9] > 1 || buf[pos
            + 10] > 3 {
            proof {
                assert forall|v: Self, end: int|
                    pos <= end <= buf@.len() implies buf@.subrange(pos as int, end)
                    != v.wire() by {
                    if buf@.subrange(pos as int, end) == v.wire() {
                        assert(buf@.subrange(pos as int, end).len() == end - pos);
                        assert(v.wire().len() == 11);
                        assert(v.wire()[9] == flag_byte(v.next_move_host));
                        assert(v.wire()[10] == state_byte(v.game_state));
                        assert(buf@.subrange(pos as int, end)[9] == v.wire()[9]);
                        assert(buf@.subrange(pos as int, end)[10] == v.wire()[10]);
                        assert(buf@[pos + 9] == flag_byte(v.next_move_host));
                        assert(buf@[pos + 10] == state_byte(v.game_state));
                    }
                }
            }
            return None;
        }
        let mut board: Vec<Vec<u8>> = Vec::new();
        let mut row: usize = 0;
        while row < 3
            invariant
                row <= 3,
                n == buf@.len(),
                pos + VIEW_STATE_WIRE_LEN <= n,
                board@.len() == row,
                forall|r0: int, c0: int|
                    0 <= r0 < row && 0 <= c0 < 3 ==> #[trigger] cell(board@, r0, c0) == buf@[pos
                        + r0 * 3 + c0],
                forall|r0: int| 0 <= r0 < row ==> (#[trigger] board@[r0])@.len() == 3,
            decreases 3 - row,
        {
            let mut line: Vec<u8> = Vec::new();
            line.push(buf[pos + row * 3]);
            line.push(buf[pos + row * 3 + 1]);
            line.push(buf[pos + row * 3 + 2]);
            proof {
                assert(line@ =~= seq![
                    buf@[pos + row * 3],
                    buf@[pos + row * 3 + 1],
                    buf@[pos + row * 3 + 2],
                ]);
            }
            let ghost lv = line@;
            let ghost prev = board@;
            board.push(line);
            proof {
                assert forall|r0: int, c0: int|
                    0 <= r0 < row + 1 && 0 <= c0 < 3 implies #[trigger] cell(board@, r0, c0)
                    == buf@[pos + r0 * 3 + c0] by {
                    if r0 < row {
                        assert(board@[r0] == prev[r0]);
                        assert(cell(prev, r0, c0) == buf@[pos + r0 * 3 + c0]);
                    } else {
                        assert(cell(board@, r0, c0) == lv[c0]);
                        if c0 == 0 {
                            assert(lv[0] == buf@[pos + row * 3]);
                        } else if c0 == 1 {
                            assert(lv[1] == buf@[pos + row * 3 + 1]);
                        } else {
                            assert(lv[2] == buf@[pos + row * 3 + 2]);
                        }
                    }
                }
            }
            row = row + 1;
        }
        let state = ViewState {
            board,
            next_move_host: buf[pos + 9] == 1,
            game_state: match buf[pos + 10] {
                0 => GameState::Pending,
                1 => GameState::CrossWins,
                2 => GameState::CircleWins,
                _ => GameState::Draw,
            },
        };
        proof {
            assert forall|k: int| 0 <= k < 9 implies buf@.subrange(
                pos as int,
                pos + VIEW_STATE_WIRE_LEN,
            )[k] == state.wire()[k] by {
                assert(cell(state.board@, k / 3, k % 3) == buf@[pos + (k / 3) * 3 + (k % 3)]);
                assert((k / 3) * 3 + (k % 3) == k);
            }
            assert(buf@.subrange(pos as int, pos + VIEW_STATE_WIRE_LEN) =~= state.wire());
        }
        Some((state, pos + VIEW_STATE_WIRE_LEN))
    }
}

impl ViewState {
    /// Whether the board has its three-by-three shape.
    pub fn board_ok(&self) -> (r: bool)
        ensures
            r == self.wf(),
    {
        if self.board.len() != 3 {
            return false;
        }
        let ok = self.board[0].len() == 3 && self.board[1].len() == 3 && self.board[2].len()
            == 3;
        proof {
            if ok {
                assert forall|i: int| 0 <= i < 3 implies (#[trigger] self.board@[i])@.len()
                    == 3 by {
                    assert(self.board@[0]@.len() == 3 && self.board@[1]@.len() == 3
                        && self.board@[2]@.len() == 3);
                }
            }
        }
        ok
    }
}

} // verus!
