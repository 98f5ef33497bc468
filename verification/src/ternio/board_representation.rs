//! The board: a nine-by-nine field of three stone colors, with the rules
//! for legal placement and stone flipping.
//!
//! A placement is legal on an empty field when in at least one of the
//! eight directions a straight run of stones of one single other color
//! is closed off by a stone of the placed color; those runs flip.

use vstd::prelude::*;

verus! {

broadcast use vstd::array::group_array_axioms;

/// The number of colors and players in the game.
pub const NUM_OF_COLORS: usize = 3;

/// The extension of the board in every dimension.
pub const BOARD_DIM: usize = 9;

/// The same as [`BOARD_DIM`], as an `i8` for coordinate arithmetic.
pub const BOARD_DIMS: i8 = 9;

/// A position on the board; the origin is the lower left corner.
#[derive(PartialEq, Eq, Structural, Debug, Clone, Copy)]
pub struct FieldPosition {
    /// Horizontal position from left to right.
    pub x_coord: i8,
    /// Vertical position from bottom to top.
    pub y_coord: i8,
}

/// Whether the coordinates lie on the board.
pub open spec fn valid_pos(x: int, y: int) -> bool {
    0 <= x < 9 && 0 <= y < 9
}

impl FieldPosition {
    /// Whether this position lies on the board.
    pub fn is_valid(&self) -> (r: bool)
        ensures
            r == valid_pos(self.x_coord as int, self.y_coord as int),
    {
        !(self.x_coord < 0 || self.y_coord < 0 || self.x_coord >= BOARD_DIMS || self.y_coord
            >= BOARD_DIMS)
    }
}

/// What a field holds.
#[derive(PartialEq, Eq, Structural, Debug, Clone, Copy)]
pub enum FieldContent {
    /// No stone.
    Empty,
    /// A stone of the given color.
    Stone(StoneColor),
}

/// The three stone colors.
#[derive(PartialEq, Eq, Structural, Debug, Clone, Copy)]
pub enum StoneColor {
    Red,
    Green,
    Blue,
}

impl StoneColor {
    /// The cycle of colors beginning after this one; used to find the
    /// next player able to move.
    pub fn cycle_from_next(&self) -> (r: [StoneColor; 3])
        ensures
            *self == StoneColor::Red ==> r@ == seq![
                StoneColor::Green,
                StoneColor::Blue,
                StoneColor::Red,
            ],
            *self == StoneColor::Green ==> r@ == seq![
                StoneColor::Blue,
                StoneColor::Red,
                StoneColor::Green,
            ],
            *self == StoneColor::Blue ==> r@ == seq![
                StoneColor::Red,
                StoneColor::Green,
                StoneColor::Blue,
            ],
    {
        let r = match self {
            StoneColor::Red => [StoneColor::Green, StoneColor::Blue, StoneColor::Red],
            StoneColor::Green => [StoneColor::Blue, StoneColor::Red, StoneColor::Green],
            StoneColor::Blue => [StoneColor::Red, StoneColor::Green, StoneColor::Blue],
        };
        proof {
            assert(r@.len() == 3);
            assert(r@ =~= seq![r@[0], r@[1], r@[2]]);
        }
        r
    }
}

/// One stone that a move flips: where, and from which to which color.
pub struct FlipInformation {
    /// The position of the flipping stone.
    pub field_position: FieldPosition,
    /// The color it had.
    pub source_color: StoneColor,
    /// The color it turns into.
    pub destination_color: StoneColor,
}

/// A stone standing on the board, or to be placed.
#[derive(Clone, Copy)]
pub struct StonePlacement {
    /// Where the stone stands or goes.
    pub field_position: FieldPosition,
    /// Its color.
    pub stone_color: StoneColor,
}

/// The game board; also part of the view state.
#[derive(Debug, Clone, Copy)]
pub struct GameBoard {
    /// The field contents, indexed by x, then y.
    pub fields: [[FieldContent; 9]; 9],
}

/// A direction in which the rules scan from a position.
pub struct ScanDirection {
    /// The horizontal step.
    pub x_dir: i8,
    /// The vertical step.
    pub y_dir: i8,
}

/// The content of the field at the given coordinates.
pub open spec fn cell(b: GameBoard, x: int, y: int) -> FieldContent {
    b.fields@[x]@[y]
}

/// The horizontal step of the `k`-th of the eight scan directions
/// (N, NE, E, SE, S, SW, W, NW).
pub open spec fn dir_x(k: int) -> int {
    if k == 0 {
        0
    } else if k == 1 {
        1
    } else if k == 2 {
        1
    } else if k == 3 {
        1
    } else if k == 4 {
        0
    } else if k == 5 {
        -1
    } else if k == 6 {
        -1
    } else {
        -1
    }
}

/// The vertical step of the `k`-th scan direction.
pub open spec fn dir_y(k: int) -> int {
    if k == 0 {
        1
    } else if k == 1 {
        1
    } else if k == 2 {
        0
    } else if k == 3 {
        -1
    } else if k == 4 {
        -1
    } else if k == 5 {
        -1
    } else if k == 6 {
        0
    } else {
        1
    }
}

/// The `k`-th of the eight scan directions.
pub fn scan_direction(k: usize) -> (r: ScanDirection)
    requires
        k < 8,
    ensures
        r.x_dir as int == dir_x(k as int),
        r.y_dir as int == dir_y(k as int),
{
    match k {
        0 => ScanDirection { x_dir: 0, y_dir: 1 },
        1 => ScanDirection { x_dir: 1, y_dir: 1 },
        2 => ScanDirection { x_dir: 1, y_dir: 0 },
        3 => ScanDirection { x_dir: 1, y_dir: -1 },
        4 => ScanDirection { x_dir: 0, y_dir: -1 },
        5 => ScanDirection { x_dir: -1, y_dir: -1 },
        6 => ScanDirection { x_dir: -1, y_dir: 0 },
        _ => ScanDirection { x_dir: -1, y_dir: 1 },
    }
}

/// How many more steps a ray can take before it must leave the board:
/// a measure for termination of the scan.
pub open spec fn ray_fuel(x: int, y: int, dx: int, dy: int) -> int {
    if dx > 0 {
        9 - x
    } else if dx < 0 {
        x + 1
    } else if dy > 0 {
        9 - y
    } else {
        y + 1
    }
}

/// The number of stones a placement of `test` flips along one ray whose
/// first stone, at (x, y), has the run's color `partner`: the length of
/// the unbroken partner run if a `test` stone closes it, else zero.
pub open spec fn count_run(
    b: GameBoard,
    x: int,
    y: int,
    dx: int,
    dy: int,
    test: StoneColor,
    partner: StoneColor,
) -> nat
    recommends
        valid_pos(x, y),
        !(dx == 0 && dy == 0),
    decreases ray_fuel(x, y, dx, dy),
    when !(dx == 0 && dy == 0) && -1 <= dx <= 1 && -1 <= dy <= 1 && valid_pos(x, y)
{
    let nx = x + dx;
    let ny = y + dy;
    if !valid_pos(nx, ny) {
        0
    } else {
        match cell(b, nx, ny) {
            FieldContent::Empty => 0,
            FieldContent::Stone(c) => if c == test {
                1
            } else if c == partner {
                let rest = count_run(b, nx, ny, dx, dy, test, partner);
                if rest == 0 {
                    0
                } else {
                    (1 + rest) as nat
                }
            } else {
                0
            },
        }
    }
}

/// The number of stones a placement of `test` at (x, y) flips in the
/// `k`-th direction.
pub open spec fn flips_in_dir(b: GameBoard, x: int, y: int, k: int, test: StoneColor) -> nat {
    let dx = dir_x(k);
    let dy = dir_y(k);
    let nx = x + dx;
    let ny = y + dy;
    if !valid_pos(x, y) || !valid_pos(nx, ny) {
        0
    } else {
        match cell(b, nx, ny) {
            FieldContent::Empty => 0,
            FieldContent::Stone(p) => if p == test {
                0
            } else {
                count_run(b, nx, ny, dx, dy, test, p)
            },
        }
    }
}

/// Whether placing `test` at the position is legal: the position is on
/// the board and empty, and some direction flips at least one stone.
pub open spec fn spec_is_legal(b: GameBoard, x: int, y: int, test: StoneColor) -> bool {
    &&& valid_pos(x, y)
    &&& cell(b, x, y) is Empty
    &&& exists|k: int| 0 <= k < 8 && #[trigger] flips_in_dir(b, x, y, k, test) > 0
}

/// The cells of a closing run all hold the partner color and lie on the
/// board.
pub proof fn lemma_count_run_cells(
    b: GameBoard,
    x: int,
    y: int,
    dx: int,
    dy: int,
    test: StoneColor,
    partner: StoneColor,
)
    requires
        valid_pos(x, y),
        -1 <= dx <= 1,
        -1 <= dy <= 1,
        !(dx == 0 && dy == 0),
        cell(b, x, y) == FieldContent::Stone(partner),
        partner != test,
    ensures
        forall|i: int|
            0 <= i < count_run(b, x, y, dx, dy, test, partner) ==> valid_pos(x + i * dx, y + i
                * dy) && #[trigger] cell(b, x + i * dx, y + i * dy) == FieldContent::Stone(
                partner,
            ),
        count_run(b, x, y, dx, dy, test, partner) > 0 ==> {
            let n = count_run(b, x, y, dx, dy, test, partner) as int;
            valid_pos(x + n * dx, y + n * dy) && cell(b, x + n * dx, y + n * dy)
                == FieldContent::Stone(test)
        },
    decreases ray_fuel(x, y, dx, dy),
{
    let n = count_run(b, x, y, dx, dy, test, partner);
    let nx = x + dx;
    let ny = y + dy;
    if n > 0 {
        if valid_pos(nx, ny) && cell(b, nx, ny) == FieldContent::Stone(partner) {
            lemma_count_run_cells(b, nx, ny, dx, dy, test, partner);
            assert forall|i: int|
                0 <= i < n implies valid_pos(x + i * dx, y + i * dy) && #[trigger] cell(
                b,
                x + i * dx,
                y + i * dy,
            ) == FieldContent::Stone(partner) by {
                if i > 0 {
                    assert(cell(b, nx + (i - 1) * dx, ny + (i - 1) * dy) == FieldContent::Stone(
                        partner,
                    ));
                    assert(x + i * dx == nx + (i - 1) * dx) by (nonlinear_arith)
                        requires
                            nx == x + dx,
                    ;
                    assert(y + i * dy == ny + (i - 1) * dy) by (nonlinear_arith)
                        requires
                            ny == y + dy,
                    ;
                }
            }
            let m = count_run(b, nx, ny, dx, dy, test, partner) as int;
            assert(m == n - 1);
            assert(x + n * dx == nx + m * dx) by (nonlinear_arith)
                requires
                    m == n - 1,
                    nx == x + dx,
            ;
            assert(y + n * dy == ny + m * dy) by (nonlinear_arith)
                requires
                    m == n - 1,
                    ny == y + dy,
            ;
        } else {
            // The run closes at once: the one flipped stone is (x, y).
            assert(n == 1);
            assert(cell(b, nx, ny) == FieldContent::Stone(test));
            assert(x + (n as int) * dx == nx) by (nonlinear_arith)
                requires
                    n == 1,
                    nx == x + dx,
            ;
            assert(y + (n as int) * dy == ny) by (nonlinear_arith)
                requires
                    n == 1,
                    ny == y + dy,
            ;
            assert forall|i: int|
                0 <= i < n implies valid_pos(x + i * dx, y + i * dy) && #[trigger] cell(
                b,
                x + i * dx,
                y + i * dy,
            ) == FieldContent::Stone(partner) by {
                assert(i == 0);
            }
        }
    }
}

impl GameBoard {
    /// A board of empty fields.
    pub fn new() -> (r: GameBoard)
        ensures
            forall|x: int, y: int| valid_pos(x, y) ==> #[trigger] cell(r, x, y) is Empty,
    {
        let empty_row = vstd::array::array_fill_for_copy_types::<FieldContent, 9>(
            FieldContent::Empty,
        );
        let fields = vstd::array::array_fill_for_copy_types::<[FieldContent; 9], 9>(empty_row);
        let r = GameBoard { fields };
        proof {
            assert forall|x: int, y: int| valid_pos(x, y) implies #[trigger] cell(r, x, y)
                is Empty by {
                assert(r.fields@[x] == empty_row);
                assert(empty_row@[y] == FieldContent::Empty);
            }
        }
        r
    }

    /// The start configuration: three stones of each color around the
    /// center.
    pub fn reset_board(&mut self)
        ensures
            forall|x: int, y: int|
                valid_pos(x, y) ==> #[trigger] cell(*final(self), x, y) == start_cell(x, y),
    {
        let empty_row = vstd::array::array_fill_for_copy_types::<FieldContent, 9>(
            FieldContent::Empty,
        );
        let fields = vstd::array::array_fill_for_copy_types::<[FieldContent; 9], 9>(empty_row);
        self.fields = fields;
        proof {
            assert forall|x: int, y: int| valid_pos(x, y) implies #[trigger] cell(*self, x, y)
                is Empty by {
                assert(self.fields@[x] == empty_row);
                assert(empty_row@[y] == FieldContent::Empty);
            }
        }
        self.place_single_stone(&FieldPosition { x_coord: 3, y_coord: 4 }, StoneColor::Red);
        self.place_single_stone(&FieldPosition { x_coord: 4, y_coord: 4 }, StoneColor::Red);
        self.place_single_stone(&FieldPosition { x_coord: 5, y_coord: 4 }, StoneColor::Red);
        self.place_single_stone(&FieldPosition { x_coord: 3, y_coord: 3 }, StoneColor::Green);
        self.place_single_stone(&FieldPosition { x_coord: 5, y_coord: 3 }, StoneColor::Green);
        self.place_single_stone(&FieldPosition { x_coord: 4, y_coord: 5 }, StoneColor::Green);
        self.place_single_stone(&FieldPosition { x_coord: 3, y_coord: 5 }, StoneColor::Blue);
        self.place_single_stone(&FieldPosition { x_coord: 5, y_coord: 5 }, StoneColor::Blue);
        self.place_single_stone(&FieldPosition { x_coord: 4, y_coord: 3 }, StoneColor::Blue);
    }

    /// Puts one stone at the given position, flipping nothing.
    pub(crate) fn place_single_stone(&mut self, test_position: &FieldPosition, test_stone: StoneColor)
        requires
            valid_pos(test_position.x_coord as int, test_position.y_coord as int),
        ensures
            cell(*final(self), test_position.x_coord as int, test_position.y_coord as int)
                == FieldContent::Stone(test_stone),
            forall|x0: int, y0: int|
                valid_pos(x0, y0) && !(x0 == test_position.x_coord as int && y0
                    == test_position.y_coord as int) ==> #[trigger] cell(*final(self), x0, y0)
                    == cell(*old(self), x0, y0),
    {
        let mut row = self.fields[test_position.x_coord as usize];
        row[test_position.y_coord as usize] = FieldContent::Stone(test_stone);
        self.fields[test_position.x_coord as usize] = row;
    }

    /// The color at the coordinates, if a stone stands there.
    fn get_optional_stone_color(&self, x_pos: i8, y_pos: i8) -> (r: Option<StoneColor>)
        requires
            valid_pos(x_pos as int, y_pos as int),
        ensures
            match r {
                Some(c) => cell(*self, x_pos as int, y_pos as int) == FieldContent::Stone(c),
                None => cell(*self, x_pos as int, y_pos as int) is Empty,
            },
    {
        match self.fields[x_pos as usize][y_pos as usize] {
            FieldContent::Stone(color) => Some(color),
            FieldContent::Empty => None,
        }
    }

    /// The color at the position; the field must hold a stone.
    pub fn select_field(&self, field: &FieldPosition) -> (r: StoneColor)
        requires
            valid_pos(field.x_coord as int, field.y_coord as int),
            !(cell(*self, field.x_coord as int, field.y_coord as int) is Empty),
        ensures
            cell(*self, field.x_coord as int, field.y_coord as int) == FieldContent::Stone(r),
    {
        match self.fields[field.x_coord as usize][field.y_coord as usize] {
            FieldContent::Stone(color) => color,
            FieldContent::Empty => StoneColor::Red,
        }
    }

    /// Whether the field is empty.
    pub fn is_empty(&self, field: &FieldPosition) -> (r: bool)
        requires
            valid_pos(field.x_coord as int, field.y_coord as int),
        ensures
            r == (cell(*self, field.x_coord as int, field.y_coord as int) is Empty),
    {
        match self.fields[field.x_coord as usize][field.y_coord as usize] {
            FieldContent::Empty => true,
            FieldContent::Stone(_) => false,
        }
    }

    /// Counts the stones a placement would flip in one direction.
    fn get_potentially_flipped_stones(
        &self,
        test_position: FieldPosition,
        test_stone: StoneColor,
        scan_direction: &ScanDirection,
    ) -> (r: u8)
        requires
            -1 <= scan_direction.x_dir <= 1,
            -1 <= scan_direction.y_dir <= 1,
            !(scan_direction.x_dir == 0 && scan_direction.y_dir == 0),
            valid_pos(test_position.x_coord as int, test_position.y_coord as int),
        ensures
            ({
                let dx = scan_direction.x_dir as int;
                let dy = scan_direction.y_dir as int;
                let x = test_position.x_coord as int;
                let y = test_position.y_coord as int;
                let nx = x + dx;
                let ny = y + dy;
                r as nat == (if !valid_pos(nx, ny) {
                    0nat
                } else {
                    match cell(*self, nx, ny) {
                        FieldContent::Empty => 0nat,
                        FieldContent::Stone(p) => if p == test_stone {
                            0nat
                        } else {
                            count_run(*self, nx, ny, dx, dy, test_stone, p)
                        },
                    }
                })
            }),
    {
        let ghost dx = scan_direction.x_dir as int;
        let ghost dy = scan_direction.y_dir as int;
        let mut cx = test_position.x_coord;
        let mut cy = test_position.y_coord;

        // The first neighbor fixes the color of the run.
        cx = cx + scan_direction.x_dir;
        cy = cy + scan_direction.y_dir;
        let neighbor = FieldPosition { x_coord: cx, y_coord: cy };
        if !neighbor.is_valid() {
            return 0;
        }
        let first = self.get_optional_stone_color(cx, cy);
        let Some(partner_stone) = first else { return 0 };
        if partner_stone == test_stone {
            return 0;
        }

        let mut counter: u8 = 1;
        loop
            invariant
                -1 <= scan_direction.x_dir <= 1,
                -1 <= scan_direction.y_dir <= 1,
                !(scan_direction.x_dir == 0 && scan_direction.y_dir == 0),
                dx == scan_direction.x_dir as int,
                dy == scan_direction.y_dir as int,
                valid_pos(cx as int, cy as int),
                cell(*self, cx as int, cy as int) == FieldContent::Stone(partner_stone),
                partner_stone != test_stone,
                1 <= counter,
                counter as int <= 9,
                valid_pos(test_position.x_coord as int, test_position.y_coord as int),
                valid_pos(test_position.x_coord + dx, test_position.y_coord + dy),
                cell(*self, test_position.x_coord + dx, test_position.y_coord + dy)
                    == FieldContent::Stone(partner_stone),
                cx as int == test_position.x_coord + counter * dx,
                cy as int == test_position.y_coord + counter * dy,
                ({
                    let x = test_position.x_coord as int;
                    let y = test_position.y_coord as int;
                    let target = count_run(*self, x + dx, y + dy, dx, dy, test_stone,
                        partner_stone);
                    let here = count_run(*self, cx as int, cy as int, dx, dy, test_stone,
                        partner_stone);
                    target == (if here == 0 {
                        0nat
                    } else {
                        ((counter - 1) + here) as nat
                    })
                }),
            decreases ray_fuel(cx as int, cy as int, dx, dy),
        {
            let nx = cx + scan_direction.x_dir;
            let ny = cy + scan_direction.y_dir;
            let next = FieldPosition { x_coord: nx, y_coord: ny };
            let ghost here = count_run(*self, cx as int, cy as int, dx, dy, test_stone,
                partner_stone);
            if !next.is_valid() {
                proof {
                    assert(here == 0);
                }
                return 0;
            }
            let found = self.get_optional_stone_color(nx, ny);
            let Some(scan_stone) = found else {
                proof {
                    assert(cell(*self, nx as int, ny as int) is Empty);
                    assert(here == 0);
                }
                return 0
            };
            if scan_stone == test_stone {
                proof {
                    assert(here == 1);
                }
                return counter;
            }
            if scan_stone != partner_stone {
                proof {
                    assert(here == 0);
                }
                return 0;
            }
            proof {
                assert(here == (if count_run(*self, nx as int, ny as int, dx, dy, test_stone,
                    partner_stone) == 0 {
                    0nat
                } else {
                    (1 + count_run(*self, nx as int, ny as int, dx, dy, test_stone,
                        partner_stone)) as nat
                }));
            }
            proof {
                // The next position stays on the board, which bounds the
                // walk: a ray of unit steps leaves a nine-wide board
                // after at most eight of them.
                let c = counter as int;
                assert(nx as int == test_position.x_coord + (c + 1) * dx) by (nonlinear_arith)
                    requires
                        cx as int == test_position.x_coord + c * dx,
                        nx as int == cx + dx,
                ;
                assert(ny as int == test_position.y_coord + (c + 1) * dy) by (nonlinear_arith)
                    requires
                        cy as int == test_position.y_coord + c * dy,
                        ny as int == cy + dy,
                ;
                assert(c + 1 <= 9) by (nonlinear_arith)
                    requires
                        -1 <= dx <= 1,
                        -1 <= dy <= 1,
                        !(dx == 0 && dy == 0),
                        0 <= test_position.x_coord < 9,
                        0 <= test_position.y_coord < 9,
                        0 <= test_position.x_coord + (c + 1) * dx < 9,
                        0 <= test_position.y_coord + (c + 1) * dy < 9,
                        c >= 1,
                ;
            }
            cx = nx;
            cy = ny;
            counter = counter + 1;
        }
    }
}

/// Every stone of a closing run stands on the board: the `j`-th ray
/// point (counted from 1) up to the flip count is a valid field holding
/// a stone.
pub proof fn lemma_flip_cells(b: GameBoard, x: int, y: int, k: int, test: StoneColor)
    requires
        valid_pos(x, y),
        0 <= k < 8,
    ensures
        forall|j: int|
            1 <= j <= flips_in_dir(b, x, y, k, test) ==> valid_pos(
                #[trigger] ray_x(x, k, j),
                ray_y(y, k, j),
            ) && cell(b, ray_x(x, k, j), ray_y(y, k, j)) is Stone,
{
    let n = flips_in_dir(b, x, y, k, test);
    if n > 0 {
        let dx = dir_x(k);
        let dy = dir_y(k);
        let partner = stone_color_at(b, x + dx, y + dy);
        assert(cell(b, x + dx, y + dy) == FieldContent::Stone(partner));
        lemma_count_run_cells(b, x + dx, y + dy, dx, dy, test, partner);
        assert forall|j: int|
            1 <= j <= n implies valid_pos(#[trigger] ray_x(x, k, j), ray_y(y, k, j)) && cell(
            b,
            ray_x(x, k, j),
            ray_y(y, k, j),
        ) is Stone by {
            let i = j - 1;
            assert(valid_pos(x + dx + i * dx, y + dy + i * dy) && cell(
                b,
                x + dx + i * dx,
                y + dy + i * dy,
            ) == FieldContent::Stone(partner));
            assert(ray_x(x, k, j) == x + dx + i * dx) by (nonlinear_arith)
                requires
                    i == j - 1,
                    dx == dir_x(k),
                    ray_x(x, k, j) == x + j * dir_x(k),
            ;
            assert(ray_y(y, k, j) == y + dy + i * dy) by (nonlinear_arith)
                requires
                    i == j - 1,
                    dy == dir_y(k),
                    ray_y(y, k, j) == y + j * dir_y(k),
            ;
        }
    }
}

/// The color at the coordinates; red where no stone stands.
pub open spec fn stone_color_at(b: GameBoard, x: int, y: int) -> StoneColor {
    match cell(b, x, y) {
        FieldContent::Stone(c) => c,
        FieldContent::Empty => StoneColor::Red,
    }
}

/// The stones standing on the first `k` of the 81 fields, scanned with
/// x outermost.
pub open spec fn placement_seq(b: GameBoard, k: int) -> Seq<StonePlacement>
    decreases k,
{
    if k <= 0 {
        seq![]
    } else {
        let x = (k - 1) / 9;
        let y = (k - 1) % 9;
        placement_seq(b, k - 1) + if cell(b, x, y) is Stone {
            seq![
                StonePlacement {
                    field_position: FieldPosition { x_coord: x as i8, y_coord: y as i8 },
                    stone_color: stone_color_at(b, x, y),
                },
            ]
        } else {
            seq![]
        }
    }
}

/// The legal moves for a color among the first `k` of the 81 fields.
pub open spec fn legal_move_seq(b: GameBoard, test: StoneColor, k: int) -> Seq<FieldPosition>
    decreases k,
{
    if k <= 0 {
        seq![]
    } else {
        let x = (k - 1) / 9;
        let y = (k - 1) % 9;
        legal_move_seq(b, test, k - 1) + if spec_is_legal(b, x, y, test) {
            seq![FieldPosition { x_coord: x as i8, y_coord: y as i8 }]
        } else {
            seq![]
        }
    }
}

/// The number of stones of the color on the first `k` of the 81 fields.
pub open spec fn count_color(b: GameBoard, c: StoneColor, k: int) -> int
    decreases k,
{
    if k <= 0 {
        0
    } else {
        let x = (k - 1) / 9;
        let y = (k - 1) % 9;
        count_color(b, c, k - 1) + if cell(b, x, y) == FieldContent::Stone(c) {
            1int
        } else {
            0int
        }
    }
}

/// The x coordinate of the `i`-th point on the ray from `x` in
/// direction `k`.
pub open spec fn ray_x(x: int, k: int, i: int) -> int {
    x + i * dir_x(k)
}

/// The y coordinate of the `i`-th point on the ray from `y` in
/// direction `k`.
pub open spec fn ray_y(y: int, k: int, i: int) -> int {
    y + i * dir_y(k)
}

/// Whether a placement of `test` at (x, y) flips the field (x0, y0): it
/// lies on a closing run in some direction.
pub open spec fn is_flipped(
    b: GameBoard,
    x: int,
    y: int,
    test: StoneColor,
    x0: int,
    y0: int,
) -> bool {
    exists|k: int, i: int|
        0 <= k < 8 && 1 <= i <= flips_in_dir(b, x, y, k, test) && x0 == #[trigger] ray_x(x, k, i)
            && y0 == ray_y(y, k, i)
}

/// Whether the field (x0, y0) is flipped by one of the first `kk`
/// directions, or by the first `ii` stones of direction `kk`.
pub open spec fn flipped_upto(
    b: GameBoard,
    x: int,
    y: int,
    test: StoneColor,
    kk: int,
    ii: int,
    x0: int,
    y0: int,
) -> bool {
    ||| exists|k: int, i: int|
        0 <= k < kk && 1 <= i <= flips_in_dir(b, x, y, k, test) && x0 == #[trigger] ray_x(x, k, i)
            && y0 == ray_y(y, k, i)
    ||| exists|i: int|
        1 <= i <= ii && i <= flips_in_dir(b, x, y, kk, test) && x0 == #[trigger] ray_x(x, kk, i)
            && y0 == ray_y(y, kk, i)
}

/// One flipped stone of a closing run: the `i`-th stone (counted from 1)
/// in direction `k`.
pub open spec fn flip_info(b: GameBoard, x: int, y: int, k: int, i: int, test: StoneColor)
    -> FlipInformation {
    FlipInformation {
        field_position: FieldPosition {
            x_coord: (x + i * dir_x(k)) as i8,
            y_coord: (y + i * dir_y(k)) as i8,
        },
        source_color: stone_color_at(b, x + i * dir_x(k), y + i * dir_y(k)),
        destination_color: test,
    }
}

/// The flipped stones of one direction, in ray order.
pub open spec fn dir_flip_seq(b: GameBoard, x: int, y: int, k: int, test: StoneColor) -> Seq<
    FlipInformation,
> {
    Seq::new(flips_in_dir(b, x, y, k, test), |i: int| flip_info(b, x, y, k, i + 1, test))
}

/// The flipped stones of the first `kk` directions, direction by
/// direction.
pub open spec fn all_flips(b: GameBoard, x: int, y: int, test: StoneColor, kk: int) -> Seq<
    FlipInformation,
>
    decreases kk,
{
    if kk <= 0 {
        seq![]
    } else {
        all_flips(b, x, y, test, kk - 1) + dir_flip_seq(b, x, y, kk - 1, test)
    }
}

impl GameBoard {
    /// Whether placing the stone at the position is legal.
    pub fn is_legal_move(&self, test_position: FieldPosition, test_stone: StoneColor) -> (r:
        bool)
        ensures
            r == spec_is_legal(
                *self,
                test_position.x_coord as int,
                test_position.y_coord as int,
                test_stone,
            ),
    {
        if !test_position.is_valid() || !self.is_empty(&test_position) {
            return false;
        }
        let mut k: usize = 0;
        while k < 8
            invariant
                k <= 8,
                valid_pos(test_position.x_coord as int, test_position.y_coord as int),
                cell(*self, test_position.x_coord as int, test_position.y_coord as int)
                    is Empty,
                forall|k0: int|
                    0 <= k0 < k ==> #[trigger] flips_in_dir(
                        *self,
                        test_position.x_coord as int,
                        test_position.y_coord as int,
                        k0,
                        test_stone,
                    ) == 0,
            decreases 8 - k,
        {
            let dir = scan_direction(k);
            let flips = self.get_potentially_flipped_stones(test_position, test_stone, &dir);
            if flips > 0 {
                proof {
                    assert(flips_in_dir(
                        *self,
                        test_position.x_coord as int,
                        test_position.y_coord as int,
                        k as int,
                        test_stone,
                    ) > 0);
                }
                return true;
            }
            k = k + 1;
        }
        false
    }

    /// All stones standing on the board, scanned with x outermost.
    pub fn get_stone_placement(&self) -> (r: Vec<StonePlacement>)
        ensures
            r@ == placement_seq(*self, 81),
    {
        let mut result: Vec<StonePlacement> = Vec::new();
        let mut k: usize = 0;
        while k < 81
            invariant
                k <= 81,
                result@ == placement_seq(*self, k as int),
            decreases 81 - k,
        {
            let x = (k / 9) as i8;
            let y = (k % 9) as i8;
            proof {
                assert(valid_pos(x as int, y as int));
            }
            let color = self.get_optional_stone_color(x, y);
            if let Some(stone_color) = color {
                result.push(
                    StonePlacement {
                        field_position: FieldPosition { x_coord: x, y_coord: y },
                        stone_color,
                    },
                );
            }
            proof {
                assert(result@ =~= placement_seq(*self, k + 1));
            }
            k = k + 1;
        }
        result
    }

    /// The stone counts for red, green and blue.
    pub fn get_score(&self) -> (r: [i8; 3])
        ensures
            r@[0] == count_color(*self, StoneColor::Red, 81),
            r@[1] == count_color(*self, StoneColor::Green, 81),
            r@[2] == count_color(*self, StoneColor::Blue, 81),
    {
        let mut red: i8 = 0;
        let mut green: i8 = 0;
        let mut blue: i8 = 0;
        let mut k: usize = 0;
        proof {
            lemma_count_color_bound(*self, StoneColor::Red, 0);
        }
        while k < 81
            invariant
                k <= 81,
                red == count_color(*self, StoneColor::Red, k as int),
                green == count_color(*self, StoneColor::Green, k as int),
                blue == count_color(*self, StoneColor::Blue, k as int),
            decreases 81 - k,
        {
            let x = (k / 9) as i8;
            let y = (k % 9) as i8;
            proof {
                assert(valid_pos(x as int, y as int));
                lemma_count_color_bound(*self, StoneColor::Red, k as int);
                lemma_count_color_bound(*self, StoneColor::Green, k as int);
                lemma_count_color_bound(*self, StoneColor::Blue, k as int);
            }
            let color = self.get_optional_stone_color(x, y);
            match color {
                Some(StoneColor::Red) => {
                    red = red + 1;
                },
                Some(StoneColor::Green) => {
                    green = green + 1;
                },
                Some(StoneColor::Blue) => {
                    blue = blue + 1;
                },
                None => {},
            }
            k = k + 1;
        }
        [red, green, blue]
    }

    /// All legal moves for the color, scanned with x outermost.
    pub fn get_all_legal_moves(&self, test_stone: StoneColor) -> (r: Vec<FieldPosition>)
        ensures
            r@ == legal_move_seq(*self, test_stone, 81),
    {
        let mut result: Vec<FieldPosition> = Vec::new();
        let mut k: usize = 0;
        while k < 81
            invariant
                k <= 81,
                result@ == legal_move_seq(*self, test_stone, k as int),
            decreases 81 - k,
        {
            let x = (k / 9) as i8;
            let y = (k % 9) as i8;
            let pos = FieldPosition { x_coord: x, y_coord: y };
            proof {
                assert(valid_pos(x as int, y as int));
            }
            if self.is_legal_move(pos, test_stone) {
                result.push(pos);
            }
            proof {
                assert(result@ =~= legal_move_seq(*self, test_stone, k + 1));
            }
            k = k + 1;
        }
        result
    }

    /// The stones a legal placement flips, direction by direction, each
    /// with its current and its new color.
    pub fn get_all_flipped_stones(
        &self,
        test_position: FieldPosition,
        test_stone: StoneColor,
    ) -> (r: Vec<FlipInformation>)
        requires
            spec_is_legal(
                *self,
                test_position.x_coord as int,
                test_position.y_coord as int,
                test_stone,
            ),
        ensures
            r@ == all_flips(
                *self,
                test_position.x_coord as int,
                test_position.y_coord as int,
                test_stone,
                8,
            ),
    {
        let x = test_position.x_coord;
        let y = test_position.y_coord;
        let mut result: Vec<FlipInformation> = Vec::new();
        let mut k: usize = 0;
        while k < 8
            invariant
                k <= 8,
                valid_pos(x as int, y as int),
                result@ == all_flips(*self, x as int, y as int, test_stone, k as int),
            decreases 8 - k,
        {
            let dir = scan_direction(k);
            let amount = self.get_potentially_flipped_stones(
                FieldPosition { x_coord: x, y_coord: y },
                test_stone,
                &dir,
            );
            let ghost n = flips_in_dir(*self, x as int, y as int, k as int, test_stone);
            proof {
                assert(amount as nat == n);
                lemma_flip_cells(*self, x as int, y as int, k as int, test_stone);
            }
            let mut bx = x;
            let mut by = y;
            let mut i: u8 = 0;
            while i < amount
                invariant
                    i <= amount,
                    valid_pos(x as int, y as int),
                    valid_pos(bx as int, by as int),
                    -1 <= dir.x_dir <= 1,
                    -1 <= dir.y_dir <= 1,
                    dir.x_dir as int == dir_x(k as int),
                    dir.y_dir as int == dir_y(k as int),
                    k < 8,
                    amount as nat == flips_in_dir(*self, x as int, y as int, k as int,
                        test_stone),
                    bx as int == ray_x(x as int, k as int, i as int),
                    by as int == ray_y(y as int, k as int, i as int),
                    forall|j: int|
                        1 <= j <= amount ==> valid_pos(
                            #[trigger] ray_x(x as int, k as int, j),
                            ray_y(y as int, k as int, j),
                        ) && cell(
                            *self,
                            ray_x(x as int, k as int, j),
                            ray_y(y as int, k as int, j),
                        ) is Stone,
                    result@ == all_flips(*self, x as int, y as int, test_stone, k as int)
                        + dir_flip_seq(*self, x as int, y as int, k as int, test_stone).take(
                        i as int,
                    ),
                decreases amount - i,
            {
                proof {
                    assert(ray_x(x as int, k as int, i + 1) == bx + dir_x(k as int))
                        by (nonlinear_arith)
                        requires
                            bx as int == x + i * dir_x(k as int),
                            ray_x(x as int, k as int, i + 1) == x + (i + 1) * dir_x(k as int),
                    ;
                    assert(ray_y(y as int, k as int, i + 1) == by + dir_y(k as int))
                        by (nonlinear_arith)
                        requires
                            by as int == y + i * dir_y(k as int),
                            ray_y(y as int, k as int, i + 1) == y + (i + 1) * dir_y(k as int),
                    ;
                    assert(valid_pos(ray_x(x as int, k as int, i + 1), ray_y(y as int, k as int, i
                        + 1)));
                }
                bx = bx + dir.x_dir;
                by = by + dir.y_dir;
                let base_point = FieldPosition { x_coord: bx, y_coord: by };
                let source = self.select_field(&base_point);
                result.push(
                    FlipInformation {
                        field_position: base_point,
                        source_color: source,
                        destination_color: test_stone,
                    },
                );
                i = i + 1;
                proof {
                    assert(result@ =~= all_flips(*self, x as int, y as int, test_stone, k as int)
                        + dir_flip_seq(*self, x as int, y as int, k as int, test_stone).take(
                        i as int,
                    ));
                }
            }
            proof {
                assert(dir_flip_seq(*self, x as int, y as int, k as int, test_stone).take(
                    amount as int,
                ) =~= dir_flip_seq(*self, x as int, y as int, k as int, test_stone));
                assert(result@ =~= all_flips(*self, x as int, y as int, test_stone, k + 1));
            }
            k = k + 1;
        }
        result
    }

    /// Performs a legal placement: the new stone is set and every closing
    /// run flips to its color; all other fields keep their content.
    pub fn set_stone(&mut self, test_position: &FieldPosition, test_stone: StoneColor)
        requires
            spec_is_legal(
                *old(self),
                test_position.x_coord as int,
                test_position.y_coord as int,
                test_stone,
            ),
        ensures
            forall|x0: int, y0: int|
                valid_pos(x0, y0) ==> #[trigger] cell(*final(self), x0, y0) == (if (x0
                    == test_position.x_coord as int && y0 == test_position.y_coord as int)
                    || is_flipped(
                    *old(self),
                    test_position.x_coord as int,
                    test_position.y_coord as int,
                    test_stone,
                    x0,
                    y0,
                ) {
                    FieldContent::Stone(test_stone)
                } else {
                    cell(*old(self), x0, y0)
                }),
    {
        let x = test_position.x_coord;
        let y = test_position.y_coord;
        let ghost b0 = *self;
        let ghost xi = x as int;
        let ghost yi = y as int;

        // The flip counts of all eight directions are taken before any
        // stone moves: rays of distinct directions share no field, so
        // the counts on the changing board would be the same.
        let mut counts: Vec<u8> = Vec::new();
        let mut k: usize = 0;
        while k < 8
            invariant
                k <= 8,
                valid_pos(xi, yi),
                xi == x as int,
                yi == y as int,
                x == test_position.x_coord,
                y == test_position.y_coord,
                *self == b0,
                counts@.len() == k,
                forall|k0: int|
                    0 <= k0 < k ==> #[trigger] counts@[k0] as nat == flips_in_dir(
                        b0,
                        xi,
                        yi,
                        k0,
                        test_stone,
                    ),
            decreases 8 - k,
        {
            let dir = scan_direction(k);
            let amount = self.get_potentially_flipped_stones(*test_position, test_stone, &dir);
            counts.push(amount);
            k = k + 1;
        }

        // Every closing run flips, direction by direction.
        let mut k: usize = 0;
        while k < 8
            invariant
                k <= 8,
                valid_pos(xi, yi),
                xi == x as int,
                yi == y as int,
                counts@.len() == 8,
                forall|k0: int|
                    0 <= k0 < 8 ==> #[trigger] counts@[k0] as nat == flips_in_dir(
                        b0,
                        xi,
                        yi,
                        k0,
                        test_stone,
                    ),
                forall|x0: int, y0: int|
                    valid_pos(x0, y0) ==> #[trigger] cell(*self, x0, y0) == (if flipped_upto(
                        b0,
                        xi,
                        yi,
                        test_stone,
                        k as int,
                        0,
                        x0,
                        y0,
                    ) {
                        FieldContent::Stone(test_stone)
                    } else {
                        cell(b0, x0, y0)
                    }),
            decreases 8 - k,
        {
            let amount = counts[k];
            let ghost n = flips_in_dir(b0, xi, yi, k as int, test_stone);
            proof {
                lemma_flip_cells(b0, xi, yi, k as int, test_stone);
            }
            let dir = scan_direction(k);
            let mut bx = x;
            let mut by = y;
            let mut i: u8 = 0;
            while i < amount
                invariant
                    i <= amount,
                    valid_pos(xi, yi),
                    valid_pos(bx as int, by as int),
                    xi == x as int,
                    yi == y as int,
                    k < 8,
                    -1 <= dir.x_dir <= 1,
                    -1 <= dir.y_dir <= 1,
                    dir.x_dir as int == dir_x(k as int),
                    dir.y_dir as int == dir_y(k as int),
                    amount as nat == flips_in_dir(b0, xi, yi, k as int, test_stone),
                    bx as int == ray_x(xi, k as int, i as int),
                    by as int == ray_y(yi, k as int, i as int),
                    forall|j: int|
                        1 <= j <= amount ==> valid_pos(
                            #[trigger] ray_x(xi, k as int, j),
                            ray_y(yi, k as int, j),
                        ),
                    forall|x0: int, y0: int|
                        valid_pos(x0, y0) ==> #[trigger] cell(*self, x0, y0) == (if flipped_upto(
                            b0,
                            xi,
                            yi,
                            test_stone,
                            k as int,
                            i as int,
                            x0,
                            y0,
                        ) {
                            FieldContent::Stone(test_stone)
                        } else {
                            cell(b0, x0, y0)
                        }),
                decreases amount - i,
            {
                proof {
                    assert(ray_x(xi, k as int, i + 1) == bx + dir_x(k as int))
                        by (nonlinear_arith)
                        requires
                            bx as int == xi + i * dir_x(k as int),
                            ray_x(xi, k as int, i + 1) == xi + (i + 1) * dir_x(k as int),
                    ;
                    assert(ray_y(yi, k as int, i + 1) == by + dir_y(k as int))
                        by (nonlinear_arith)
                        requires
                            by as int == yi + i * dir_y(k as int),
                            ray_y(yi, k as int, i + 1) == yi + (i + 1) * dir_y(k as int),
                    ;
                    assert(valid_pos(ray_x(xi, k as int, i + 1), ray_y(yi, k as int, i + 1)));
                }
                bx = bx + dir.x_dir;
                by = by + dir.y_dir;
                let ghost prev = *self;
                self.place_single_stone(&FieldPosition { x_coord: bx, y_coord: by }, test_stone);
                i = i + 1;
                proof {
                    lemma_flip_step(b0, *self, prev, xi, yi, test_stone, k as int, i as int,
                        bx as int, by as int);
                }
            }
            proof {
                lemma_dir_done(b0, *self, xi, yi, test_stone, k as int, amount as int);
            }
            k = k + 1;
        }
        self.place_single_stone(&FieldPosition { x_coord: x, y_coord: y }, test_stone);
        proof {
            assert forall|x0: int, y0: int| valid_pos(x0, y0) implies #[trigger] cell(
                *self,
                x0,
                y0,
            ) == (if (x0 == xi && y0 == yi) || is_flipped(b0, xi, yi, test_stone, x0, y0) {
                FieldContent::Stone(test_stone)
            } else {
                cell(b0, x0, y0)
            }) by {
                if !(x0 == xi && y0 == yi) {
                    assert(flipped_upto(b0, xi, yi, test_stone, 8, 0, x0, y0) == is_flipped(
                        b0,
                        xi,
                        yi,
                        test_stone,
                        x0,
                        y0,
                    ));
                }
            }
        }
    }
}

/// One more stone of a run has flipped: the only field whose membership
/// in the flipped set is new is the one just placed.
proof fn lemma_flip_step(
    b0: GameBoard,
    cur: GameBoard,
    prev: GameBoard,
    x: int,
    y: int,
    test: StoneColor,
    k: int,
    i: int,
    bx: int,
    by: int,
)
    requires
        0 <= k < 8,
        1 <= i <= flips_in_dir(b0, x, y, k, test),
        bx == x + i * dir_x(k),
        by == y + i * dir_y(k),
        valid_pos(bx, by),
        cell(cur, bx, by) == FieldContent::Stone(test),
        forall|x0: int, y0: int|
            valid_pos(x0, y0) && !(x0 == bx && y0 == by) ==> #[trigger] cell(cur, x0, y0) == cell(
                prev,
                x0,
                y0,
            ),
        forall|x0: int, y0: int|
            valid_pos(x0, y0) ==> #[trigger] cell(prev, x0, y0) == (if flipped_upto(
                b0,
                x,
                y,
                test,
                k,
                i - 1,
                x0,
                y0,
            ) {
                FieldContent::Stone(test)
            } else {
                cell(b0, x0, y0)
            }),
    ensures
        forall|x0: int, y0: int|
            valid_pos(x0, y0) ==> #[trigger] cell(cur, x0, y0) == (if flipped_upto(
                b0,
                x,
                y,
                test,
                k,
                i,
                x0,
                y0,
            ) {
                FieldContent::Stone(test)
            } else {
                cell(b0, x0, y0)
            }),
{
    assert forall|x0: int, y0: int| valid_pos(x0, y0) implies #[trigger] cell(cur, x0, y0) == (
    if flipped_upto(b0, x, y, test, k, i, x0, y0) {
        FieldContent::Stone(test)
    } else {
        cell(b0, x0, y0)
    }) by {
        if x0 == bx && y0 == by {
            assert(x0 == ray_x(x, k, i) && y0 == ray_y(y, k, i));
            assert(flipped_upto(b0, x, y, test, k, i, x0, y0));
        } else {
            if flipped_upto(b0, x, y, test, k, i, x0, y0) && !flipped_upto(
                b0,
                x,
                y,
                test,
                k,
                i - 1,
                x0,
                y0,
            ) {
                // The fresh member can only be the `i`-th stone of
                // direction `k`, which is the one just placed.
                let j = choose|j: int|
                    1 <= j <= i && j <= flips_in_dir(b0, x, y, k, test) && x0 == #[trigger] ray_x(
                        x,
                        k,
                        j,
                    ) && y0 == ray_y(y, k, j);
                if j <= i - 1 {
                    assert(flipped_upto(b0, x, y, test, k, i - 1, x0, y0));
                } else {
                    assert(j == i);
                    assert(x0 == ray_x(x, k, i) && y0 == ray_y(y, k, i));
                    assert(x0 == bx && y0 == by);
                }
                assert(false);
            }
        }
    }
}

/// A whole direction has flipped: counting it as done is the same as
/// having all its stones placed.
proof fn lemma_dir_done(
    b0: GameBoard,
    cur: GameBoard,
    x: int,
    y: int,
    test: StoneColor,
    k: int,
    amount: int,
)
    requires
        0 <= k < 8,
        amount == flips_in_dir(b0, x, y, k, test),
        forall|x0: int, y0: int|
            valid_pos(x0, y0) ==> #[trigger] cell(cur, x0, y0) == (if flipped_upto(
                b0,
                x,
                y,
                test,
                k,
                amount,
                x0,
                y0,
            ) {
                FieldContent::Stone(test)
            } else {
                cell(b0, x0, y0)
            }),
    ensures
        forall|x0: int, y0: int|
            valid_pos(x0, y0) ==> #[trigger] cell(cur, x0, y0) == (if flipped_upto(
                b0,
                x,
                y,
                test,
                k + 1,
                0,
                x0,
                y0,
            ) {
                FieldContent::Stone(test)
            } else {
                cell(b0, x0, y0)
            }),
{
    assert forall|x0: int, y0: int|
        flipped_upto(b0, x, y, test, k, amount, x0, y0) == flipped_upto(
            b0,
            x,
            y,
            test,
            k + 1,
            0,
            x0,
            y0,
        ) by {
        if flipped_upto(b0, x, y, test, k, amount, x0, y0) {
            assert(flipped_upto(b0, x, y, test, k + 1, 0, x0, y0));
        }
        if flipped_upto(b0, x, y, test, k + 1, 0, x0, y0) {
            let (kw, iw) = choose|kw: int, iw: int|
                0 <= kw < k + 1 && 1 <= iw <= flips_in_dir(b0, x, y, kw, test) && x0
                    == #[trigger] ray_x(x, kw, iw) && y0 == ray_y(y, kw, iw);
            if kw < k {
                assert(flipped_upto(b0, x, y, test, k, amount, x0, y0));
            } else {
                assert(flipped_upto(b0, x, y, test, k, amount, x0, y0));
            }
        }
    }
}

/// The count of a color never exceeds the fields counted.
proof fn lemma_count_color_bound(b: GameBoard, c: StoneColor, k: int)
    ensures
        0 <= count_color(b, c, k) <= if k >= 0 {
            k
        } else {
            0
        },
    decreases
            (if k >= 0 {
                k
            } else {
                0
            }),
{
    if k > 0 {
        lemma_count_color_bound(b, c, k - 1);
    }
}

/// The start configuration of the board.
pub open spec fn start_cell(x: int, y: int) -> FieldContent {
    if (x == 3 && y == 4) || (x == 4 && y == 4) || (x == 5 && y == 4) {
        FieldContent::Stone(StoneColor::Red)
    } else if (x == 3 && y == 3) || (x == 5 && y == 3) || (x == 4 && y == 5) {
        FieldContent::Stone(StoneColor::Green)
    } else if (x == 3 && y == 5) || (x == 5 && y == 5) || (x == 4 && y == 3) {
        FieldContent::Stone(StoneColor::Blue)
    } else {
        FieldContent::Empty
    }
}

} // verus!
