//! The game rules of a falling-block puzzle: pieces, the board they land on, debounced input
//! and the per-frame game step.
use vstd::prelude::*;

verus! {

/// Board width in cells.
pub const BOARD_WIDTH: i16 = 10;

/// Board height in cells, counting the rows above the visible field.
pub const BOARD_HEIGHT: i16 = 40;

/// How many frames a piece waits before it falls one row, by level; the last entry holds for
/// every higher level.
pub const GRAVITY_TABLE: [u8; 30] = [
    48, 43, 38, 33, 28, 23, 18, 13, 8, 6, 5, 5, 5, 4, 4, 4, 3, 3, 3, 2, 2, 2, 2, 2, 2, 2, 2, 2, 2,
    1,
];

/// A cell position: `x` grows to the right, `y` grows downwards.
#[derive(Clone, Copy, Debug, PartialEq, Eq, Structural)]
pub struct Coord {
    pub x: i16,
    pub y: i16,
}

impl Coord {
    /// Both components multiplied by `scaler`.
    pub fn scale(&self, scaler: i16) -> (r: Coord)
        requires
            i16::MIN <= self.x * scaler <= i16::MAX,
            i16::MIN <= self.y * scaler <= i16::MAX,
        ensures
            r.x == self.x * scaler,
            r.y == self.y * scaler,
    {
        Coord { x: self.x * scaler, y: self.y * scaler }
    }

    /// The position moved by `dx` columns and `dy` rows.
    pub fn offset(&self, dx: i16, dy: i16) -> (r: Coord)
        requires
            i16::MIN <= self.x + dx <= i16::MAX,
            i16::MIN <= self.y + dy <= i16::MAX,
        ensures
            r.x == self.x + dx,
            r.y == self.y + dy,
    {
        Coord { x: self.x + dx, y: self.y + dy }
    }
}

/// The seven pieces.
#[derive(Clone, Copy, Debug, PartialEq, Eq, Structural)]
pub enum Tetrominoes {
    I,
    J,
    L,
    O,
    S,
    T,
    Z,
}

/// The number of piece `t`, from 0 for `I` to 6 for `Z`.
pub open spec fn piece_num(t: Tetrominoes) -> u8 {
    match t {
        Tetrominoes::I => 0,
        Tetrominoes::J => 1,
        Tetrominoes::L => 2,
        Tetrominoes::O => 3,
        Tetrominoes::S => 4,
        Tetrominoes::T => 5,
        Tetrominoes::Z => 6,
    }
}

/// The four cells of piece `t` in rotation `rotation`, as column and row offsets inside a
/// four-by-four box.
pub open spec fn shape(t: Tetrominoes, rotation: u8) -> [[u8; 2]; 4] {
    match t {
        Tetrominoes::I => match rotation {
            0 => [[0, 1], [1, 1], [2, 1], [3, 1]],
            1 => [[2, 3], [2, 2], [2, 1], [2, 0]],
            2 => [[3, 2], [2, 2], [1, 2], [0, 2]],
            _ => [[1, 0], [1, 1], [1, 2], [1, 3]],
        },
        Tetrominoes::J => match rotation {
            0 => [[0, 0], [0, 1], [1, 1], [2, 1]],
            1 => [[2, 0], [1, 0], [1, 1], [1, 2]],
            2 => [[0, 1], [1, 1], [2, 1], [2, 2]],
            _ => [[1, 0], [1, 1], [1, 2], [0, 2]],
        },
        Tetrominoes::L => match rotation {
            0 => [[0, 1], [1, 1], [2, 1], [2, 0]],
            1 => [[1, 0], [1, 1], [1, 2], [2, 2]],
            2 => [[0, 2], [0, 1], [1, 1], [2, 1]],
            _ => [[0, 0], [1, 0], [1, 1], [1, 2]],
        },
        Tetrominoes::O => match rotation {
            0 => [[0, 0], [1, 0], [0, 1], [1, 1]],
            1 => [[0, 0], [1, 0], [0, 1], [1, 1]],
            2 => [[0, 0], [1, 0], [0, 1], [1, 1]],
            _ => [[0, 0], [1, 0], [0, 1], [1, 1]],
        },
        Tetrominoes::S => match rotation {
            0 => [[0, 1], [1, 1], [1, 0], [2, 0]],
            1 => [[1, 0], [1, 1], [2, 1], [2, 2]],
            2 => [[2, 1], [1, 1], [1, 2], [0, 2]],
            _ => [[0, 0], [0, 1], [1, 1], [1, 2]],
        },
        Tetrominoes::T => match rotation {
            0 => [[0, 1], [1, 1], [2, 1], [1, 0]],
            1 => [[1, 2], [1, 1], [1, 0], [2, 1]],
            2 => [[2, 1], [1, 1], [0, 1], [1, 2]],
            _ => [[1, 0], [1, 1], [1, 2], [0, 1]],
        },
        Tetrominoes::Z => match rotation {
            0 => [[0, 0], [1, 0], [1, 1], [2, 1]],
            1 => [[2, 0], [2, 1], [1, 1], [1, 2]],
            2 => [[0, 1], [1, 1], [1, 2], [2, 2]],
            _ => [[1, 0], [1, 1], [0, 1], [0, 2]],
        },
    }
}

impl Tetrominoes {
    /// The four cells of this piece in rotation `rotation`.
    pub fn get_coords(&self, rotation: u8) -> (r: [[u8; 2]; 4])
        requires
            rotation < 4,
        ensures
            r == shape(*self, rotation),
    {
        match self {
            Tetrominoes::I => match rotation {
                0 => [[0, 1], [1, 1], [2, 1], [3, 1]],
                1 => [[2, 3], [2, 2], [2, 1], [2, 0]],
                2 => [[3, 2], [2, 2], [1, 2], [0, 2]],
                _ => [[1, 0], [1, 1], [1, 2], [1, 3]],
            },
            Tetrominoes::J => match rotation {
                0 => [[0, 0], [0, 1], [1, 1], [2, 1]],
                1 => [[2, 0], [1, 0], [1, 1], [1, 2]],
                2 => [[0, 1], [1, 1], [2, 1], [2, 2]],
                _ => [[1, 0], [1, 1], [1, 2], [0, 2]],
            },
            Tetrominoes::L => match rotation {
                0 => [[0, 1], [1, 1], [2, 1], [2, 0]],
                1 => [[1, 0], [1, 1], [1, 2], [2, 2]],
                2 => [[0, 2], [0, 1], [1, 1], [2, 1]],
                _ => [[0, 0], [1, 0], [1, 1], [1, 2]],
            },
            Tetrominoes::O => match rotation {
                0 => [[0, 0], [1, 0], [0, 1], [1, 1]],
                1 => [[0, 0], [1, 0], [0, 1], [1, 1]],
                2 => [[0, 0], [1, 0], [0, 1], [1, 1]],
                _ => [[0, 0], [1, 0], [0, 1], [1, 1]],
            },
            Tetrominoes::S => match rotation {
                0 => [[0, 1], [1, 1], [1, 0], [2, 0]],
                1 => [[1, 0], [1, 1], [2, 1], [2, 2]],
                2 => [[2, 1], [1, 1], [1, 2], [0, 2]],
                _ => [[0, 0], [0, 1], [1, 1], [1, 2]],
            },
            Tetrominoes::T => match rotation {
                0 => [[0, 1], [1, 1], [2, 1], [1, 0]],
                1 => [[1, 2], [1, 1], [1, 0], [2, 1]],
                2 => [[2, 1], [1, 1], [0, 1], [1, 2]],
                _ => [[1, 0], [1, 1], [1, 2], [0, 1]],
            },
            Tetrominoes::Z => match rotation {
                0 => [[0, 0], [1, 0], [1, 1], [2, 1]],
                1 => [[2, 0], [2, 1], [1, 1], [1, 2]],
                2 => [[0, 1], [1, 1], [1, 2], [2, 2]],
                _ => [[1, 0], [1, 1], [0, 1], [0, 2]],
            },
        }
    }

    /// The number of this piece, from 0 for `I` to 6 for `Z`.
    pub fn as_num(&self) -> (r: u8)
        ensures
            r == piece_num(*self),
    {
        match self {
            Tetrominoes::I => 0,
            Tetrominoes::J => 1,
            Tetrominoes::L => 2,
            Tetrominoes::O => 3,
            Tetrominoes::S => 4,
            Tetrominoes::T => 5,
            Tetrominoes::Z => 6,
        }
    }

    /// The piece with number `num`.
    pub fn from_num(num: u8) -> (r: Tetrominoes)
        requires
            num < 7,
        ensures
            piece_num(r) == num,
    {
        match num {
            0 => Tetrominoes::I,
            1 => Tetrominoes::J,
            2 => Tetrominoes::L,
            3 => Tetrominoes::O,
            4 => Tetrominoes::S,
            5 => Tetrominoes::T,
            _ => Tetrominoes::Z,
        }
    }
}

/// The settled cells: one `u32` per row, three bits per column; 0 is an empty cell, 1 to 7
/// the number of the piece that filled it, plus one.
#[derive(Clone, Copy, Debug)]
pub struct Board {
    pub data: [u32; 40],
}

/// The cell `c` lies on the board.
pub open spec fn on_board(c: Coord) -> bool {
    0 <= c.x < BOARD_WIDTH && 0 <= c.y < BOARD_HEIGHT
}

/// The three bits that `row` holds for column `x`.
pub open spec fn row_cell(row: u32, x: int) -> u32 {
    (row >> ((3 * x) as u32)) & 7u32
}

/// Writing `d` into the field at bit `s` changes that field to `d & 7` and no other field.
proof fn lemma_set_field(v: u32, d: u32, s: u32, t: u32)
    requires
        s <= 27,
        t <= 27,
        s == t || s + 3 <= t || t + 3 <= s,
    ensures
        s == t ==> (((v & !(7u32 << s)) | ((d & 7u32) << s)) >> t) & 7u32 == d & 7u32,
        s != t ==> (((v & !(7u32 << s)) | ((d & 7u32) << s)) >> t) & 7u32 == (v >> t) & 7u32,
{
    assert(s == t ==> (((v & !(7u32 << s)) | ((d & 7u32) << s)) >> t) & 7u32 == d & 7u32) by (bit_vector)
        requires
            s <= 27,
            t <= 27,
    ;
    assert(s != t ==> (((v & !(7u32 << s)) | ((d & 7u32) << s)) >> t) & 7u32 == (v >> t) & 7u32) by (bit_vector)
        requires
            s <= 27,
            t <= 27,
            s == t || s + 3 <= t || t + 3 <= s,
    ;
}

impl Board {
    /// What the board holds at cell `(x, y)`.
    pub open spec fn cell(self, x: int, y: int) -> u32 {
        row_cell(self.data[y], x)
    }

    /// An empty board.
    pub fn new() -> (r: Board)
        ensures
            forall|i: int| 0 <= i < 40 ==> r.data[i] == 0,
            forall|x: int, y: int| 0 <= x < 10 && 0 <= y < 40 ==> r.cell(x, y) == 0,
    {
        let r = Board { data: [0; 40] };
        proof {
            assert forall|x: int, y: int| 0 <= x < 10 && 0 <= y < 40 implies r.cell(x, y) == 0 by {
                let s = (3 * x) as u32;
                assert((0u32 >> s) & 7u32 == 0) by (bit_vector);
            }
        }
        r
    }

    /// A piece cannot be at `coord`: it is off the board or the cell is filled.
    pub fn is_intersecting(&self, coord: Coord) -> (r: bool)
        ensures
            r == (!on_board(coord) || self.cell(coord.x as int, coord.y as int) != 0),
    {
        if coord.x < 0 || coord.x >= BOARD_WIDTH {
            return true;
        }
        if coord.y < 0 || coord.y >= BOARD_HEIGHT {
            return true;
        }
        self.is_full(coord)
    }

    /// Some cell of `coords` is off the board or filled.
    pub fn is_any_intersecting(&self, coords: &[Coord]) -> (r: bool)
        ensures
            r == exists|i: int|
                0 <= i < coords@.len() && (!on_board(#[trigger] coords@[i]) || self.cell(
                    coords@[i].x as int,
                    coords@[i].y as int,
                ) != 0),
    {
        let mut i: usize = 0;
        while i < coords.len()
            invariant
                0 <= i <= coords@.len(),
                forall|j: int|
                    0 <= j < i ==> !(!on_board(#[trigger] coords@[j]) || self.cell(
                        coords@[j].x as int,
                        coords@[j].y as int,
                    ) != 0),
            decreases coords@.len() - i,
        {
            if self.is_intersecting(coords[i]) {
                return true;
            }
            i += 1;
        }
        false
    }

    /// The cell at `coord` is empty.
    pub fn is_empty(&self, coord: Coord) -> (r: bool)
        requires
            on_board(coord),
        ensures
            r == (self.cell(coord.x as int, coord.y as int) == 0),
    {
        self.data_at_coord(coord) == 0
    }

    /// The cell at `coord` is filled.
    pub fn is_full(&self, coord: Coord) -> (r: bool)
        requires
            on_board(coord),
        ensures
            r == (self.cell(coord.x as int, coord.y as int) != 0),
    {
        !self.is_empty(coord)
    }

    /// What the board holds at `coord`.
    pub fn data_at_coord(&self, coord: Coord) -> (r: u8)
        requires
            on_board(coord),
        ensures
            r as u32 == self.cell(coord.x as int, coord.y as int),
    {
        let row = self.data[coord.y as usize];
        let s = (coord.x as u32) * 3;
        let v = (row >> s) & 7;
        assert(v <= 7) by (bit_vector)
            requires
                v == (row >> s) & 7u32,
        ;
        v as u8
    }

    /// Writes the low three bits of `data` into the cell at `coord`; every other cell keeps
    /// what it held.
    pub fn set_data_at_coord(&mut self, data: u8, coord: Coord)
        requires
            on_board(coord),
        ensures
            final(self).cell(coord.x as int, coord.y as int) == (data as u32) & 7u32,
            forall|x: int, y: int|
                0 <= x < 10 && 0 <= y < 40 && (x != coord.x || y != coord.y) ==> #[trigger] final(self).cell(x, y)
                    == old(self).cell(x, y),
    {
        let yi = coord.y as usize;
        let s = coord.x as u32 * 3;
        let v = self.data[yi];
        self.data[yi] = (v & (!(7u32 << s))) | ((data as u32 & 7) << s);
        proof {
            lemma_set_field(v, data as u32, s, s);
            assert forall|x: int, y: int|
                0 <= x < 10 && 0 <= y < 40 && (x != coord.x || y != coord.y) implies #[trigger] self.cell(x, y)
                    == old(self).cell(x, y) by {
                if y == coord.y {
                    lemma_set_field(v, data as u32, s, (3 * x) as u32);
                }
            }
        }
    }
}

/// Column and row of cell `i` of piece `p`.
pub open spec fn cell_pos(p: FallingPiece, i: int) -> (int, int) {
    let off = shape(p.piece_type, p.rotation)[i];
    (p.coords.x + off[0], p.coords.y + off[1])
}

/// Column `x`, row `y` lie on the board.
pub open spec fn in_bounds(x: int, y: int) -> bool {
    0 <= x < BOARD_WIDTH && 0 <= y < BOARD_HEIGHT
}

/// Piece `p`, moved down `dy` rows, lies on the board over empty cells.
pub open spec fn fits_at(board: Board, p: FallingPiece, dy: int) -> bool {
    forall|i: int|
        0 <= i < 4 ==> in_bounds(#[trigger] cell_pos(p, i).0, cell_pos(p, i).1 + dy) && board.cell(
            cell_pos(p, i).0,
            cell_pos(p, i).1 + dy,
        ) == 0
}

/// How far piece `p`, already moved down `e` rows, falls on: it goes on while the next row
/// down still fits.
pub open spec fn drop_rows(board: Board, p: FallingPiece, e: int) -> int
    decreases 40 - e,
{
    if e >= 40 || !fits_at(board, p, e + 1) {
        e
    } else {
        drop_rows(board, p, e + 1)
    }
}

/// The piece in play: its kind, rotation, the top-left corner of its box, and the frames since
/// it last fell a row.
#[derive(Clone, Copy, Debug, PartialEq, Eq, Structural)]
pub struct FallingPiece {
    pub piece_type: Tetrominoes,
    pub frames_since_last_fall: usize,
    pub rotation: u8,
    pub coords: Coord,
}

impl FallingPiece {
    /// The rotation is one of four and every cell lies on the board.
    pub open spec fn wf(self) -> bool {
        &&& self.rotation < 4
        &&& forall|i: int| 0 <= i < 4 ==> in_bounds(#[trigger] cell_pos(self, i).0, cell_pos(self, i).1)
    }

    /// The rotation is one of four and the box corner plus three fits in an `i16`, so every
    /// cell of the piece does.
    pub open spec fn near_board(self) -> bool {
        &&& self.rotation < 4
        &&& self.coords.x + 3 <= i16::MAX
        &&& self.coords.y + 3 <= i16::MAX
    }

    /// The four cells that the piece covers.
    pub fn get_coords(&self) -> (r: [Coord; 4])
        requires
            self.near_board(),
        ensures
            forall|i: int|
                0 <= i < 4 ==> (#[trigger] r[i]).x == cell_pos(*self, i).0 && r[i].y == cell_pos(
                    *self,
                    i,
                ).1,
    {
        let t = self.piece_type.get_coords(self.rotation);
        proof {
            lemma_shape_small(self.piece_type, self.rotation);
        }
        let c = self.coords;
        [
            c.offset(t[0][0] as i16, t[0][1] as i16),
            c.offset(t[1][0] as i16, t[1][1] as i16),
            c.offset(t[2][0] as i16, t[2][1] as i16),
            c.offset(t[3][0] as i16, t[3][1] as i16),
        ]
    }
}

/// A piece whose cells lie on the board has its box corner near the board.
proof fn lemma_wf_near_board(p: FallingPiece)
    requires
        p.wf(),
    ensures
        p.near_board(),
        -3 <= p.coords.x <= 9,
        -3 <= p.coords.y <= 39,
{
    lemma_shape_small(p.piece_type, p.rotation);
    assert(in_bounds(cell_pos(p, 0).0, cell_pos(p, 0).1));
}

/// Every cell of every shape lies in the four-by-four box.
proof fn lemma_shape_small(t: Tetrominoes, rotation: u8)
    requires
        rotation < 4,
    ensures
        forall|i: int| 0 <= i < 4 ==> #[trigger] shape(t, rotation)[i][0] <= 3 && shape(t, rotation)[i][1] <= 3,
{
    match t {
        Tetrominoes::I => {},
        Tetrominoes::J => {},
        Tetrominoes::L => {},
        Tetrominoes::O => {},
        Tetrominoes::S => {},
        Tetrominoes::T => {},
        Tetrominoes::Z => {},
    }
}

/// The state of a game: the piece in play, the settled cells and the counters.
#[derive(Clone, Copy, Debug)]
pub struct TetrisGame {
    pub piece: Option<FallingPiece>,
    pub next_piece: Option<Tetrominoes>,
    pub board: Board,
    pub score: u32,
    pub level: u32,
    pub lines_cleared: u32,
    pub combo_count: u32,
    pub piece_stats: [u32; 8],
}

impl TetrisGame {
    /// A piece in play lies on the board.
    pub open spec fn wf(self) -> bool {
        self.piece matches Some(p) ==> p.wf()
    }

    /// A game with an empty board, no piece and all counters at zero.
    pub fn init() -> (r: TetrisGame)
        ensures
            r.wf(),
            r.piece is None,
            r.next_piece is None,
            forall|i: int| 0 <= i < 40 ==> r.board.data[i] == 0,
            forall|x: int, y: int| 0 <= x < 10 && 0 <= y < 40 ==> r.board.cell(x, y) == 0,
            r.score == 0 && r.level == 0 && r.lines_cleared == 0 && r.combo_count == 0,
            forall|i: int| 0 <= i < 8 ==> r.piece_stats[i] == 0,
    {
        TetrisGame {
            piece: None,
            next_piece: None,
            board: Board::new(),
            score: 0,
            level: 0,
            lines_cleared: 0,
            combo_count: 0,
            piece_stats: [0; 8],
        }
    }

    /// The number and the cells of the piece in play.
    pub fn get_curr_piece(&self) -> (r: Option<(u8, [Coord; 4])>)
        requires
            self.wf(),
        ensures
            r is Some <==> self.piece is Some,
            r matches Some((n, cs)) ==> n == piece_num(self.piece->0.piece_type) && forall|i: int|
                0 <= i < 4 ==> (#[trigger] cs[i]).x == cell_pos(self.piece->0, i).0 && cs[i].y
                    == cell_pos(self.piece->0, i).1,
    {
        match &self.piece {
            Some(val) => {
                proof {
                    lemma_wf_near_board(*val);
                }
                Some((val.piece_type.as_num(), val.get_coords()))
            },
            None => None,
        }
    }

    /// Where the piece in play would land if dropped straight down: its number, its cells
    /// there, and how many rows it falls. It falls while the position one row lower fits.
    pub fn get_dropped_piece(&self) -> (r: Option<(u8, [Coord; 4], u8)>)
        requires
            self.wf(),
        ensures
            r is Some <==> self.piece is Some,
            r matches Some((n, cs, d)) ==> {
                let p = self.piece->0;
                &&& n == piece_num(p.piece_type)
                &&& forall|i: int|
                    0 <= i < 4 ==> (#[trigger] cs[i]).x == cell_pos(p, i).0 && cs[i].y == cell_pos(p, i).1
                        + d
                &&& d == drop_rows(self.board, p, 0)
                &&& forall|e: int| 1 <= e <= d ==> #[trigger] fits_at(self.board, p, e)
                &&& !fits_at(self.board, p, d + 1)
            },
    {
        match &self.piece {
            Some(val) => {
                let p = *val;
                proof {
                    lemma_wf_near_board(p);
                }
                let mut coords = p.get_coords();
                let mut distance: u8 = 0;
                loop
                    invariant
                        self.wf(),
                        self.piece == Some(p),
                        p.wf(),
                        0 <= distance <= 40,
                        forall|i: int|
                            0 <= i < 4 ==> (#[trigger] coords[i]).x == cell_pos(p, i).0 && coords[i].y
                                == cell_pos(p, i).1 + distance,
                        forall|e: int| 1 <= e <= distance ==> #[trigger] fits_at(self.board, p, e),
                        drop_rows(self.board, p, 0) == drop_rows(self.board, p, distance as int),
                    ensures
                        drop_rows(self.board, p, 0) == distance,
                        0 <= distance <= 40,
                        forall|i: int|
                            0 <= i < 4 ==> (#[trigger] coords[i]).x == cell_pos(p, i).0 && coords[i].y
                                == cell_pos(p, i).1 + distance,
                        forall|e: int| 1 <= e <= distance ==> #[trigger] fits_at(self.board, p, e),
                        !fits_at(self.board, p, distance + 1),
                    decreases 40 - distance,
                {
                    proof {
                        assert(in_bounds(cell_pos(p, 0).0, cell_pos(p, 0).1));
                    }
                    let next = [
                        coords[0].offset(0, 1),
                        coords[1].offset(0, 1),
                        coords[2].offset(0, 1),
                        coords[3].offset(0, 1),
                    ];
                    let ns = next.as_slice();
                    proof {
                        assert forall|i: int| 0 <= i < 4 implies #[trigger] ns@[i] == next[i] by {}
                    }
                    if self.board.is_any_intersecting(ns) {
                        proof {
                            let i = choose|i: int|
                                0 <= i < ns@.len() && (!on_board(#[trigger] ns@[i]) || self.board.cell(
                                    ns@[i].x as int,
                                    ns@[i].y as int,
                                ) != 0);
                            assert(ns@[i] == next[i]);
                            assert(!(in_bounds(cell_pos(p, i).0, cell_pos(p, i).1 + distance + 1) && self.board.cell(
                                cell_pos(p, i).0,
                                cell_pos(p, i).1 + distance + 1,
                            ) == 0));
                        }
                        break;
                    }
                    proof {
                        assert forall|i: int| 0 <= i < 4 implies in_bounds(#[trigger] cell_pos(p, i).0, cell_pos(p, i).1 + (distance + 1)) && self.board.cell(
                            cell_pos(p, i).0,
                            cell_pos(p, i).1 + (distance + 1),
                        ) == 0 by {
                            assert(ns@[i] == next[i]);
                        }
                        assert(fits_at(self.board, p, distance + 1));
                        assert(in_bounds(cell_pos(p, 0).0, cell_pos(p, 0).1 + (distance + 1)));
                    }
                    coords = next;
                    distance += 1;
                }
                Some((p.piece_type.as_num(), coords, distance))
            },
            None => None,
        }
    }
}

/// One key as the game sees it: held down, for how many frames, and whether it counts as a
/// press this frame.
#[derive(Clone, Copy, Debug, PartialEq, Eq, Structural)]
pub struct KeyState {
    pub key_down: bool,
    pub frames_down: usize,
    pub key_pressed: bool,
}

/// The key after a frame in which it was `down`: a new press counts once, a held key counts
/// its frames, a release resets it.
pub open spec fn key_step(k: KeyState, down: bool) -> KeyState {
    if down && k.key_down {
        KeyState { key_pressed: false, frames_down: if k.frames_down < usize::MAX { (k.frames_down + 1) as usize } else { k.frames_down }, ..k }
    } else if down {
        KeyState { key_down: true, frames_down: 0, key_pressed: true }
    } else if k.key_down {
        KeyState { key_down: false, frames_down: 0, key_pressed: false }
    } else {
        KeyState { key_pressed: false, ..k }
    }
}

impl KeyState {
    /// A key that is up and counts as pressed once.
    pub open spec fn spec_new() -> KeyState {
        KeyState { key_down: false, frames_down: 0, key_pressed: true }
    }

    /// A key that is up and counts as pressed once.
    #[verifier::when_used_as_spec(spec_new)]
    pub fn new() -> (r: KeyState)
        ensures
            r == (KeyState { key_down: false, frames_down: 0, key_pressed: true }),
    {
        KeyState { key_down: false, frames_down: 0, key_pressed: true }
    }

    /// Takes in whether the key is down this frame.
    pub fn update(&mut self, down: bool)
        ensures
            *final(self) == key_step(*old(self), down),
    {
        self.key_pressed = false;
        if down && self.key_down {
            self.frames_down = self.frames_down.saturating_add(1);
        } else if down {
            self.key_down = true;
            self.frames_down = 0;
            self.key_pressed = true;
        } else if self.key_down {
            self.key_down = false;
            self.frames_down = 0;
        }
    }
}

/// The six keys of the game.
#[derive(Clone, Copy, Debug, PartialEq, Eq, Structural)]
pub struct TetrisInput {
    pub up: KeyState,
    pub left: KeyState,
    pub right: KeyState,
    pub down: KeyState,
    pub drop_down: KeyState,
    pub save: KeyState,
}

impl TetrisInput {
    /// All keys up.
    pub fn init() -> (r: TetrisInput)
        ensures
            r.up == KeyState::spec_new() && r.left == KeyState::spec_new() && r.right
                == KeyState::spec_new() && r.down == KeyState::spec_new() && r.drop_down
                == KeyState::spec_new() && r.save == KeyState::spec_new(),
    {
        TetrisInput {
            up: KeyState::new(),
            left: KeyState::new(),
            right: KeyState::new(),
            down: KeyState::new(),
            drop_down: KeyState::new(),
            save: KeyState::new(),
        }
    }

    /// Rotate was pressed this frame.
    pub fn up_pressed(&self) -> (r: bool)
        ensures
            r == self.up.key_pressed,
    {
        self.up.key_pressed
    }

    /// Move left was pressed this frame.
    pub fn left_pressed(&self) -> (r: bool)
        ensures
            r == self.left.key_pressed,
    {
        self.left.key_pressed
    }

    /// Soft drop is active this frame.
    pub fn down_pressed(&self) -> (r: bool)
        ensures
            r == self.down.key_pressed,
    {
        self.down.key_pressed
    }

    /// Move right was pressed this frame.
    pub fn right_pressed(&self) -> (r: bool)
        ensures
            r == self.right.key_pressed,
    {
        self.right.key_pressed
    }

    /// Hold was pressed this frame.
    pub fn save_pressed(&self) -> (r: bool)
        ensures
            r == self.save.key_pressed,
    {
        self.save.key_pressed
    }

    /// Hard drop was pressed this frame.
    pub fn drop_down_pressed(&self) -> (r: bool)
        ensures
            r == self.drop_down.key_pressed,
    {
        self.drop_down.key_pressed
    }
}

/// The sound state of the game; the game makes no sound yet.
#[derive(Clone, Copy, Debug, PartialEq, Eq, Structural)]
pub struct TetrisSound {}

impl TetrisSound {
    /// Silence.
    pub fn init() -> (r: TetrisSound)
        ensures
            r == (TetrisSound {}),
    {
        TetrisSound {}
    }
}

/// `n!`.
pub open spec fn fact(n: nat) -> nat
    decreases n,
{
    if n <= 1 {
        1
    } else {
        n * fact((n - 1) as nat)
    }
}

/// `n!` grows with `n`.
proof fn lemma_fact_grows(i: nat, n: nat)
    requires
        1 <= i <= n,
    ensures
        1 <= fact(i) <= fact(n),
    decreases n,
{
    if n > 1 {
        lemma_fact_grows(if i < n { i } else { 1 }, (n - 1) as nat);
        assert(fact((n - 1) as nat) <= n * fact((n - 1) as nat)) by (nonlinear_arith)
            requires
                n >= 1,
        ;
    }
}

/// `num!`, for a `num` whose factorial fits in a `usize`.
pub fn factorial(num: usize) -> (r: usize)
    requires
        fact(num as nat) <= usize::MAX,
    ensures
        r == fact(num as nat),
{
    if num <= 1 {
        return 1;
    }
    let n = num;
    let mut acc = num;
    let mut i: usize = 2;
    proof {
        assert(fact((i - 1) as nat) == 1);
        assert(n * fact((i - 1) as nat) == n);
    }
    while i < n
        invariant
            2 <= i <= n,
            fact(n as nat) <= usize::MAX,
            acc == n * fact((i - 1) as nat),
        decreases n - i,
    {
        proof {
            lemma_fact_grows(i as nat, (n - 1) as nat);
            assert(n * fact(i as nat) <= n * fact((n - 1) as nat)) by (nonlinear_arith)
                requires
                    fact(i as nat) <= fact((n - 1) as nat),
            ;
            assert(fact(i as nat) == i * fact((i - 1) as nat));
            assert(acc * i == n * fact(i as nat)) by (nonlinear_arith)
                requires
                    acc == n * fact((i - 1) as nat),
                    fact(i as nat) == i * fact((i - 1) as nat),
            ;
        }
        acc = acc * i;
        i += 1;
    }
    acc
}


/// The piece of kind `t` that enters the game: rotation 0, its box corner at column 5, row 22.
pub open spec fn spawned(t: Tetrominoes) -> FallingPiece {
    FallingPiece { piece_type: t, frames_since_last_fall: 0, rotation: 0, coords: Coord { x: 5, y: 22 } }
}

/// A piece enters the game on the board.
proof fn lemma_spawned_wf(t: Tetrominoes)
    ensures
        spawned(t).wf(),
{
    match t {
        Tetrominoes::I => {},
        Tetrominoes::J => {},
        Tetrominoes::L => {},
        Tetrominoes::O => {},
        Tetrominoes::S => {},
        Tetrominoes::T => {},
        Tetrominoes::Z => {},
    }
}

/// `cand` where all its cells lie on the board over empty cells; `p` otherwise.
fn keep_if_free(board: &Board, p: FallingPiece, cand: FallingPiece) -> (r: FallingPiece)
    requires
        p.wf(),
        cand.near_board(),
    ensures
        r.wf(),
        r == (if fits_at(*board, cand, 0) { cand } else { p }),
{
    let cs = cand.get_coords();
    let ns = cs.as_slice();
    proof {
        assert forall|i: int| 0 <= i < 4 implies #[trigger] ns@[i] == cs[i] by {}
    }
    if board.is_any_intersecting(ns) {
        proof {
            let i = choose|i: int|
                0 <= i < ns@.len() && (!on_board(#[trigger] ns@[i]) || board.cell(
                    ns@[i].x as int,
                    ns@[i].y as int,
                ) != 0);
            assert(ns@[i] == cs[i]);
            assert(!(in_bounds(cell_pos(cand, i).0, cell_pos(cand, i).1 + 0) && board.cell(
                cell_pos(cand, i).0,
                cell_pos(cand, i).1 + 0,
            ) == 0));
        }
        p
    } else {
        proof {
            assert forall|i: int| 0 <= i < 4 implies in_bounds(#[trigger] cell_pos(cand, i).0, cell_pos(cand, i).1 + 0) && board.cell(
                cell_pos(cand, i).0,
                cell_pos(cand, i).1 + 0,
            ) == 0 by {
                assert(ns@[i] == cs[i]);
            }
            assert forall|i: int| 0 <= i < 4 implies in_bounds(#[trigger] cell_pos(cand, i).0, cell_pos(cand, i).1) by {
                assert(in_bounds(cell_pos(cand, i).0, cell_pos(cand, i).1 + 0));
            }
        }
        cand
    }
}

/// Writes `data` into the four cells `cs`; every other cell keeps what it held.
fn fill_cells(board: &mut Board, data: u8, cs: [Coord; 4])
    requires
        forall|i: int| 0 <= i < 4 ==> on_board(#[trigger] cs[i]),
    ensures
        forall|i: int|
            0 <= i < 4 ==> #[trigger] final(board).cell(cs[i].x as int, cs[i].y as int) == (data as u32)
                & 7u32,
        forall|x: int, y: int|
            0 <= x < 10 && 0 <= y < 40 && (forall|i: int| 0 <= i < 4 ==> cs[i].x != x || cs[i].y != y)
                ==> #[trigger] final(board).cell(x, y) == old(board).cell(x, y),
{
    let ghost before = *board;
    let mut i: usize = 0;
    while i < 4
        invariant
            0 <= i <= 4,
            forall|j: int| 0 <= j < 4 ==> on_board(#[trigger] cs[j]),
            forall|j: int|
                0 <= j < i ==> #[trigger] board.cell(cs[j].x as int, cs[j].y as int) == (data as u32) & 7u32,
            forall|x: int, y: int|
                0 <= x < 10 && 0 <= y < 40 && (forall|j: int| 0 <= j < i ==> cs[j].x != x || cs[j].y != y)
                    ==> #[trigger] board.cell(x, y) == before.cell(x, y),
        decreases 4 - i,
    {
        board.set_data_at_coord(data, cs[i]);
        i += 1;
    }
}

/// One round of the frame-counter hash: fold the high half into the low half, then multiply,
/// wrapping at 32 bits.
pub open spec fn mix(x: u32) -> u32 {
    ((((x >> 16u32) ^ x) as int * 0x45d9f3b) % 0x1_0000_0000) as u32
}

/// The hash of frame `x` that picks pieces.
pub open spec fn frame_hash(x: u32) -> u32 {
    let y = mix(mix(x));
    (y >> 16u32) ^ y
}

/// A whole game: its state, its keys, its sound and the number of frames played.
pub struct Tetris {
    game: TetrisGame,
    input: TetrisInput,
    sound: TetrisSound,
    frame_counter: u32,
}

impl Tetris {
    /// The game state.
    pub closed spec fn spec_game(&self) -> TetrisGame {
        self.game
    }

    /// The key states.
    pub closed spec fn spec_input(&self) -> TetrisInput {
        self.input
    }

    /// Frames played so far, wrapping at 32 bits.
    pub closed spec fn spec_frame_counter(&self) -> u32 {
        self.frame_counter
    }

    /// The piece in play lies on the board.
    pub open spec fn wf(&self) -> bool {
        self.spec_game().wf()
    }

    /// A new game: empty board, no piece, all keys up, no frame played.
    pub fn new() -> (r: Tetris)
        ensures
            r.wf(),
            r.spec_game().piece is None,
            r.spec_game().next_piece is None,
            forall|x: int, y: int| 0 <= x < 10 && 0 <= y < 40 ==> r.spec_game().board.cell(x, y) == 0,
            r.spec_game().score == 0 && r.spec_game().level == 0 && r.spec_game().lines_cleared == 0
                && r.spec_game().combo_count == 0,
            forall|i: int| 0 <= i < 8 ==> r.spec_game().piece_stats[i] == 0,
            r.spec_input() == (TetrisInput {
                up: KeyState::spec_new(),
                left: KeyState::spec_new(),
                right: KeyState::spec_new(),
                down: KeyState::spec_new(),
                drop_down: KeyState::spec_new(),
                save: KeyState::spec_new(),
            }),
            r.spec_frame_counter() == 0,
    {
        Tetris {
            game: TetrisGame::init(),
            input: TetrisInput::init(),
            sound: TetrisSound::init(),
            frame_counter: 0,
        }
    }

    /// The game state.
    pub fn game(&self) -> (r: &TetrisGame)
        ensures
            *r == self.spec_game(),
    {
        &self.game
    }

    /// A number in `min..=max` drawn from the frame counter.
    pub fn rand_num(&self, min: usize, max: usize) -> (r: usize)
        requires
            min <= max < usize::MAX,
        ensures
            min <= r <= max,
            r == ((frame_hash(self.spec_frame_counter()) >> 1u32) as usize) % ((max + 1 - min) as usize) + min,
    {
        let mut x = self.frame_counter;
        x = ((x >> 16) ^ x).wrapping_mul(0x45d9f3b_u32);
        x = ((x >> 16) ^ x).wrapping_mul(0x45d9f3b_u32);
        x = (x >> 16) ^ x;
        let x = (x >> 1) as usize;
        let dif = (max + 1) - min;
        (x % dif) + min
    }

    /// Takes in which keys are down this frame. Every key counts a new press once; soft drop
    /// counts for as long as it is held; left and right, held past twenty frames, repeat
    /// every eighth frame.
    pub fn update_input(
        &mut self,
        up: bool,
        left: bool,
        down: bool,
        right: bool,
        save: bool,
        drop_down: bool,
    )
        ensures
            final(self).spec_game() == old(self).spec_game(),
            final(self).spec_frame_counter() == old(self).spec_frame_counter(),
            final(self).spec_input() == input_step(
                old(self).spec_input(),
                up,
                left,
                down,
                right,
                save,
                drop_down,
            ),
    {
        self.input.up.update(up);
        self.input.left.update(left);
        self.input.down.update(down);
        self.input.right.update(right);
        self.input.save.update(save);
        self.input.drop_down.update(drop_down);
        self.input.down.key_pressed = self.input.down.key_down;
        if self.input.left.frames_down > 20 {
            self.input.left.key_pressed = self.input.left.frames_down % 8 == 0;
        }
        if self.input.right.frames_down > 20 {
            self.input.right.key_pressed = self.input.right.frames_down % 8 == 0;
        }
    }

    /// Plays the sound of this frame; the game makes none yet.
    pub fn update_sound(&self) {
        let _ = &self.sound;
    }
}

/// The keys after a frame in which each was `down` or not: every key counts a new press once;
/// soft drop counts for as long as it is held; left and right, held past twenty frames, repeat
/// every eighth frame.
pub open spec fn input_step(
    k: TetrisInput,
    up: bool,
    left: bool,
    down: bool,
    right: bool,
    save: bool,
    drop_down: bool,
) -> TetrisInput {
    TetrisInput {
        up: key_step(k.up, up),
        left: repeat(key_step(k.left, left)),
        right: repeat(key_step(k.right, right)),
        down: KeyState { key_pressed: key_step(k.down, down).key_down, ..key_step(k.down, down) },
        drop_down: key_step(k.drop_down, drop_down),
        save: key_step(k.save, save),
    }
}

/// `a + b`, or `u32::MAX` where the sum does not fit.
pub open spec fn sat_add(a: u32, b: int) -> u32 {
    if a + b <= u32::MAX {
        (a + b) as u32
    } else {
        u32::MAX
    }
}

/// The frames a piece waits before falling a row at `level`; half as many under soft drop.
pub open spec fn gravity(level: u32, soft: bool) -> int {
    let g = GRAVITY_TABLE[if level > 29 { 29int } else { level as int }] as int;
    if soft {
        g / 2
    } else {
        g
    }
}

/// The number of the kind of piece that enters the game at frame `fc`.
pub open spec fn rand_piece(fc: u32) -> int {
    ((frame_hash(fc) >> 1u32) as usize) as int % 7
}

/// `b1` is `b0` with piece `p`, moved down `dy` rows, settled as value `v`: its cells hold `v`
/// and every other cell is unchanged.
pub open spec fn settle_fill(b0: Board, b1: Board, p: FallingPiece, dy: int, v: u32) -> bool {
    &&& forall|i: int| 0 <= i < 4 ==> #[trigger] b1.cell(cell_pos(p, i).0, cell_pos(p, i).1 + dy) == v
    &&& forall|x: int, y: int|
        0 <= x < 10 && 0 <= y < 40 && (forall|i: int|
            0 <= i < 4 ==> cell_pos(p, i).0 != x || cell_pos(p, i).1 + dy != y) ==> #[trigger] b1.cell(x, y)
            == b0.cell(x, y)
}

/// `b1` holds the same cells as `b0`.
pub open spec fn same_cells(b0: Board, b1: Board) -> bool {
    forall|x: int, y: int| 0 <= x < 10 && 0 <= y < 40 ==> #[trigger] b1.cell(x, y) == b0.cell(x, y)
}

/// The piece counts after a piece of number `k` settled: its count and the total count grow by
/// one, saturating; the others stay.
pub open spec fn stats_bumped(s0: [u32; 8], s1: [u32; 8], k: int) -> bool {
    forall|i: int|
        0 <= i < 8 ==> #[trigger] s1[i] == (if i == k || i == 7 {
            sat_add(s0[i], 1)
        } else {
            s0[i]
        })
}

/// A new piece entered at frame `fc`: of the kind drawn from the frame counter, at the spawn
/// place.
pub open spec fn spawns(g1: TetrisGame, fc: u32) -> bool {
    &&& g1.piece is Some
    &&& g1.piece->0 == spawned(g1.piece->0.piece_type)
    &&& piece_num(g1.piece->0.piece_type) == rand_piece(fc)
}

/// What one frame of play does to game `g0` with keys `inp` at frame `fc`, giving `g1`.
/// Level, lines, combo and the next piece never change.
/// - Hard drop with no piece: nothing changes.
/// - Hard drop: the piece settles where it lands, two points a row, and a new piece enters.
/// - No piece: a new piece enters.
/// - Otherwise: a point for soft drop; the piece waits a frame more and, once it has waited
///   longer than the level allows, falls a row or, where it cannot, settles and a new piece
///   enters. A piece that does not settle keeps its kind, and every fall, move or rotation
///   that would leave the board or meet a filled cell is undone: it ends where it fits or
///   where it started.
pub open spec fn game_step(g0: TetrisGame, inp: TetrisInput, fc: u32, g1: TetrisGame) -> bool {
    &&& g1.level == g0.level
    &&& g1.lines_cleared == g0.lines_cleared
    &&& g1.combo_count == g0.combo_count
    &&& g1.next_piece == g0.next_piece
    &&& match g0.piece {
        None => if inp.drop_down.key_pressed {
            g1.score == g0.score && same_cells(g0.board, g1.board) && g1.piece_stats == g0.piece_stats
                && g1.piece is None
        } else {
            g1.score == g0.score && same_cells(g0.board, g1.board) && g1.piece_stats == g0.piece_stats
                && spawns(g1, fc)
        },
        Some(p) => {
            let n = piece_num(p.piece_type) as int;
            if inp.drop_down.key_pressed {
                let d = drop_rows(g0.board, p, 0);
                &&& g1.score == sat_add(g0.score, 2 * d)
                &&& settle_fill(g0.board, g1.board, p, d, (n + 1) as u32)
                &&& stats_bumped(g0.piece_stats, g1.piece_stats, n)
                &&& spawns(g1, fc)
            } else {
                let soft = inp.down.key_pressed;
                let frames = if p.frames_since_last_fall < usize::MAX {
                    p.frames_since_last_fall + 1
                } else {
                    p.frames_since_last_fall as int
                };
                let falls = frames > gravity(g0.level, soft);
                let settles = falls && !fits_at(g0.board, p, 1);
                &&& g1.score == sat_add(g0.score, if soft { 1 } else { 0 })
                &&& settles ==> settle_fill(g0.board, g1.board, p, 0, (n + 1) as u32) && stats_bumped(
                    g0.piece_stats,
                    g1.piece_stats,
                    n,
                ) && spawns(g1, fc)
                &&& !settles ==> same_cells(g0.board, g1.board) && g1.piece_stats == g0.piece_stats
                    && (g1.piece matches Some(q) && q.piece_type == p.piece_type
                    && q.frames_since_last_fall == (if falls { 0 } else { frames })
                    && (fits_at(g0.board, q, 0) || (q.coords == p.coords && q.rotation == p.rotation)))
            }
        },
    }
}

impl Tetris {
    /// One frame of play; see `game_step` for what it does.
    pub fn update_game(&mut self)
        requires
            old(self).wf(),
        ensures
            final(self).wf(),
            final(self).spec_input() == old(self).spec_input(),
            final(self).spec_frame_counter() == old(self).spec_frame_counter(),
            game_step(
                old(self).spec_game(),
                old(self).spec_input(),
                old(self).spec_frame_counter(),
                final(self).spec_game(),
            ),
    {
        let ghost g0 = self.game;
        let mut new = false;
        if self.input.drop_down_pressed() {
            match self.game.get_dropped_piece() {
                Some((n, cs, d)) => {
                    proof {
                        let p = self.game.piece->0;
                        assert forall|i: int| 0 <= i < 4 implies on_board(#[trigger] cs[i]) by {
                            if d == 0 {
                                assert(in_bounds(cell_pos(p, i).0, cell_pos(p, i).1));
                            } else {
                                assert(fits_at(self.game.board, p, d as int));
                                assert(in_bounds(cell_pos(p, i).0, cell_pos(p, i).1 + d));
                            }
                        }
                    }
                    fill_cells(&mut self.game.board, n + 1, cs);
                    proof {
                        let p = g0.piece->0;
                        lemma_fill_is_settle(g0.board, self.game.board, p, d as int, cs, (n + 1) as u8);
                    }
                    self.game.score = self.game.score.saturating_add(d as u32 * 2);
                    new = true;
                },
                None => {},
            }
        } else {
            match self.game.piece {
                Some(p0) => {
                    let mut piece = p0;
                    proof {
                        lemma_wf_near_board(piece);
                    }
                    piece.frames_since_last_fall = piece.frames_since_last_fall.saturating_add(1);
                    proof {
                        assert forall|i: int| 0 <= i < 4 implies cell_pos(piece, i) == cell_pos(p0, i) && in_bounds(
                            #[trigger] cell_pos(piece, i).0,
                            cell_pos(piece, i).1,
                        ) by {
                            assert(in_bounds(cell_pos(p0, i).0, cell_pos(p0, i).1));
                        }
                    }
                    let level = if self.game.level > 29 {
                        29
                    } else {
                        self.game.level
                    };
                    let mut grav = GRAVITY_TABLE[level as usize];
                    if self.input.down_pressed() {
                        let g = grav;
                        grav = g >> 1;
                        assert(grav == g / 2) by (bit_vector)
                            requires
                                grav == g >> 1u8,
                        ;
                        self.game.score = self.game.score.saturating_add(1);
                    }
                    if piece.frames_since_last_fall > grav as usize {
                        let lower = FallingPiece { coords: piece.coords.offset(0, 1), ..piece };
                        let moved = keep_if_free(&self.game.board, piece, lower);
                        proof {
                            lemma_lower_fits(g0.board, p0, lower);
                        }
                        if moved == piece {
                            new = true;
                            let cells = piece.get_coords();
                            proof {
                                assert forall|i: int| 0 <= i < 4 implies on_board(#[trigger] cells[i]) by {
                                    assert(in_bounds(cell_pos(piece, i).0, cell_pos(piece, i).1));
                                }
                            }
                            fill_cells(&mut self.game.board, piece.piece_type.as_num() + 1, cells);
                            proof {
                                assert forall|i: int| 0 <= i < 4 implies #[trigger] cells[i].x == cell_pos(p0, i).0
                                    && cells[i].y == cell_pos(p0, i).1 + 0 by {
                                    assert(cell_pos(piece, i) == cell_pos(p0, i));
                                }
                                lemma_fill_is_settle(
                                    g0.board,
                                    self.game.board,
                                    p0,
                                    0,
                                    cells,
                                    (piece_num(p0.piece_type) + 1) as u8,
                                );
                            }
                        }
                        piece = FallingPiece { frames_since_last_fall: 0, ..moved };
                        proof {
                            assert forall|i: int| 0 <= i < 4 implies cell_pos(piece, i) == cell_pos(moved, i) && in_bounds(
                                #[trigger] cell_pos(piece, i).0,
                                cell_pos(piece, i).1,
                            ) by {
                                assert(in_bounds(cell_pos(moved, i).0, cell_pos(moved, i).1));
                            }
                            if !new {
                                assert(fits_at(g0.board, piece, 0)) by {
                                    assert forall|i: int| 0 <= i < 4 implies in_bounds(
                                        #[trigger] cell_pos(piece, i).0,
                                        cell_pos(piece, i).1 + 0,
                                    ) && g0.board.cell(cell_pos(piece, i).0, cell_pos(piece, i).1 + 0) == 0 by {
                                        assert(cell_pos(piece, i) == cell_pos(moved, i));
                                        assert(in_bounds(cell_pos(moved, i).0, cell_pos(moved, i).1 + 0));
                                    }
                                }
                            }
                        }
                    }
                    proof {
                        lemma_wf_near_board(piece);
                    }
                    if self.input.left_pressed() {
                        let cand = FallingPiece { coords: piece.coords.offset(-1, 0), ..piece };
                        piece = keep_if_free(&self.game.board, piece, cand);
                        proof {
                            lemma_wf_near_board(piece);
                        }
                    }
                    if self.input.right_pressed() {
                        let cand = FallingPiece { coords: piece.coords.offset(1, 0), ..piece };
                        piece = keep_if_free(&self.game.board, piece, cand);
                        proof {
                            lemma_wf_near_board(piece);
                        }
                    }
                    if self.input.up_pressed() {
                        let next = piece.rotation + 1;
                        let r = next & 3;
                        assert(r < 4) by (bit_vector)
                            requires
                                r == next & 3u8,
                        ;
                        let cand = FallingPiece { rotation: r, ..piece };
                        piece = keep_if_free(&self.game.board, piece, cand);
                    }
                    self.game.piece = Some(piece);
                },
                None => {
                    new = true;
                },
            }
        }
        if new {
            match self.game.piece {
                Some(piece) => {
                    let k = piece.piece_type.as_num() as usize;
                    self.game.piece_stats[k] = self.game.piece_stats[k].saturating_add(1);
                    self.game.piece_stats[7] = self.game.piece_stats[7].saturating_add(1);
                },
                None => {},
            }
            let t = Tetrominoes::from_num(self.rand_num(0, 6) as u8);
            proof {
                lemma_spawned_wf(t);
            }
            self.game.piece = Some(
                FallingPiece {
                    piece_type: t,
                    frames_since_last_fall: 0,
                    rotation: 0,
                    coords: Coord { x: 5, y: 22 },
                },
            );
        }
    }

    /// One frame: takes in the keys that are down, plays the sound, steps the game and counts
    /// the frame. Tells whether to go on: not once the quit key is down.
    pub fn run_frame(
        &mut self,
        up: bool,
        left: bool,
        down: bool,
        right: bool,
        save: bool,
        drop_down: bool,
        quit: bool,
    ) -> (r: bool)
        requires
            old(self).wf(),
        ensures
            final(self).wf(),
            final(self).spec_input() == input_step(
                old(self).spec_input(),
                up,
                left,
                down,
                right,
                save,
                drop_down,
            ),
            game_step(
                old(self).spec_game(),
                final(self).spec_input(),
                old(self).spec_frame_counter(),
                final(self).spec_game(),
            ),
            final(self).spec_frame_counter() == old(self).spec_frame_counter().wrapping_add(1),
            r == !quit,
    {
        self.update_input(up, left, down, right, save, drop_down);
        self.update_sound();
        self.update_game();
        self.frame_counter = self.frame_counter.wrapping_add(1);
        !quit
    }
}

/// Filling the four cells of piece `p`, moved down `dy` rows, with `v` settles it there.
proof fn lemma_fill_is_settle(b0: Board, b1: Board, p: FallingPiece, dy: int, cs: [Coord; 4], v: u8)
    requires
        v <= 7,
        forall|i: int|
            0 <= i < 4 ==> (#[trigger] cs[i]).x == cell_pos(p, i).0 && cs[i].y == cell_pos(p, i).1 + dy,
        forall|i: int|
            0 <= i < 4 ==> #[trigger] b1.cell(cs[i].x as int, cs[i].y as int) == (v as u32) & 7u32,
        forall|x: int, y: int|
            0 <= x < 10 && 0 <= y < 40 && (forall|i: int| 0 <= i < 4 ==> cs[i].x != x || cs[i].y != y)
                ==> #[trigger] b1.cell(x, y) == b0.cell(x, y),
    ensures
        settle_fill(b0, b1, p, dy, v as u32),
{
    assert((v as u32) & 7u32 == v as u32) by (bit_vector)
        requires
            v <= 7,
    ;
    assert forall|i: int| 0 <= i < 4 implies #[trigger] b1.cell(cell_pos(p, i).0, cell_pos(p, i).1 + dy)
        == v as u32 by {
        assert(b1.cell(cs[i].x as int, cs[i].y as int) == (v as u32) & 7u32);
    }
    assert forall|x: int, y: int|
        0 <= x < 10 && 0 <= y < 40 && (forall|i: int|
            0 <= i < 4 ==> cell_pos(p, i).0 != x || cell_pos(p, i).1 + dy != y) implies #[trigger] b1.cell(x, y)
        == b0.cell(x, y) by {
        assert forall|i: int| 0 <= i < 4 implies cs[i].x != x || cs[i].y != y by {
            assert(cs[i].x == cell_pos(p, i).0);
        }
    }
}

/// The piece one row lower fits exactly where the piece fits a row down.
proof fn lemma_lower_fits(board: Board, p: FallingPiece, lower: FallingPiece)
    requires
        lower.piece_type == p.piece_type,
        lower.rotation == p.rotation,
        lower.coords.x == p.coords.x,
        lower.coords.y == p.coords.y + 1,
    ensures
        fits_at(board, lower, 0) == fits_at(board, p, 1),
{
    assert forall|i: int| 0 <= i < 4 implies #[trigger] cell_pos(lower, i) == (cell_pos(p, i).0, cell_pos(p, i).1 + 1) by {}
    if fits_at(board, p, 1) {
        assert forall|i: int| 0 <= i < 4 implies in_bounds(#[trigger] cell_pos(lower, i).0, cell_pos(lower, i).1 + 0)
            && board.cell(cell_pos(lower, i).0, cell_pos(lower, i).1 + 0) == 0 by {
            assert(in_bounds(cell_pos(p, i).0, cell_pos(p, i).1 + 1));
        }
    }
    if fits_at(board, lower, 0) {
        assert forall|i: int| 0 <= i < 4 implies in_bounds(#[trigger] cell_pos(p, i).0, cell_pos(p, i).1 + 1)
            && board.cell(cell_pos(p, i).0, cell_pos(p, i).1 + 1) == 0 by {
            assert(in_bounds(cell_pos(lower, i).0, cell_pos(lower, i).1 + 0));
        }
    }
}

/// What the screen shows of the game, so that a frame redraws only what changed: the board,
/// the piece in play and its landing place, each as last drawn.
#[derive(Clone, Copy, Debug)]
pub struct TetrisRenderer {
    pub board: Option<Board>,
    pub piece: Option<(u8, [Coord; 4])>,
    pub dropped: Option<(u8, [Coord; 4])>,
}

impl TetrisRenderer {
    /// Nothing drawn yet.
    pub fn init() -> (r: TetrisRenderer)
        ensures
            r.board is None && r.piece is None && r.dropped is None,
    {
        TetrisRenderer { board: None, piece: None, dropped: None }
    }
}

/// A key held past twenty frames counts as pressed on every eighth frame.
pub open spec fn repeat(k: KeyState) -> KeyState {
    if k.frames_down > 20 {
        KeyState { key_pressed: k.frames_down % 8 == 0, ..k }
    } else {
        k
    }
}

} // verus!
