use vstd::prelude::*;
use rand::Rng;

verus! {

/// The seven piece shapes.
#[derive(Clone, Copy, Debug, PartialEq, Eq, Structural)]
pub enum Shape {
    IBLOCK,
    LBLOCK,
    RLBLOCK,
    ZBLOCK,
    RZBLOCK,
    TBLOCK,
    SQBLOCK,
}

/// The four quarter turns a piece can be in.
#[derive(Clone, Copy, Debug, PartialEq, Eq, Structural)]
pub enum Rotation {
    NIN,
    ONE,
    TWO,
    THR,
}

/// The directions a piece can be moved in.
#[derive(Clone, Copy, Debug, PartialEq, Eq, Structural)]
pub enum Direction {
    DOWN,
    LEFT,
    RIGHT,
}

/// A piece: its shape, colour, the four cells it covers and its rotation.
#[derive(Clone, Copy, Debug)]
pub struct Blocks {
    pub shape: Shape,
    pub color: (u8, u8, u8),
    pub block_pos: [(u8, u8); 4],
    pub rotation: Rotation,
}

/// The shape that a sample `n` of the shape distribution stands for.
pub open spec fn spec_shape_of_index(n: int) -> Shape {
    if n == 0 {
        Shape::IBLOCK
    } else if n == 1 {
        Shape::LBLOCK
    } else if n == 2 {
        Shape::RLBLOCK
    } else if n == 3 {
        Shape::ZBLOCK
    } else if n == 4 {
        Shape::RZBLOCK
    } else if n == 5 {
        Shape::TBLOCK
    } else {
        Shape::SQBLOCK
    }
}

/// The colour a fresh piece of the given shape has.
pub open spec fn spec_shape_color(shape: Shape) -> (u8, u8, u8) {
    match shape {
        Shape::RLBLOCK => (255, 100, 0),
        Shape::SQBLOCK => (255, 255, 50),
        Shape::LBLOCK => (0, 0, 255),
        Shape::ZBLOCK => (255, 0, 0),
        Shape::RZBLOCK => (0, 255, 0),
        Shape::TBLOCK => (255, 0, 255),
        Shape::IBLOCK => (0, 255, 255),
    }
}

/// The four cells a fresh piece of the given shape covers.
pub open spec fn spec_shape_cells(shape: Shape) -> Seq<(u8, u8)> {
    match shape {
        Shape::RLBLOCK => seq![(0u8, 0u8), (0u8, 1u8), (0u8, 1u8), (2u8, 2u8)],
        Shape::SQBLOCK => seq![(0u8, 1u8), (0u8, 1u8), (0u8, 0u8), (1u8, 1u8)],
        Shape::LBLOCK => seq![(0u8, 1u8), (1u8, 1u8), (2u8, 2u8), (1u8, 0u8)],
        Shape::ZBLOCK => seq![(0u8, 1u8), (1u8, 2u8), (1u8, 1u8), (0u8, 0u8)],
        Shape::RZBLOCK => seq![(0u8, 1u8), (1u8, 2u8), (0u8, 0u8), (1u8, 1u8)],
        Shape::TBLOCK => seq![(0u8, 1u8), (1u8, 2u8), (1u8, 1u8), (0u8, 1u8)],
        Shape::IBLOCK => seq![(1u8, 1u8), (1u8, 1u8), (0u8, 1u8), (2u8, 3u8)],
    }
}

/// A fresh piece of the given shape is exactly this one.
pub open spec fn is_fresh_block(b: Blocks, shape: Shape) -> bool {
    &&& b.shape == shape
    &&& b.color == spec_shape_color(shape)
    &&& b.block_pos@ == spec_shape_cells(shape)
    &&& b.rotation == Rotation::NIN
}

impl Shape {
    /// The shape that the sample `n` (from `0` to `6`) of the shape
    /// distribution stands for.
    pub fn from_index(n: u32) -> (s: Shape)
        requires
            n <= 6,
        ensures
            s == spec_shape_of_index(n as int),
    {
        match n {
            0 => Shape::IBLOCK,
            1 => Shape::LBLOCK,
            2 => Shape::RLBLOCK,
            3 => Shape::ZBLOCK,
            4 => Shape::RZBLOCK,
            5 => Shape::TBLOCK,
            _ => Shape::SQBLOCK,
        }
    }
}

/// Draws a random number from `low` up to, not including, `high`, with
/// the thread-local generator of `rand`.
///
/// Calls `rand::thread_rng().gen_range(low, high)`; its documentation says
/// that the result lies in `[low, high)` and that it panics when
/// `low >= high`, which `requires` rules out. Which number comes back is left
/// to chance.
#[verifier::external_body]
fn gen_range_u32(low: u32, high: u32) -> (r: u32)
    requires
        low < high,
    ensures
        low <= r < high,
{
    rand::thread_rng().gen_range(low, high)
}

/// Samples a random shape the way the shape distribution does: a number is
/// drawn from `0` up to, not including, `6` and mapped by
/// `Shape::from_index`; the square shape, which stands for `6`, never comes.
pub fn sample_shape() -> (s: Shape)
    ensures
        exists|n: int| 0 <= n < 6 && s == spec_shape_of_index(n),
        s != Shape::SQBLOCK,
{
    let n = gen_range_u32(0, 6);
    Shape::from_index(n)
}

impl Blocks {
    /// A fresh piece of the given shape, in its starting rotation.
    pub fn from_shape(shape: Shape) -> (b: Blocks)
        ensures
            is_fresh_block(b, shape),
    {
        let b = match shape {
            Shape::RLBLOCK => Blocks {
                shape,
                rotation: Rotation::NIN,
                color: (255, 100, 0),
                block_pos: [(0, 0), (0, 1), (0, 1), (2, 2)],
            },
            Shape::SQBLOCK => Blocks {
                shape,
                rotation: Rotation::NIN,
                color: (255, 255, 50),
                block_pos: [(0, 1), (0, 1), (0, 0), (1, 1)],
            },
            Shape::LBLOCK => Blocks {
                shape,
                rotation: Rotation::NIN,
                color: (0, 0, 255),
                block_pos: [(0, 1), (1, 1), (2, 2), (1, 0)],
            },
            Shape::ZBLOCK => Blocks {
                shape,
                rotation: Rotation::NIN,
                color: (255, 0, 0),
                block_pos: [(0, 1), (1, 2), (1, 1), (0, 0)],
            },
            Shape::RZBLOCK => Blocks {
                shape,
                rotation: Rotation::NIN,
                color: (0, 255, 0),
                block_pos: [(0, 1), (1, 2), (0, 0), (1, 1)],
            },
            Shape::TBLOCK => Blocks {
                shape,
                rotation: Rotation::NIN,
                color: (255, 0, 255),
                block_pos: [(0, 1), (1, 2), (1, 1), (0, 1)],
            },
            Shape::IBLOCK => Blocks {
                shape,
                rotation: Rotation::NIN,
                color: (0, 255, 255),
                block_pos: [(1, 1), (1, 1), (0, 1), (2, 3)],
            },
        };
        assert(b.block_pos@ =~= spec_shape_cells(shape));
        b
    }

    /// A fresh piece of a randomly sampled shape (never the square, see
    /// `sample_shape`).
    pub fn new() -> (b: Blocks)
        ensures
            exists|n: int| 0 <= n < 6 && is_fresh_block(b, #[trigger] spec_shape_of_index(n)),
            b.shape != Shape::SQBLOCK,
    {
        let shape = sample_shape();
        Blocks::from_shape(shape)
    }
}

/// How many values the first coordinate of a board cell takes: the board
/// is an array of 20 arrays, indexed by the cell's first coordinate.
pub const BOARD_X_CELLS: usize = 20;

/// How many values the second coordinate of a board cell takes; each
/// count of the board belongs to one value of it.
pub const BOARD_Y_CELLS: usize = 10;

/// The playing field: which cells are taken, the level, score and line
/// count, a count kept per value of the second cell coordinate, and the
/// piece that comes next.
pub struct Board {
    board: [[bool; 10]; 20],
    level: u8,
    score: u32,
    lines: u16,
    b_to_tetris: [u8; 10],
    next_block: Blocks,
}

impl Board {
    /// Whether the cell `(x, y)` is taken.
    pub closed spec fn spec_cell(self, x: int, y: int) -> bool {
        self.board@[x]@[y]
    }

    /// The count kept for the second coordinate `y`.
    pub closed spec fn spec_row_count(self, y: int) -> int {
        self.b_to_tetris@[y] as int
    }

    /// The piece that comes next.
    pub closed spec fn spec_next_block(self) -> Blocks {
        self.next_block
    }

    pub closed spec fn spec_level(self) -> u8 {
        self.level
    }

    pub closed spec fn spec_score(self) -> u32 {
        self.score
    }

    pub closed spec fn spec_lines(self) -> u16 {
        self.lines
    }

    /// Whether two boards hold the same cells.
    pub open spec fn same_cells(self, other: Board) -> bool {
        forall|x: int, y: int|
            0 <= x < BOARD_X_CELLS && 0 <= y < BOARD_Y_CELLS ==> #[trigger] self.spec_cell(x, y)
                == other.spec_cell(x, y)
    }

    /// Whether two boards have the same row counts.
    pub open spec fn same_counts(self, other: Board) -> bool {
        forall|y: int| 0 <= y < BOARD_Y_CELLS ==> #[trigger] self.spec_row_count(y) == other.spec_row_count(y)
    }

    /// Whether the piece `block` may move one cell in `direction`: the
    /// leading cell must not be at the edge, and the cell next to it must be
    /// free. Moving down looks at the first cell, moving left at the first
    /// cell, moving right at the second cell's column and the first cell's
    /// row.
    pub open spec fn spec_can_move(self, direction: Direction, block: Blocks) -> bool {
        let p0 = block.block_pos@[0];
        let p1 = block.block_pos@[1];
        match direction {
            Direction::DOWN => p0.1 != 19 && !self.spec_cell(p0.0 as int, p0.1 + 1),
            Direction::LEFT => p0.0 != 0 && !self.spec_cell(p0.0 - 1, p0.1 as int),
            Direction::RIGHT => p1.0 != 9 && !self.spec_cell(p1.0 + 1, p0.1 as int),
        }
    }

    /// The cell that `can_move` looks at lies on the board, whenever the
    /// piece is not at the edge it tests first.
    pub open spec fn can_move_in_range(direction: Direction, block: Blocks) -> bool {
        let p0 = block.block_pos@[0];
        let p1 = block.block_pos@[1];
        match direction {
            Direction::DOWN => p0.1 != 19 ==> p0.0 < BOARD_X_CELLS && p0.1 + 1 < BOARD_Y_CELLS,
            Direction::LEFT => p0.0 != 0 ==> p0.0 - 1 < BOARD_X_CELLS && p0.1 < BOARD_Y_CELLS,
            Direction::RIGHT => p1.0 != 9 ==> p1.0 + 1 < BOARD_X_CELLS && p0.1 < BOARD_Y_CELLS,
        }
    }

    /// An empty board at level 0 with no score or lines, and `next_block`
    /// waiting to be spawned.
    pub fn new(next_block: Blocks) -> (b: Board)
        ensures
            forall|x: int, y: int|
                0 <= x < BOARD_X_CELLS && 0 <= y < BOARD_Y_CELLS ==> !#[trigger] b.spec_cell(x, y),
            forall|y: int| 0 <= y < BOARD_Y_CELLS ==> #[trigger] b.spec_row_count(y) == 0,
            b.spec_level() == 0,
            b.spec_score() == 0,
            b.spec_lines() == 0,
            b.spec_next_block() == next_block,
    {
        Board {
            board: [[false; 10]; 20],
            level: 0,
            score: 0,
            lines: 0,
            b_to_tetris: [0; 10],
            next_block,
        }
    }

    /// Takes the four cells of a piece that has come to rest. The board is
    /// only read: no cell, row count or other field changes.
    pub fn place(&self, pos: [(u8, u8); 4]) {
        let _cells = pos;
    }

    /// Whether the piece `block` may move one cell in `direction` (see
    /// `spec_can_move`).
    pub fn can_move(&self, direction: Direction, block: Blocks) -> (r: bool)
        requires
            Self::can_move_in_range(direction, block),
        ensures
            r == self.spec_can_move(direction, block),
    {
        match direction {
            Direction::DOWN => {
                if block.block_pos[0].1 == 19 {
                    false
                } else if self.board[block.block_pos[0].0 as usize][(block.block_pos[0].1 + 1) as usize] {
                    false
                } else {
                    true
                }
            },
            Direction::LEFT => {
                if block.block_pos[0].0 == 0 {
                    false
                } else if self.board[(block.block_pos[0].0 - 1) as usize][block.block_pos[0].1 as usize] {
                    false
                } else {
                    true
                }
            },
            Direction::RIGHT => {
                if block.block_pos[1].0 == 9 {
                    false
                } else if self.board[(block.block_pos[1].0 + 1) as usize][block.block_pos[0].1 as usize] {
                    false
                } else {
                    true
                }
            },
        }
    }

    /// Hands out the waiting piece and puts a fresh random one (never the
    /// square, see `sample_shape`) in its place; nothing else changes.
    pub fn spawn_block(&mut self) -> (b: Blocks)
        ensures
            b == old(self).spec_next_block(),
            exists|n: int|
                0 <= n < 6 && is_fresh_block(
                    final(self).spec_next_block(),
                    #[trigger] spec_shape_of_index(n),
                ),
            final(self).spec_next_block().shape != Shape::SQBLOCK,
            final(self).same_cells(*old(self)),
            final(self).same_counts(*old(self)),
            final(self).spec_level() == old(self).spec_level(),
            final(self).spec_score() == old(self).spec_score(),
            final(self).spec_lines() == old(self).spec_lines(),
    {
        let mut block = Blocks::new();
        std::mem::swap(&mut self.next_block, &mut block);
        block
    }
}

/// On a board where every cell is free, a piece may move exactly when it
/// is not at the edge that `can_move` tests.
pub proof fn lemma_free_board_moves(b: Board, direction: Direction, block: Blocks)
    requires
        forall|x: int, y: int|
            0 <= x < BOARD_X_CELLS && 0 <= y < BOARD_Y_CELLS ==> !#[trigger] b.spec_cell(x, y),
        Board::can_move_in_range(direction, block),
    ensures
        b.spec_can_move(direction, block) == match direction {
            Direction::DOWN => block.block_pos@[0].1 != 19,
            Direction::LEFT => block.block_pos@[0].0 != 0,
            Direction::RIGHT => block.block_pos@[1].0 != 9,
        },
{
    let p0 = block.block_pos@[0];
    let p1 = block.block_pos@[1];
    match direction {
        Direction::DOWN => {
            if p0.1 != 19 {
                assert(!b.spec_cell(p0.0 as int, p0.1 + 1));
            }
        },
        Direction::LEFT => {
            if p0.0 != 0 {
                assert(!b.spec_cell(p0.0 - 1, p0.1 as int));
            }
        },
        Direction::RIGHT => {
            if p1.0 != 9 {
                assert(!b.spec_cell(p1.0 + 1, p0.1 as int));
            }
        },
    }
}

impl Board {
    /// Whether the cell `(x, y)` is taken.
    pub fn cell(&self, x: usize, y: usize) -> (taken: bool)
        requires
            x < BOARD_X_CELLS,
            y < BOARD_Y_CELLS,
        ensures
            taken == self.spec_cell(x as int, y as int),
    {
        self.board[x][y]
    }

    /// The row count kept for the second coordinate `y`.
    pub fn row_count(&self, y: usize) -> (c: u8)
        requires
            y < BOARD_Y_CELLS,
        ensures
            c == self.spec_row_count(y as int),
    {
        self.b_to_tetris[y]
    }

    /// The piece that comes next.
    pub fn next_block(&self) -> (b: Blocks)
        ensures
            b == self.spec_next_block(),
    {
        self.next_block
    }

    pub fn level(&self) -> (l: u8)
        ensures
            l == self.spec_level(),
    {
        self.level
    }

    pub fn score(&self) -> (s: u32)
        ensures
            s == self.spec_score(),
    {
        self.score
    }

    pub fn lines(&self) -> (l: u16)
        ensures
            l == self.spec_lines(),
    {
        self.lines
    }
}

/// The seven shapes have seven different colours, so a piece's colour
/// tells its shape.
pub proof fn lemma_shape_colours_distinct(s1: Shape, s2: Shape)
    requires
        s1 != s2,
    ensures
        spec_shape_color(s1) != spec_shape_color(s2),
{
}

} // verus!
