//! The board: a rectangular grid of cells with bounds-checked access.
//!
//! The board stores state and nothing else; the rules of the game live in
//! [`crate::game`]. A board is viewed as a sequence of `height` rows, each a
//! sequence of `width` cells, row `0` at the top.

use vstd::prelude::*;

verus! {

/// One grid position: empty, or holding one player's token.
#[derive(Clone, Copy, PartialEq, Eq, Structural, Debug)]
pub enum Cell {
    Empty,
    PlayerA,
    PlayerB,
}

/// The ways a request to the game core can be refused.
#[derive(Clone, Copy, PartialEq, Eq, Structural, Debug)]
pub enum GameError {
    /// A board dimension was zero at construction.
    InvalidDimensions,
    /// A column index at or beyond the board width was passed to a move.
    ColumnOutOfRange,
    /// The chosen column has no empty cell left.
    ColumnFull,
}

/// A rectangular grid of cells, `height` rows by `width` columns.
pub struct Board {
    width: usize,
    height: usize,
    grid: Vec<Vec<Cell>>,
}

impl View for Board {
    type V = Seq<Seq<Cell>>;

    closed spec fn view(&self) -> Seq<Seq<Cell>> {
        self.grid@.map_values(|row: Vec<Cell>| row@)
    }
}

impl Board {
    pub closed spec fn spec_width(&self) -> int {
        self.width as int
    }

    pub closed spec fn spec_height(&self) -> int {
        self.height as int
    }

    /// The board's shape matches its stated dimensions, and both are positive.
    pub open spec fn wf(&self) -> bool {
        crate::model::grid_dims(self@, self.spec_width(), self.spec_height())
    }

    /// Builds a board of `height` rows by `width` columns, all cells empty.
    /// Refuses a zero dimension.
    pub fn new(width: usize, height: usize) -> (result: Result<Board, GameError>)
        ensures
            match result {
                Ok(board) => {
                    &&& width >= 1 && height >= 1
                    &&& board.wf()
                    &&& board.spec_width() == width
                    &&& board.spec_height() == height
                    &&& forall|r: int, c: int|
                        0 <= r < height && 0 <= c < width ==> (#[trigger] board@[r][c]) is Empty
                },
                Err(e) => e == GameError::InvalidDimensions && (width == 0 || height == 0),
            },
    {
        if width == 0 || height == 0 {
            return Err(GameError::InvalidDimensions);
        }
        let mut grid: Vec<Vec<Cell>> = Vec::new();
        let mut r: usize = 0;
        while r < height
            invariant
                r <= height,
                grid@.len() == r,
                forall|i: int| 0 <= i < r ==> (#[trigger] grid@[i])@.len() == width,
                forall|i: int, j: int|
                    0 <= i < r && 0 <= j < width ==> (#[trigger] grid@[i]@[j]) is Empty,
            decreases height - r,
        {
            let mut row: Vec<Cell> = Vec::new();
            let mut c: usize = 0;
            while c < width
                invariant
                    c <= width,
                    row@.len() == c,
                    forall|j: int| 0 <= j < c ==> (#[trigger] row@[j]) is Empty,
                decreases width - c,
            {
                row.push(Cell::Empty);
                c += 1;
            }
            grid.push(row);
            r += 1;
        }
        let board = Board { width, height, grid };
        proof {
            assert forall|r2: int| 0 <= r2 < height implies (#[trigger] board@[r2]).len()
                == width by {
                assert(board@[r2] == board.grid@[r2]@);
            }
            assert forall|r2: int, c2: int|
                0 <= r2 < height && 0 <= c2 < width implies (#[trigger] board@[r2][c2])
                is Empty by {
                assert(board@[r2] == board.grid@[r2]@);
            }
        }
        Ok(board)
    }

    /// The board width, in columns.
    pub fn width(&self) -> (w: usize)
        ensures
            w == self.spec_width(),
    {
        self.width
    }

    /// The board height, in rows.
    pub fn height(&self) -> (h: usize)
        ensures
            h == self.spec_height(),
    {
        self.height
    }

    /// Reads one cell. The indices must be in bounds.
    pub fn get(&self, row: usize, column: usize) -> (value: Cell)
        requires
            self.wf(),
            row < self.spec_height(),
            column < self.spec_width(),
        ensures
            value == self@[row as int][column as int],
    {
        proof {
            assert(self@[row as int] == self.grid@[row as int]@);
        }
        self.grid[row][column]
    }

    /// Overwrites one cell. The indices must be in bounds; nothing else on the
    /// board changes.
    pub fn set(&mut self, row: usize, column: usize, value: Cell)
        requires
            old(self).wf(),
            row < old(self).spec_height(),
            column < old(self).spec_width(),
        ensures
            final(self).wf(),
            final(self).spec_width() == old(self).spec_width(),
            final(self).spec_height() == old(self).spec_height(),
            final(self)@ == old(self)@.update(
                row as int,
                old(self)@[row as int].update(column as int, value),
            ),
    {
        proof {
            assert(self@[row as int] == self.grid@[row as int]@);
        }
        let row_ref: &mut Vec<Cell> = &mut self.grid[row];
        row_ref.set(column, value);
        proof {
            let target = old(self)@.update(
                row as int,
                old(self)@[row as int].update(column as int, value),
            );
            assert forall|r2: int| 0 <= r2 < self@.len() implies #[trigger] self@[r2]
                == target[r2] by {
                assert(self@[r2] == self.grid@[r2]@);
                assert(old(self)@[r2] == old(self).grid@[r2]@);
            }
            assert(self@ =~~= target);
        }
    }
}

} // verus!
