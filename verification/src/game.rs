//! The game: a board plus a turn counter and a win-length rule. Moves drop a
//! token into a column under gravity, turns alternate strictly, and the win
//! scan looks for a run of the configured length in four directions.

use vstd::prelude::*;

use crate::board::Board;
use crate::board::Cell;
use crate::board::GameError;
use crate::model::column_full;
use crate::model::east_win;
use crate::model::grid_dims;
use crate::model::grid_full;
use crate::model::grid_tokens;
use crate::model::has_winner;
use crate::model::is_token;
use crate::model::landing_row;
use crate::model::lemma_grid_tokens_empty;
use crate::model::lemma_grid_tokens_lt;
use crate::model::lemma_grid_tokens_update;
use crate::model::lemma_lowest_empty_from;
use crate::model::lemma_run_east_cell;
use crate::model::lemma_run_northeast_cell;
use crate::model::lemma_run_south_cell;
use crate::model::lemma_run_southeast_cell;
use crate::model::lowest_empty_from;
use crate::model::northeast_win;
use crate::model::run_in_dir;
use crate::model::south_win;
use crate::model::southeast_win;

verus! {

/// One of the two players. PlayerA moves on odd turns, starting with turn 1.
#[derive(Clone, Copy, PartialEq, Eq, Structural, Debug)]
pub enum Player {
    PlayerA,
    PlayerB,
}

/// The cell value that marks a player's token.
pub open spec fn token_of(player: Player) -> Cell {
    match player {
        Player::PlayerA => Cell::PlayerA,
        Player::PlayerB => Cell::PlayerB,
    }
}

/// Whose move it is on a given turn number: PlayerA on odd turns.
pub open spec fn player_of_turn(turn: int) -> Player {
    if turn % 2 == 1 {
        Player::PlayerA
    } else {
        Player::PlayerB
    }
}

/// A connect-N game in progress: the board, the number of the turn about to
/// be played (starting at 1), and the run length required to win.
pub struct Game {
    board: Board,
    turn: usize,
    win_length: usize,
}

impl Game {
    /// The board contents, as a sequence of rows.
    pub closed spec fn grid(&self) -> Seq<Seq<Cell>> {
        self.board@
    }

    pub closed spec fn spec_width(&self) -> int {
        self.board.spec_width()
    }

    pub closed spec fn spec_height(&self) -> int {
        self.board.spec_height()
    }

    pub closed spec fn spec_win_length(&self) -> int {
        self.win_length as int
    }

    /// The number of the turn about to be played; turn 1 is the first.
    pub closed spec fn spec_turn(&self) -> int {
        self.turn as int
    }

    /// The player whose move it is.
    pub open spec fn current_player(&self) -> Player {
        player_of_turn(self.spec_turn())
    }

    /// The game's invariant: the board has its stated shape, the win length
    /// is positive, the turn counter is one more than the number of tokens on
    /// the board, and the board is small enough for the turn counter never to
    /// overflow.
    pub open spec fn wf(&self) -> bool {
        &&& grid_dims(self.grid(), self.spec_width(), self.spec_height())
        &&& 1 <= self.spec_win_length()
        &&& self.spec_turn() == 1 + grid_tokens(self.grid())
        &&& self.spec_width() <= usize::MAX as int
        &&& self.spec_height() <= usize::MAX as int
        &&& self.spec_width() * self.spec_height() < usize::MAX as int
    }

    /// Builds a game on an empty `width` by `height` board with the given win
    /// length, PlayerA to move. Refuses a zero dimension.
    pub fn new(width: usize, height: usize, win_length: usize) -> (result: Result<
        Game,
        GameError,
    >)
        requires
            1 <= win_length,
            (width as int) * (height as int) < usize::MAX as int,
        ensures
            match result {
                Ok(game) => {
                    &&& width >= 1 && height >= 1
                    &&& game.wf()
                    &&& game.spec_width() == width
                    &&& game.spec_height() == height
                    &&& game.spec_win_length() == win_length
                    &&& game.spec_turn() == 1
                    &&& forall|r: int, c: int|
                        0 <= r < height && 0 <= c < width ==> (#[trigger] game.grid()[r][c])
                            is Empty
                },
                Err(e) => e == GameError::InvalidDimensions && (width == 0 || height == 0),
            },
    {
        let board = match Board::new(width, height) {
            Ok(board) => board,
            Err(e) => {
                return Err(e);
            },
        };
        let game = Game { board, turn: 1, win_length };
        proof {
            lemma_grid_tokens_empty(game.grid());
        }
        Ok(game)
    }

    /// The player whose move it is: PlayerA on odd turns, PlayerB on even.
    pub fn get_player(&self) -> (player: Player)
        ensures
            player == self.current_player(),
    {
        if self.turn % 2 == 1 {
            Player::PlayerA
        } else {
            Player::PlayerB
        }
    }

    /// The board, for reading cell by cell.
    pub fn board(&self) -> (board: &Board)
        ensures
            board@ == self.grid(),
            board.spec_width() == self.spec_width(),
            board.spec_height() == self.spec_height(),
            self.wf() ==> board.wf(),
    {
        &self.board
    }

    /// The board width, in columns.
    pub fn width(&self) -> (w: usize)
        ensures
            w == self.spec_width(),
    {
        self.board.width()
    }

    /// The board height, in rows.
    pub fn height(&self) -> (h: usize)
        ensures
            h == self.spec_height(),
    {
        self.board.height()
    }

    /// The run length required to win.
    pub fn win_length(&self) -> (n: usize)
        ensures
            n == self.spec_win_length(),
    {
        self.win_length
    }

    /// Scans `column` from the bottom row upward for its lowest empty cell.
    fn find_landing(&self, column: usize) -> (found: Option<usize>)
        requires
            self.wf(),
            column < self.spec_width(),
        ensures
            match found {
                Some(row) => row < self.spec_height() && landing_row(self.grid(), column as int)
                    == Some(row as int),
                None => landing_row(self.grid(), column as int) is None,
            },
    {
        let height = self.board.height();
        let mut row: usize = height - 1;
        loop
            invariant
                self.wf(),
                column < self.spec_width(),
                row < self.spec_height(),
                lowest_empty_from(self.grid(), column as int, self.spec_height() - 1)
                    == lowest_empty_from(self.grid(), column as int, row as int),
            decreases row,
        {
            if self.board.get(row, column) == Cell::Empty {
                return Some(row);
            }
            if row == 0 {
                return None;
            }
            row -= 1;
        }
    }

    /// Applies the current player's move: the token drops into `column` and
    /// lands in its lowest empty cell, and the turn passes to the other
    /// player. Refuses a column index at or beyond the board width, and
    /// refuses a full column; a refused move changes nothing, the turn
    /// included. Ending the game is the driver's business: it stops asking
    /// for moves once `check_win` or `is_full` reports the end.
    pub fn make_move(&mut self, column: usize) -> (result: Result<(), GameError>)
        requires
            old(self).wf(),
        ensures
            final(self).wf(),
            final(self).spec_width() == old(self).spec_width(),
            final(self).spec_height() == old(self).spec_height(),
            final(self).spec_win_length() == old(self).spec_win_length(),
            column >= old(self).spec_width() ==> {
                &&& result == Err::<(), GameError>(GameError::ColumnOutOfRange)
                &&& final(self).grid() == old(self).grid()
                &&& final(self).spec_turn() == old(self).spec_turn()
            },
            column < old(self).spec_width() && column_full(old(self).grid(), column as int) ==> {
                &&& result == Err::<(), GameError>(GameError::ColumnFull)
                &&& final(self).grid() == old(self).grid()
                &&& final(self).spec_turn() == old(self).spec_turn()
            },
            column < old(self).spec_width() && !column_full(old(self).grid(), column as int) ==> {
                &&& result == Ok::<(), GameError>(())
                &&& landing_row(old(self).grid(), column as int) matches Some(row)
                    && final(self).grid() == old(self).grid().update(
                    row,
                    old(self).grid()[row].update(
                        column as int,
                        token_of(old(self).current_player()),
                    ),
                )
                &&& final(self).spec_turn() == old(self).spec_turn() + 1
            },
    {
        if column >= self.board.width() {
            return Err(GameError::ColumnOutOfRange);
        }
        proof {
            lemma_lowest_empty_from(self.grid(), column as int, self.spec_height() - 1);
        }
        match self.find_landing(column) {
            None => Err(GameError::ColumnFull),
            Some(row) => {
                let value = match self.get_player() {
                    Player::PlayerA => Cell::PlayerA,
                    Player::PlayerB => Cell::PlayerB,
                };
                proof {
                    lemma_grid_tokens_lt(
                        self.grid(),
                        self.spec_width(),
                        row as int,
                        column as int,
                    );
                    lemma_grid_tokens_update(self.grid(), row as int, column as int, value);
                }
                self.board.set(row, column, value);
                self.turn = self.turn + 1;
                Ok(())
            },
        }
    }

    /// Checks one horizontal window of `win_length` cells starting at
    /// `(row, col)` for a run of `value`.
    fn window_east(&self, row: usize, col: usize, value: Cell) -> (matched: bool)
        requires
            self.wf(),
            row < self.spec_height(),
            col + self.spec_win_length() <= self.spec_width(),
        ensures
            matched == run_in_dir(
                self.grid(),
                value,
                row as int,
                col as int,
                0,
                1,
                self.spec_win_length(),
            ),
    {
        let n = self.win_length;
        let mut i: usize = n;
        loop
            invariant
                self.wf(),
                n == self.spec_win_length(),
                row < self.spec_height(),
                col + n <= self.spec_width(),
                i <= n,
                run_in_dir(self.grid(), value, row as int, col as int + i, 0, 1, n - i),
            decreases i,
        {
            if i == 0 {
                return true;
            }
            i -= 1;
            if self.board.get(row, col + i) != value {
                proof {
                    if run_in_dir(
                        self.grid(),
                        value,
                        row as int,
                        col as int,
                        0,
                        1,
                        n as int,
                    ) {
                        lemma_run_east_cell(
                            self.grid(),
                            value,
                            row as int,
                            col as int,
                            n as int,
                            i as int,
                        );
                    }
                }
                return false;
            }
        }
    }

    /// Checks one vertical window of `win_length` cells starting at
    /// `(row, col)` for a run of `value`.
    fn window_south(&self, row: usize, col: usize, value: Cell) -> (matched: bool)
        requires
            self.wf(),
            row + self.spec_win_length() <= self.spec_height(),
            col < self.spec_width(),
        ensures
            matched == run_in_dir(
                self.grid(),
                value,
                row as int,
                col as int,
                1,
                0,
                self.spec_win_length(),
            ),
    {
        let n = self.win_length;
        let mut i: usize = n;
        loop
            invariant
                self.wf(),
                n == self.spec_win_length(),
                row + n <= self.spec_height(),
                col < self.spec_width(),
                i <= n,
                run_in_dir(self.grid(), value, row as int + i, col as int, 1, 0, n - i),
            decreases i,
        {
            if i == 0 {
                return true;
            }
            i -= 1;
            if self.board.get(row + i, col) != value {
                proof {
                    if run_in_dir(
                        self.grid(),
                        value,
                        row as int,
                        col as int,
                        1,
                        0,
                        n as int,
                    ) {
                        lemma_run_south_cell(
                            self.grid(),
                            value,
                            row as int,
                            col as int,
                            n as int,
                            i as int,
                        );
                    }
                }
                return false;
            }
        }
    }

    /// Checks one window sloping down to the right from `(row, col)` for a
    /// run of `value`.
    fn window_southeast(&self, row: usize, col: usize, value: Cell) -> (matched: bool)
        requires
            self.wf(),
            row + self.spec_win_length() <= self.spec_height(),
            col + self.spec_win_length() <= self.spec_width(),
        ensures
            matched == run_in_dir(
                self.grid(),
                value,
                row as int,
                col as int,
                1,
                1,
                self.spec_win_length(),
            ),
    {
        let n = self.win_length;
        let mut i: usize = n;
        loop
            invariant
                self.wf(),
                n == self.spec_win_length(),
                row + n <= self.spec_height(),
                col + n <= self.spec_width(),
                i <= n,
                run_in_dir(self.grid(), value, row as int + i, col as int + i, 1, 1, n - i),
            decreases i,
        {
            if i == 0 {
                return true;
            }
            i -= 1;
            if self.board.get(row + i, col + i) != value {
                proof {
                    if run_in_dir(
                        self.grid(),
                        value,
                        row as int,
                        col as int,
                        1,
                        1,
                        n as int,
                    ) {
                        lemma_run_southeast_cell(
                            self.grid(),
                            value,
                            row as int,
                            col as int,
                            n as int,
                            i as int,
                        );
                    }
                }
                return false;
            }
        }
    }

    /// Checks one window sloping up to the right from `(row, col)` for a run
    /// of `value`.
    fn window_northeast(&self, row: usize, col: usize, value: Cell) -> (matched: bool)
        requires
            self.wf(),
            self.spec_win_length() - 1 <= row < self.spec_height(),
            col + self.spec_win_length() <= self.spec_width(),
        ensures
            matched == run_in_dir(
                self.grid(),
                value,
                row as int,
                col as int,
                -1,
                1,
                self.spec_win_length(),
            ),
    {
        let n = self.win_length;
        let mut i: usize = n;
        loop
            invariant
                self.wf(),
                n == self.spec_win_length(),
                n - 1 <= row < self.spec_height(),
                col + n <= self.spec_width(),
                i <= n,
                run_in_dir(self.grid(), value, row as int - i, col as int + i, -1, 1, n - i),
            decreases i,
        {
            if i == 0 {
                return true;
            }
            i -= 1;
            if self.board.get(row - i, col + i) != value {
                proof {
                    if run_in_dir(
                        self.grid(),
                        value,
                        row as int,
                        col as int,
                        -1,
                        1,
                        n as int,
                    ) {
                        lemma_run_northeast_cell(
                            self.grid(),
                            value,
                            row as int,
                            col as int,
                            n as int,
                            i as int,
                        );
                    }
                }
                return false;
            }
        }
    }

    /// Scans every horizontal window of the board for a winning run.
    fn scan_east(&self) -> (found: bool)
        requires
            self.wf(),
        ensures
            found == east_win(
                self.grid(),
                self.spec_width(),
                self.spec_height(),
                self.spec_win_length(),
            ),
    {
        let n = self.win_length;
        let w = self.board.width();
        let h = self.board.height();
        if n > w {
            return false;
        }
        let mut r: usize = 0;
        while r < h
            invariant
                self.wf(),
                n == self.spec_win_length(),
                w == self.spec_width(),
                h == self.spec_height(),
                n <= w,
                r <= h,
                forall|t: Cell, r2: int, c2: int|
                    is_token(t) && 0 <= r2 < r && 0 <= c2 && c2 + n <= w ==> !#[trigger] run_in_dir(
                        self.grid(),
                        t,
                        r2,
                        c2,
                        0,
                        1,
                        n as int,
                    ),
            decreases h - r,
        {
            let mut c: usize = 0;
            while c <= w - n
                invariant
                    self.wf(),
                    n == self.spec_win_length(),
                    w == self.spec_width(),
                    h == self.spec_height(),
                    n <= w,
                    r < h,
                    c <= w - n + 1,
                    forall|t: Cell, r2: int, c2: int|
                        is_token(t) && 0 <= r2 < r && 0 <= c2 && c2 + n <= w
                            ==> !#[trigger] run_in_dir(self.grid(), t, r2, c2, 0, 1, n as int),
                    forall|t: Cell, c2: int|
                        is_token(t) && 0 <= c2 < c ==> !#[trigger] run_in_dir(
                            self.grid(),
                            t,
                            r as int,
                            c2,
                            0,
                            1,
                            n as int,
                        ),
                decreases w - c,
            {
                if self.window_east(r, c, Cell::PlayerA) {
                    return true;
                }
                if self.window_east(r, c, Cell::PlayerB) {
                    return true;
                }
                c += 1;
            }
            r += 1;
        }
        proof {
            if east_win(self.grid(), w as int, h as int, n as int) {
                let (t, r2, c2) = choose|t: Cell, r2: int, c2: int|
                    is_token(t) && 0 <= r2 < h && 0 <= c2 && c2 + n <= w
                        && #[trigger] run_in_dir(self.grid(), t, r2, c2, 0, 1, n as int);
                assert(!run_in_dir(self.grid(), t, r2, c2, 0, 1, n as int));
            }
        }
        false
    }

    /// Scans every vertical window of the board for a winning run.
    fn scan_south(&self) -> (found: bool)
        requires
            self.wf(),
        ensures
            found == south_win(
                self.grid(),
                self.spec_width(),
                self.spec_height(),
                self.spec_win_length(),
            ),
    {
        let n = self.win_length;
        let w = self.board.width();
        let h = self.board.height();
        if n > h {
            return false;
        }
        let mut c: usize = 0;
        while c < w
            invariant
                self.wf(),
                n == self.spec_win_length(),
                w == self.spec_width(),
                h == self.spec_height(),
                n <= h,
                c <= w,
                forall|t: Cell, r2: int, c2: int|
                    is_token(t) && 0 <= c2 < c && 0 <= r2 && r2 + n <= h ==> !#[trigger] run_in_dir(
                        self.grid(),
                        t,
                        r2,
                        c2,
                        1,
                        0,
                        n as int,
                    ),
            decreases w - c,
        {
            let mut r: usize = 0;
            while r <= h - n
                invariant
                    self.wf(),
                    n == self.spec_win_length(),
                    w == self.spec_width(),
                    h == self.spec_height(),
                    n <= h,
                    c < w,
                    r <= h - n + 1,
                    forall|t: Cell, r2: int, c2: int|
                        is_token(t) && 0 <= c2 < c && 0 <= r2 && r2 + n <= h
                            ==> !#[trigger] run_in_dir(self.grid(), t, r2, c2, 1, 0, n as int),
                    forall|t: Cell, r2: int|
                        is_token(t) && 0 <= r2 < r ==> !#[trigger] run_in_dir(
                            self.grid(),
                            t,
                            r2,
                            c as int,
                            1,
                            0,
                            n as int,
                        ),
                decreases h - r,
            {
                if self.window_south(r, c, Cell::PlayerA) {
                    return true;
                }
                if self.window_south(r, c, Cell::PlayerB) {
                    return true;
                }
                r += 1;
            }
            c += 1;
        }
        proof {
            if south_win(self.grid(), w as int, h as int, n as int) {
                let (t, r2, c2) = choose|t: Cell, r2: int, c2: int|
                    is_token(t) && 0 <= c2 < w && 0 <= r2 && r2 + n <= h
                        && #[trigger] run_in_dir(self.grid(), t, r2, c2, 1, 0, n as int);
                assert(!run_in_dir(self.grid(), t, r2, c2, 1, 0, n as int));
            }
        }
        false
    }

    /// Scans every window sloping down to the right for a winning run.
    fn scan_southeast(&self) -> (found: bool)
        requires
            self.wf(),
        ensures
            found == southeast_win(
                self.grid(),
                self.spec_width(),
                self.spec_height(),
                self.spec_win_length(),
            ),
    {
        let n = self.win_length;
        let w = self.board.width();
        let h = self.board.height();
        if n > w || n > h {
            return false;
        }
        let mut r: usize = 0;
        while r <= h - n
            invariant
                self.wf(),
                n == self.spec_win_length(),
                w == self.spec_width(),
                h == self.spec_height(),
                n <= w,
                n <= h,
                r <= h - n + 1,
                forall|t: Cell, r2: int, c2: int|
                    is_token(t) && 0 <= r2 < r && 0 <= c2 && c2 + n <= w ==> !#[trigger] run_in_dir(
                        self.grid(),
                        t,
                        r2,
                        c2,
                        1,
                        1,
                        n as int,
                    ),
            decreases h - r,
        {
            let mut c: usize = 0;
            while c <= w - n
                invariant
                    self.wf(),
                    n == self.spec_win_length(),
                    w == self.spec_width(),
                    h == self.spec_height(),
                    n <= w,
                    n <= h,
                    r <= h - n,
                    c <= w - n + 1,
                    forall|t: Cell, r2: int, c2: int|
                        is_token(t) && 0 <= r2 < r && 0 <= c2 && c2 + n <= w
                            ==> !#[trigger] run_in_dir(self.grid(), t, r2, c2, 1, 1, n as int),
                    forall|t: Cell, c2: int|
                        is_token(t) && 0 <= c2 < c ==> !#[trigger] run_in_dir(
                            self.grid(),
                            t,
                            r as int,
                            c2,
                            1,
                            1,
                            n as int,
                        ),
                decreases w - c,
            {
                if self.window_southeast(r, c, Cell::PlayerA) {
                    return true;
                }
                if self.window_southeast(r, c, Cell::PlayerB) {
                    return true;
                }
                c += 1;
            }
            r += 1;
        }
        proof {
            if southeast_win(self.grid(), w as int, h as int, n as int) {
                let (t, r2, c2) = choose|t: Cell, r2: int, c2: int|
                    is_token(t) && 0 <= c2 && c2 + n <= w && 0 <= r2 && r2 + n <= h
                        && #[trigger] run_in_dir(self.grid(), t, r2, c2, 1, 1, n as int);
                assert(!run_in_dir(self.grid(), t, r2, c2, 1, 1, n as int));
            }
        }
        false
    }

    /// Scans every window sloping up to the right for a winning run.
    fn scan_northeast(&self) -> (found: bool)
        requires
            self.wf(),
        ensures
            found == northeast_win(
                self.grid(),
                self.spec_width(),
                self.spec_height(),
                self.spec_win_length(),
            ),
    {
        let n = self.win_length;
        let w = self.board.width();
        let h = self.board.height();
        if n > w || n > h {
            return false;
        }
        let mut r: usize = n - 1;
        while r < h
            invariant
                self.wf(),
                n == self.spec_win_length(),
                w == self.spec_width(),
                h == self.spec_height(),
                n <= w,
                n <= h,
                n - 1 <= r <= h,
                forall|t: Cell, r2: int, c2: int|
                    is_token(t) && n - 1 <= r2 < r && 0 <= c2 && c2 + n <= w
                        ==> !#[trigger] run_in_dir(self.grid(), t, r2, c2, -1, 1, n as int),
            decreases h - r,
        {
            let mut c: usize = 0;
            while c <= w - n
                invariant
                    self.wf(),
                    n == self.spec_win_length(),
                    w == self.spec_width(),
                    h == self.spec_height(),
                    n <= w,
                    n <= h,
                    n - 1 <= r < h,
                    c <= w - n + 1,
                    forall|t: Cell, r2: int, c2: int|
                        is_token(t) && n - 1 <= r2 < r && 0 <= c2 && c2 + n <= w
                            ==> !#[trigger] run_in_dir(self.grid(), t, r2, c2, -1, 1, n as int),
                    forall|t: Cell, c2: int|
                        is_token(t) && 0 <= c2 < c ==> !#[trigger] run_in_dir(
                            self.grid(),
                            t,
                            r as int,
                            c2,
                            -1,
                            1,
                            n as int,
                        ),
                decreases w - c,
            {
                if self.window_northeast(r, c, Cell::PlayerA) {
                    return true;
                }
                if self.window_northeast(r, c, Cell::PlayerB) {
                    return true;
                }
                c += 1;
            }
            r += 1;
        }
        proof {
            if northeast_win(self.grid(), w as int, h as int, n as int) {
                let (t, r2, c2) = choose|t: Cell, r2: int, c2: int|
                    is_token(t) && 0 <= c2 && c2 + n <= w && n - 1 <= r2 < h
                        && #[trigger] run_in_dir(self.grid(), t, r2, c2, -1, 1, n as int);
                assert(!run_in_dir(self.grid(), t, r2, c2, -1, 1, n as int));
            }
        }
        false
    }

    /// Scans the whole board for a run of `win_length` tokens of one player
    /// in any of the four directions: horizontal, vertical, and the two
    /// diagonals. Windows flush against every edge are included.
    pub fn check_win(&self) -> (won: bool)
        requires
            self.wf(),
        ensures
            won == has_winner(
                self.grid(),
                self.spec_width(),
                self.spec_height(),
                self.spec_win_length(),
            ),
    {
        if self.scan_east() {
            return true;
        }
        if self.scan_south() {
            return true;
        }
        if self.scan_southeast() {
            return true;
        }
        self.scan_northeast()
    }

    /// Whether every cell of the board holds a token, leaving no legal move.
    pub fn is_full(&self) -> (full: bool)
        requires
            self.wf(),
        ensures
            full == grid_full(self.grid()),
    {
        let w = self.board.width();
        let h = self.board.height();
        let mut r: usize = 0;
        while r < h
            invariant
                self.wf(),
                w == self.spec_width(),
                h == self.spec_height(),
                r <= h,
                forall|r2: int, c2: int|
                    0 <= r2 < r && 0 <= c2 < w ==> !((#[trigger] self.grid()[r2][c2]) is Empty),
            decreases h - r,
        {
            let mut c: usize = 0;
            while c < w
                invariant
                    self.wf(),
                    w == self.spec_width(),
                    h == self.spec_height(),
                    r < h,
                    c <= w,
                    forall|r2: int, c2: int|
                        0 <= r2 < r && 0 <= c2 < w ==> !((#[trigger] self.grid()[r2][c2]) is Empty),
                    forall|c2: int|
                        0 <= c2 < c ==> !((#[trigger] self.grid()[r as int][c2]) is Empty),
                decreases w - c,
            {
                if self.board.get(r, c) == Cell::Empty {
                    return false;
                }
                c += 1;
            }
            r += 1;
        }
        true
    }
}

/// A freshly built game is not won, not full, and has PlayerA to move: on an
/// all-empty board no run of the (positive) win length exists, some cell is
/// empty, and the token count of zero puts the game on turn 1.
pub proof fn lemma_fresh_game(game: Game)
    requires
        game.wf(),
        forall|r: int, c: int|
            0 <= r < game.spec_height() && 0 <= c < game.spec_width() ==> (#[trigger] game.grid()[r][c]) is Empty,
    ensures
        !has_winner(game.grid(), game.spec_width(), game.spec_height(), game.spec_win_length()),
        !grid_full(game.grid()),
        game.current_player() == Player::PlayerA,
{
    let g = game.grid();
    let w = game.spec_width();
    let h = game.spec_height();
    let n = game.spec_win_length();
    assert(g[0][0] is Empty);
    if crate::model::east_win(g, w, h, n) {
        let (t, r, c) = choose|t: Cell, r: int, c: int|
            is_token(t) && 0 <= r < h && 0 <= c && c + n <= w && #[trigger] crate::model::run_in_dir(
                g,
                t,
                r,
                c,
                0,
                1,
                n,
            );
        assert(g[r][c] == t);
        assert(false);
    }
    if crate::model::south_win(g, w, h, n) {
        let (t, r, c) = choose|t: Cell, r: int, c: int|
            is_token(t) && 0 <= c < w && 0 <= r && r + n <= h && #[trigger] crate::model::run_in_dir(
                g,
                t,
                r,
                c,
                1,
                0,
                n,
            );
        assert(g[r][c] == t);
        assert(false);
    }
    if crate::model::southeast_win(g, w, h, n) {
        let (t, r, c) = choose|t: Cell, r: int, c: int|
            is_token(t) && 0 <= c && c + n <= w && 0 <= r && r + n <= h
                && #[trigger] crate::model::run_in_dir(g, t, r, c, 1, 1, n);
        assert(g[r][c] == t);
        assert(false);
    }
    if crate::model::northeast_win(g, w, h, n) {
        let (t, r, c) = choose|t: Cell, r: int, c: int|
            is_token(t) && 0 <= c && c + n <= w && n - 1 <= r < h
                && #[trigger] crate::model::run_in_dir(g, t, r, c, -1, 1, n);
        assert(g[r][c] == t);
        assert(false);
    }
    lemma_grid_tokens_empty(game.grid());
}

/// Turn alternation: the player to move is determined by the parity of the
/// number of tokens on the board — PlayerA when it is even, PlayerB when it
/// is odd. Each accepted move places exactly one token, so after k accepted
/// moves from a fresh game the board holds k tokens.
pub proof fn lemma_turn_alternation(game: Game)
    requires
        game.wf(),
    ensures
        game.current_player() == (if grid_tokens(game.grid()) % 2 == 0 {
            Player::PlayerA
        } else {
            Player::PlayerB
        }),
{
}

} // verus!
