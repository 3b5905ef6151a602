//! The mathematical model of the game: predicates and counting functions over
//! a grid viewed as a sequence of rows, and the lemmas that relate them.

use vstd::prelude::*;

use crate::board::Cell;

verus! {

/// The grid has exactly `h` rows of exactly `w` cells each, and both
/// dimensions are positive.
pub open spec fn grid_dims(g: Seq<Seq<Cell>>, w: int, h: int) -> bool {
    &&& 1 <= w
    &&& 1 <= h
    &&& g.len() == h
    &&& forall|r: int| 0 <= r < h ==> (#[trigger] g[r]).len() == w
}

/// A cell value that belongs to a player, as opposed to an empty cell.
pub open spec fn is_token(value: Cell) -> bool {
    value == Cell::PlayerA || value == Cell::PlayerB
}

/// Every cell of the grid holds a token.
pub open spec fn grid_full(g: Seq<Seq<Cell>>) -> bool {
    forall|r: int, c: int|
        0 <= r < g.len() && 0 <= c < g[r].len() ==> !((#[trigger] g[r][c]) is Empty)
}

/// How many cells of one row hold a token.
pub open spec fn row_tokens(row: Seq<Cell>) -> nat
    decreases row.len(),
{
    if row.len() == 0 {
        0
    } else {
        row_tokens(row.drop_last()) + (if row.last() is Empty {
            0nat
        } else {
            1nat
        })
    }
}

/// How many cells of the whole grid hold a token.
pub open spec fn grid_tokens(g: Seq<Seq<Cell>>) -> nat
    decreases g.len(),
{
    if g.len() == 0 {
        0
    } else {
        grid_tokens(g.drop_last()) + row_tokens(g.last())
    }
}

/// No cell of `column` is empty.
pub open spec fn column_full(g: Seq<Seq<Cell>>, column: int) -> bool {
    forall|r: int| 0 <= r < g.len() ==> !((#[trigger] g[r][column]) is Empty)
}

/// The lowest empty row of `column` at or above `row`, scanning upward from
/// the bottom of the board (larger row indices are lower).
pub open spec fn lowest_empty_from(g: Seq<Seq<Cell>>, column: int, row: int) -> Option<int>
    decreases row + 1,
{
    if row < 0 {
        None
    } else if g[row][column] is Empty {
        Some(row)
    } else {
        lowest_empty_from(g, column, row - 1)
    }
}

/// Where a token dropped into `column` lands under gravity: the lowest empty
/// row of the column, or `None` when the column is full.
pub open spec fn landing_row(g: Seq<Seq<Cell>>, column: int) -> Option<int> {
    lowest_empty_from(g, column, g.len() - 1)
}

/// A straight run of `n` cells equal to `value`, starting at `(r, c)` and
/// stepping by `(dr, dc)` per cell.
pub open spec fn run_in_dir(
    g: Seq<Seq<Cell>>,
    value: Cell,
    r: int,
    c: int,
    dr: int,
    dc: int,
    n: int,
) -> bool
    decreases n,
{
    n <= 0 || (g[r][c] == value && run_in_dir(g, value, r + dr, c + dc, dr, dc, n - 1))
}

/// Some player has a horizontal run of length `n` that lies inside a grid of
/// `w` columns and `h` rows.
pub open spec fn east_win(g: Seq<Seq<Cell>>, w: int, h: int, n: int) -> bool {
    exists|t: Cell, r: int, c: int|
        is_token(t) && 0 <= r < h && 0 <= c && c + n <= w && #[trigger] run_in_dir(
            g,
            t,
            r,
            c,
            0,
            1,
            n,
        )
}

/// Some player has a vertical run of length `n` inside the grid.
pub open spec fn south_win(g: Seq<Seq<Cell>>, w: int, h: int, n: int) -> bool {
    exists|t: Cell, r: int, c: int|
        is_token(t) && 0 <= c < w && 0 <= r && r + n <= h && #[trigger] run_in_dir(
            g,
            t,
            r,
            c,
            1,
            0,
            n,
        )
}

/// Some player has a run of length `n` sloping down to the right.
pub open spec fn southeast_win(g: Seq<Seq<Cell>>, w: int, h: int, n: int) -> bool {
    exists|t: Cell, r: int, c: int|
        is_token(t) && 0 <= c && c + n <= w && 0 <= r && r + n <= h && #[trigger] run_in_dir(
            g,
            t,
            r,
            c,
            1,
            1,
            n,
        )
}

/// Some player has a run of length `n` sloping up to the right.
pub open spec fn northeast_win(g: Seq<Seq<Cell>>, w: int, h: int, n: int) -> bool {
    exists|t: Cell, r: int, c: int|
        is_token(t) && 0 <= c && c + n <= w && n - 1 <= r < h && #[trigger] run_in_dir(
            g,
            t,
            r,
            c,
            -1,
            1,
            n,
        )
}

/// Some player has a run of length `n` in one of the four directions.
pub open spec fn has_winner(g: Seq<Seq<Cell>>, w: int, h: int, n: int) -> bool {
    east_win(g, w, h, n) || south_win(g, w, h, n) || southeast_win(g, w, h, n) || northeast_win(
        g,
        w,
        h,
        n,
    )
}

/// A row holds no more tokens than it has cells.
pub proof fn lemma_row_tokens_le(row: Seq<Cell>)
    ensures
        row_tokens(row) <= row.len(),
    decreases row.len(),
{
    if row.len() > 0 {
        lemma_row_tokens_le(row.drop_last());
    }
}

/// A row with an empty cell holds strictly fewer tokens than it has cells.
pub proof fn lemma_row_tokens_lt(row: Seq<Cell>, c: int)
    requires
        0 <= c < row.len(),
        row[c] is Empty,
    ensures
        row_tokens(row) < row.len(),
    decreases row.len(),
{
    if c == row.len() - 1 {
        lemma_row_tokens_le(row.drop_last());
    } else {
        lemma_row_tokens_lt(row.drop_last(), c);
    }
}

/// Placing a token on an empty cell of a row raises its token count by one.
pub proof fn lemma_row_tokens_update(row: Seq<Cell>, c: int, value: Cell)
    requires
        0 <= c < row.len(),
        row[c] is Empty,
        !(value is Empty),
    ensures
        row_tokens(row.update(c, value)) == row_tokens(row) + 1,
    decreases row.len(),
{
    let updated = row.update(c, value);
    if c == row.len() - 1 {
        assert(updated.drop_last() =~= row.drop_last());
    } else {
        lemma_row_tokens_update(row.drop_last(), c, value);
        assert(updated.drop_last() =~= row.drop_last().update(c, value));
        assert(updated.last() == row.last());
    }
}

/// A row of empty cells holds no token.
pub proof fn lemma_row_tokens_empty(row: Seq<Cell>)
    requires
        forall|c: int| 0 <= c < row.len() ==> (#[trigger] row[c]) is Empty,
    ensures
        row_tokens(row) == 0,
    decreases row.len(),
{
    if row.len() > 0 {
        assert(row.last() == row[row.len() - 1]);
        lemma_row_tokens_empty(row.drop_last());
    }
}

/// The grid holds no more tokens than it has cells.
pub proof fn lemma_grid_tokens_le(g: Seq<Seq<Cell>>, w: int)
    requires
        0 <= w,
        forall|r: int| 0 <= r < g.len() ==> (#[trigger] g[r]).len() == w,
    ensures
        grid_tokens(g) <= g.len() * w,
    decreases g.len(),
{
    if g.len() > 0 {
        lemma_grid_tokens_le(g.drop_last(), w);
        lemma_row_tokens_le(g.last());
        assert(g.len() * w == (g.len() - 1) * w + w) by (nonlinear_arith);
    }
}

/// A grid with an empty cell holds strictly fewer tokens than it has cells.
pub proof fn lemma_grid_tokens_lt(g: Seq<Seq<Cell>>, w: int, r: int, c: int)
    requires
        0 <= w,
        forall|r2: int| 0 <= r2 < g.len() ==> (#[trigger] g[r2]).len() == w,
        0 <= r < g.len(),
        0 <= c < w,
        g[r][c] is Empty,
    ensures
        grid_tokens(g) < g.len() * w,
    decreases g.len(),
{
    if r == g.len() - 1 {
        lemma_grid_tokens_le(g.drop_last(), w);
        lemma_row_tokens_lt(g.last(), c);
        assert(g.len() * w == (g.len() - 1) * w + w) by (nonlinear_arith);
    } else {
        lemma_grid_tokens_lt(g.drop_last(), w, r, c);
        lemma_row_tokens_le(g.last());
        assert(g.len() * w == (g.len() - 1) * w + w) by (nonlinear_arith);
    }
}

/// Placing a token on an empty cell of the grid raises its token count by one.
pub proof fn lemma_grid_tokens_update(g: Seq<Seq<Cell>>, r: int, c: int, value: Cell)
    requires
        0 <= r < g.len(),
        0 <= c < g[r].len(),
        g[r][c] is Empty,
        !(value is Empty),
    ensures
        grid_tokens(g.update(r, g[r].update(c, value))) == grid_tokens(g) + 1,
    decreases g.len(),
{
    let updated = g.update(r, g[r].update(c, value));
    if r == g.len() - 1 {
        assert(updated.drop_last() =~~= g.drop_last());
        assert(updated.last() == g.last().update(c, value));
        lemma_row_tokens_update(g.last(), c, value);
    } else {
        lemma_grid_tokens_update(g.drop_last(), r, c, value);
        assert(updated.drop_last() =~~= g.drop_last().update(r, g[r].update(c, value)));
        assert(updated.last() == g.last());
    }
}

/// A grid of empty cells holds no token.
pub proof fn lemma_grid_tokens_empty(g: Seq<Seq<Cell>>)
    requires
        forall|r: int, c: int|
            0 <= r < g.len() && 0 <= c < g[r].len() ==> (#[trigger] g[r][c]) is Empty,
    ensures
        grid_tokens(g) == 0,
    decreases g.len(),
{
    if g.len() > 0 {
        lemma_grid_tokens_empty(g.drop_last());
        assert forall|c: int| 0 <= c < g.last().len() implies (#[trigger] g.last()[c])
            is Empty by {
            assert(g[g.len() - 1][c] is Empty);
        }
        lemma_row_tokens_empty(g.last());
    }
}

/// What the gravity scan finds: the lowest empty cell at or below `row`, or
/// none when everything from `row` down is occupied.
pub proof fn lemma_lowest_empty_from(g: Seq<Seq<Cell>>, column: int, row: int)
    ensures
        match lowest_empty_from(g, column, row) {
            Some(found) => {
                &&& 0 <= found <= row
                &&& g[found][column] is Empty
                &&& forall|r2: int| found < r2 <= row ==> !((#[trigger] g[r2][column]) is Empty)
            },
            None => forall|r2: int| 0 <= r2 <= row ==> !((#[trigger] g[r2][column]) is Empty),
        },
    decreases row + 1,
{
    if row >= 0 && !(g[row][column] is Empty) {
        lemma_lowest_empty_from(g, column, row - 1);
    }
}

/// Gravity lands a token in the lowest empty cell: when every cell of the
/// column below `row` is occupied and `row` itself is empty, a drop into the
/// column lands exactly at `row`. With `row == g.len() - 1` this says a drop
/// into a column with an empty bottom cell lands in the bottom row.
pub proof fn lemma_gravity_lands_lowest(g: Seq<Seq<Cell>>, column: int, row: int)
    requires
        0 <= row < g.len(),
        g[row][column] is Empty,
        forall|r2: int| row < r2 < g.len() ==> !((#[trigger] g[r2][column]) is Empty),
    ensures
        landing_row(g, column) == Some(row),
{
    lemma_lowest_empty_skip(g, column, row, g.len() - 1);
}

proof fn lemma_lowest_empty_skip(g: Seq<Seq<Cell>>, column: int, row: int, upper: int)
    requires
        0 <= row <= upper,
        g[row][column] is Empty,
        forall|r2: int| row < r2 <= upper ==> !((#[trigger] g[r2][column]) is Empty),
    ensures
        lowest_empty_from(g, column, upper) == Some(row),
    decreases upper - row,
{
    if upper > row {
        lemma_lowest_empty_skip(g, column, row, upper - 1);
    }
}

/// Each cell of a horizontal run matches the run's token.
pub proof fn lemma_run_east_cell(g: Seq<Seq<Cell>>, t: Cell, r: int, c: int, n: int, i: int)
    requires
        run_in_dir(g, t, r, c, 0, 1, n),
        0 <= i < n,
    ensures
        g[r][c + i] == t,
    decreases i,
{
    if i > 0 {
        lemma_run_east_cell(g, t, r, c + 1, n - 1, i - 1);
    }
}

/// Each cell of a vertical run matches the run's token.
pub proof fn lemma_run_south_cell(g: Seq<Seq<Cell>>, t: Cell, r: int, c: int, n: int, i: int)
    requires
        run_in_dir(g, t, r, c, 1, 0, n),
        0 <= i < n,
    ensures
        g[r + i][c] == t,
    decreases i,
{
    if i > 0 {
        lemma_run_south_cell(g, t, r + 1, c, n - 1, i - 1);
    }
}

/// Each cell of a run sloping down to the right matches the run's token.
pub proof fn lemma_run_southeast_cell(g: Seq<Seq<Cell>>, t: Cell, r: int, c: int, n: int, i: int)
    requires
        run_in_dir(g, t, r, c, 1, 1, n),
        0 <= i < n,
    ensures
        g[r + i][c + i] == t,
    decreases i,
{
    if i > 0 {
        lemma_run_southeast_cell(g, t, r + 1, c + 1, n - 1, i - 1);
    }
}

/// Each cell of a run sloping up to the right matches the run's token.
pub proof fn lemma_run_northeast_cell(g: Seq<Seq<Cell>>, t: Cell, r: int, c: int, n: int, i: int)
    requires
        run_in_dir(g, t, r, c, -1, 1, n),
        0 <= i < n,
    ensures
        g[r - i][c + i] == t,
    decreases i,
{
    if i > 0 {
        lemma_run_northeast_cell(g, t, r - 1, c + 1, n - 1, i - 1);
    }
}

/// A horizontal run flush against the right edge of the board — its window
/// starting at column `w - n` — counts as a win.
pub proof fn lemma_flush_east_win(g: Seq<Seq<Cell>>, w: int, h: int, n: int, t: Cell, r: int)
    requires
        is_token(t),
        0 <= r < h,
        1 <= n <= w,
        run_in_dir(g, t, r, w - n, 0, 1, n),
    ensures
        east_win(g, w, h, n),
{
}

/// A vertical run flush against the bottom edge of the board — its window
/// starting at row `h - n` — counts as a win.
pub proof fn lemma_flush_south_win(g: Seq<Seq<Cell>>, w: int, h: int, n: int, t: Cell, c: int)
    requires
        is_token(t),
        0 <= c < w,
        1 <= n <= h,
        run_in_dir(g, t, h - n, c, 1, 0, n),
    ensures
        south_win(g, w, h, n),
{
}

/// No diagonal of length `n` fits on a board narrower or shorter than `n`,
/// whatever the board holds.
pub proof fn lemma_no_diagonal_on_small_board(g: Seq<Seq<Cell>>, w: int, h: int, n: int)
    requires
        w < n || h < n,
    ensures
        !southeast_win(g, w, h, n),
        !northeast_win(g, w, h, n),
{
}

} // verus!
