//! The spawn rule: one new tile, of value 2 or 4, on an empty cell.
//!
//! The random draws come from outside and nothing is known of them, so
//! everything that is decided from a draw is a function of its own that
//! takes the draw as an argument.

use vstd::prelude::*;
use crate::board::{
    full_grid,
    grid_of,
    grid_sum,
    is_grid,
    lemma_grid_sum_four,
    lemma_line_sum_four,
    Board,
    Grid,
};

verus! {

/// How many random cells `spawn_number` tries before it stops drawing and
/// takes the first empty cell in reading order.
pub const SPAWN_ATTEMPTS: usize = 1024;

/// The grid with a tile of value `v` on the cell at row `r`, column `c`,
/// and every other cell as it was.
pub open spec fn with_tile(g: Grid, r: int, c: int, v: nat) -> Grid {
    g.update(r, g[r].update(c, Some(v)))
}

/// The value of the new tile that a draw stands for: 4 for one draw in
/// ten, 2 for the others.
pub open spec fn drawn_value(draw: nat) -> nat {
    if draw % 10 == 0 {
        4
    } else {
        2
    }
}

/// `after` is `before` with one new tile, of value 2 or 4, on a cell that
/// was empty.
pub open spec fn spawned(before: Grid, after: Grid) -> bool {
    exists|r: int, c: int, v: nat|
        0 <= r < 4 && 0 <= c < 4 && before[r][c] is None && (v == 2 || v == 4)
            && after == #[trigger] with_tile(before, r, c, v)
}

/// The cell at row `r`, column `c` is the first empty one in reading
/// order: rows from the top, each from the left.
pub open spec fn first_gap(g: Grid, r: int, c: int) -> bool {
    &&& 0 <= r < 4
    &&& 0 <= c < 4
    &&& g[r][c] is None
    &&& forall|i: int, j: int|
        0 <= i < 4 && 0 <= j < 4 && (i < r || (i == r && j < c)) ==> (#[trigger] g[i][j]) is Some
}

/// Draws a `usize` from the thread-local generator of the `rand` crate,
/// by `rand::random`. Nothing is claimed of the value: any `usize` may
/// come back, and two calls may differ.
#[verifier::external_body]
fn random_usize() -> usize {
    rand::random::<usize>()
}

/// Returns the value of the new tile for a draw: 4 when the draw is a
/// multiple of ten, otherwise 2.
pub fn tile_for_draw(draw: usize) -> (value: u16)
    ensures
        value == drawn_value(draw as nat),
{
    if draw % 10 == 0 {
        4
    } else {
        2
    }
}

/// Tries one pair of draws: they stand for the cell at row
/// `row_draw % 4`, column `col_draw % 4`. Where that cell is empty the
/// board with `value` on it is returned, and nothing where it is taken.
pub fn place_tile(board: Board, row_draw: usize, col_draw: usize, value: u16) -> (out: Option<
    Board,
>)
    ensures
        out is Some <==> grid_of(board)[row_draw as int % 4][col_draw as int % 4] is None,
        out matches Some(b) ==> grid_of(b) == with_tile(
            grid_of(board),
            row_draw as int % 4,
            col_draw as int % 4,
            value as nat,
        ),
{
    let r: usize = row_draw % 4;
    let c: usize = col_draw % 4;
    match board[r][c] {
        Some(_) => None,
        None => {
            let mut out: Board = board;
            out[r][c] = Some(value);
            proof {
                let g = grid_of(board);
                assert forall|i: int| 0 <= i < 4 implies #[trigger] grid_of(out)[i] == with_tile(
                    g,
                    r as int,
                    c as int,
                    value as nat,
                )[i] by {
                    assert(grid_of(out)[i] =~= with_tile(g, r as int, c as int, value as nat)[i]);
                }
                assert(grid_of(out) =~= with_tile(g, r as int, c as int, value as nat));
            }
            Some(out)
        },
    }
}

/// Finds the first empty cell in reading order, as row and column, or
/// nothing on a full board.
pub fn first_empty_cell(board: Board) -> (found: Option<(usize, usize)>)
    ensures
        found is None <==> full_grid(grid_of(board)),
        found matches Some((r, c)) ==> first_gap(grid_of(board), r as int, c as int),
{
    let ghost g = grid_of(board);
    let mut r: usize = 0;
    while r < 4
        invariant
            r <= 4,
            g == grid_of(board),
            forall|i: int, j: int| 0 <= i < r && 0 <= j < 4 ==> (#[trigger] g[i][j]) is Some,
        decreases 4 - r,
    {
        let mut c: usize = 0;
        while c < 4
            invariant
                r < 4,
                c <= 4,
                g == grid_of(board),
                forall|i: int, j: int| 0 <= i < r && 0 <= j < 4 ==> (#[trigger] g[i][j]) is Some,
                forall|j: int| 0 <= j < c ==> (#[trigger] g[r as int][j]) is Some,
            decreases 4 - c,
        {
            if board[r][c].is_none() {
                assert(g[r as int][c as int] is None);
                return Some((r, c));
            }
            c += 1;
        }
        r += 1;
    }
    None
}

/// Puts one new tile on an empty cell of the board.
///
/// The value is drawn first: 4 with one chance in ten, otherwise 2. Then
/// cells are drawn, row and column, until one is empty. After
/// `SPAWN_ATTEMPTS` cells that were all taken no more are drawn and the
/// tile goes to the first empty cell in reading order, so that the call
/// always returns.
///
/// The board must have an empty cell.
pub fn spawn_number(board: Board) -> (out: Board)
    requires
        !full_grid(grid_of(board)),
    ensures
        spawned(grid_of(board), grid_of(out)),
{
    let value: u16 = tile_for_draw(random_usize());
    let mut left: usize = SPAWN_ATTEMPTS;
    while left > 0
        invariant
            value == 2 || value == 4,
        decreases left,
    {
        let row_draw: usize = random_usize();
        let col_draw: usize = random_usize();
        match place_tile(board, row_draw, col_draw, value) {
            Some(out) => {
                assert(grid_of(out) == with_tile(
                    grid_of(board),
                    row_draw as int % 4,
                    col_draw as int % 4,
                    value as nat,
                ));
                return out;
            },
            None => {},
        }
        left = left - 1;
    }
    match first_empty_cell(board) {
        Some((r, c)) => {
            match place_tile(board, r, c, value) {
                Some(out) => {
                    assert(grid_of(out) == with_tile(
                        grid_of(board),
                        r as int,
                        c as int,
                        value as nat,
                    ));
                    out
                },
                None => board,
            }
        },
        None => board,
    }
}

/// On a board with a single empty cell the new tile can only go there:
/// every other cell stays as it was, and the new value is 2 or 4.
pub proof fn lemma_spawned_single_gap(before: Grid, after: Grid, r: int, c: int)
    requires
        is_grid(before),
        spawned(before, after),
        0 <= r < 4,
        0 <= c < 4,
        forall|i: int, j: int|
            0 <= i < 4 && 0 <= j < 4 && (i != r || j != c) ==> (#[trigger] before[i][j]) is Some,
    ensures
        after == with_tile(before, r, c, 2) || after == with_tile(before, r, c, 4),
{
    let (i, j, v) = choose|i: int, j: int, v: nat|
        0 <= i < 4 && 0 <= j < 4 && before[i][j] is None && (v == 2 || v == 4) && after
            == #[trigger] with_tile(before, i, j, v);
    assert(i == r && j == c);
}

/// A spawn fills one empty cell and touches no other: the grid stays a
/// grid, and its sum grows by the value of the new tile, 2 or 4.
pub proof fn lemma_spawned_sum(before: Grid, after: Grid)
    requires
        is_grid(before),
        spawned(before, after),
    ensures
        is_grid(after),
        grid_sum(after) == grid_sum(before) + 2 || grid_sum(after) == grid_sum(before) + 4,
{
    let (r, c, v) = choose|r: int, c: int, v: nat|
        0 <= r < 4 && 0 <= c < 4 && before[r][c] is None && (v == 2 || v == 4) && after
            == #[trigger] with_tile(before, r, c, v);
    lemma_grid_sum_four(before);
    lemma_grid_sum_four(after);
    lemma_line_sum_four(before[0]);
    lemma_line_sum_four(before[1]);
    lemma_line_sum_four(before[2]);
    lemma_line_sum_four(before[3]);
    lemma_line_sum_four(after[0]);
    lemma_line_sum_four(after[1]);
    lemma_line_sum_four(after[2]);
    lemma_line_sum_four(after[3]);
}

} // verus!
