//! The four swipes. Only the swipe to the right slides tiles; the other
//! three are that swipe seen through a symmetry of the board.

use vstd::prelude::*;
use crate::board::{grid_fits, grid_of, is_grid, lemma_grid_of_shape, line_of, Board, Grid};
use crate::geometry::{
    flip_board_y,
    flipped,
    lemma_flipped_fits,
    lemma_flipped_is_grid,
    lemma_transposed_fits,
    transpose_board,
    transposed,
};
use crate::line::{slide_right, slide_row_right};

verus! {

/// The grid after a swipe to the right: every line slides on its own.
pub open spec fn swiped_right(g: Grid) -> Grid {
    Seq::new(g.len(), |r: int| slide_right(g[r]))
}

/// The grid after a swipe to the left: a swipe to the right of the
/// mirrored grid, mirrored back.
pub open spec fn swiped_left(g: Grid) -> Grid {
    flipped(swiped_right(flipped(g)))
}

/// The grid after a swipe down: a swipe to the right of the transposed
/// grid, transposed back.
pub open spec fn swiped_down(g: Grid) -> Grid {
    transposed(swiped_right(transposed(g)))
}

/// The grid after a swipe up: a swipe to the left of the transposed grid,
/// transposed back.
pub open spec fn swiped_up(g: Grid) -> Grid {
    transposed(swiped_left(transposed(g)))
}

/// A swipe to the right keeps the shape of a grid.
pub proof fn lemma_swiped_right_is_grid(g: Grid)
    requires
        is_grid(g),
    ensures
        is_grid(swiped_right(g)),
{
}

/// Swipes the board to the right.
///
/// The board must be one whose outcome can be stored: no merge may pass
/// the largest value of a cell.
pub fn swipe_right(board: Board) -> (out: Board)
    requires
        grid_fits(swiped_right(grid_of(board))),
    ensures
        grid_of(out) == swiped_right(grid_of(board)),
{
    let mut out: Board = board;
    let mut row: usize = 0;
    while row < 4
        invariant
            row <= 4,
            grid_fits(swiped_right(grid_of(board))),
            forall|i: int| 0 <= i < row ==> line_of(#[trigger] out@[i]) == slide_right(line_of(board@[i])),
        decreases 4 - row,
    {
        proof {
            assert(swiped_right(grid_of(board))[row as int] == slide_right(
                line_of(board@[row as int]),
            ));
        }
        let slid = slide_row_right(board[row]);
        out[row] = slid;
        row += 1;
    }
    proof {
        assert(grid_of(out) =~= swiped_right(grid_of(board)));
    }
    out
}

/// Swipes the board to the left.
///
/// The board must be one whose outcome can be stored: no merge may pass
/// the largest value of a cell.
pub fn swipe_left(board: Board) -> (out: Board)
    requires
        grid_fits(swiped_left(grid_of(board))),
    ensures
        grid_of(out) == swiped_left(grid_of(board)),
{
    let mirror = flip_board_y(board);
    proof {
        lemma_grid_of_shape(board);
        lemma_flipped_is_grid(grid_of(board));
        lemma_swiped_right_is_grid(grid_of(mirror));
        lemma_flipped_fits(swiped_right(grid_of(mirror)));
    }
    flip_board_y(swipe_right(mirror))
}

/// Swipes the board down.
///
/// The board must be one whose outcome can be stored: no merge may pass
/// the largest value of a cell.
pub fn swipe_down(board: Board) -> (out: Board)
    requires
        grid_fits(swiped_down(grid_of(board))),
    ensures
        grid_of(out) == swiped_down(grid_of(board)),
{
    let turned = transpose_board(board);
    proof {
        lemma_grid_of_shape(turned);
        lemma_swiped_right_is_grid(grid_of(turned));
        lemma_transposed_fits(swiped_right(grid_of(turned)));
    }
    transpose_board(swipe_right(turned))
}

/// Swipes the board up.
///
/// The board must be one whose outcome can be stored: no merge may pass
/// the largest value of a cell.
pub fn swipe_up(board: Board) -> (out: Board)
    requires
        grid_fits(swiped_up(grid_of(board))),
    ensures
        grid_of(out) == swiped_up(grid_of(board)),
{
    let turned = transpose_board(board);
    let mirror = flip_board_y(turned);
    proof {
        lemma_grid_of_shape(turned);
        lemma_grid_of_shape(mirror);
        lemma_swiped_right_is_grid(grid_of(mirror));
        lemma_flipped_is_grid(swiped_right(grid_of(mirror)));
        lemma_transposed_fits(swiped_left(grid_of(turned)));
        lemma_flipped_fits(swiped_right(grid_of(mirror)));
    }
    transpose_board(flip_board_y(swipe_right(mirror)))
}

} // verus!
