//! The queries that decide how a game stands: whether the board is full,
//! whether any swipe can still change it, whether it holds the winning
//! tile, and what it scores. All are computed from the board alone.

use vstd::prelude::*;
use crate::board::{
    empty_grid,
    full_grid,
    grid_of,
    grid_sum,
    is_grid,
    lemma_grid_of_shape,
    lemma_grid_sum_four,
    lemma_line_sum_four,
    line_sum,
    tile_of,
    Board,
    Grid,
    Line,
};
use crate::geometry::{flipped, transposed};
use crate::laws::{
    columns_calm,
    lemma_flipped_rows_calm,
    lemma_swiped_down_fixed,
    lemma_swiped_left_fixed,
    lemma_swiped_right_fixed,
    lemma_swiped_up_fixed,
    rows_calm,
    settled_down,
    settled_left,
    settled_right,
    settled_up,
};
use crate::settle::{no_equal_neighbours, packed_right};
use crate::swipe::{swiped_down, swiped_left, swiped_right, swiped_up};

verus! {

/// The value of the tile that wins the game.
pub const WINNING_TILE: u16 = 2048;

/// Some cell of the grid holds the winning tile.
pub open spec fn won_grid(g: Grid) -> bool {
    exists|r: int, c: int| 0 <= r < 4 && 0 <= c < 4 && #[trigger] g[r][c] == Some(2048nat)
}

/// None of the four swipes changes the grid.
pub open spec fn unmoved_by_swipes(g: Grid) -> bool {
    &&& swiped_up(g) == g
    &&& swiped_down(g) == g
    &&& swiped_left(g) == g
    &&& swiped_right(g) == g
}

/// The game is lost: the grid is full and none of the four swipes
/// changes it.
pub open spec fn stuck_grid(g: Grid) -> bool {
    full_grid(g) && unmoved_by_swipes(g)
}

/// The cell at row `r`, column `c` holds a tile, and the cell to its
/// right holds an equal one.
pub open spec fn equal_to_right(g: Grid, r: int, c: int) -> bool {
    g[r][c] is Some && g[r][c] == g[r][c + 1]
}

/// The cell at row `r`, column `c` holds a tile, and the cell below it
/// holds an equal one.
pub open spec fn equal_to_below(g: Grid, r: int, c: int) -> bool {
    g[r][c] is Some && g[r][c] == g[r + 1][c]
}

/// No tile of the grid has an equal tile next to it, in its row or in its
/// column.
pub open spec fn calm_grid(g: Grid) -> bool {
    &&& forall|r: int, c: int| 0 <= r < 4 && 0 <= c < 3 ==> !#[trigger] equal_to_right(g, r, c)
    &&& forall|r: int, c: int| 0 <= r < 3 && 0 <= c < 4 ==> !#[trigger] equal_to_below(g, r, c)
}

/// A grid is calm exactly when its rows and its columns are.
pub proof fn lemma_calm_grid(g: Grid)
    requires
        is_grid(g),
    ensures
        calm_grid(g) <==> rows_calm(g) && columns_calm(g),
{
    let t = transposed(g);
    if calm_grid(g) {
        assert forall|r: int| 0 <= r < g.len() implies no_equal_neighbours(#[trigger] g[r]) by {
            assert forall|i: int| 0 <= i < g[r].len() - 1 && (#[trigger] g[r][i]) is Some implies g[r][i]
                != g[r][i + 1] by {
                assert(!equal_to_right(g, r, i));
            }
        }
        assert forall|c: int| 0 <= c < t.len() implies no_equal_neighbours(#[trigger] t[c]) by {
            assert forall|i: int| 0 <= i < t[c].len() - 1 && (#[trigger] t[c][i]) is Some implies t[c][i]
                != t[c][i + 1] by {
                assert(!equal_to_below(g, i, c));
            }
        }
    }
    if rows_calm(g) && columns_calm(g) {
        assert forall|r: int, c: int| 0 <= r < 4 && 0 <= c < 3 implies !#[trigger] equal_to_right(
            g,
            r,
            c,
        ) by {
            assert(no_equal_neighbours(g[r]));
            if g[r][c] is Some {
                assert(g[r][c] != g[r][c + 1]);
            }
        }
        assert forall|r: int, c: int| 0 <= r < 3 && 0 <= c < 4 implies !#[trigger] equal_to_below(
            g,
            r,
            c,
        ) by {
            assert(no_equal_neighbours(t[c]));
            if t[c][r] is Some {
                assert(t[c][r] != t[c][r + 1]);
            }
        }
    }
}

/// A line without an empty cell has no gap to the right of any tile.
pub proof fn lemma_line_of_tiles_packed(l: Line)
    requires
        forall|k: int| 0 <= k < l.len() ==> (#[trigger] l[k]) is Some,
    ensures
        packed_right(l),
{
}

/// A full grid has no gaps, so it is settled in a direction as soon as it
/// is calm along that axis.
pub proof fn lemma_full_settled(g: Grid)
    requires
        is_grid(g),
        full_grid(g),
    ensures
        settled_right(g) <==> rows_calm(g),
        settled_left(g) <==> rows_calm(g),
        settled_down(g) <==> columns_calm(g),
        settled_up(g) <==> columns_calm(g),
{
    let f = flipped(g);
    let t = transposed(g);
    let ft = flipped(t);
    assert forall|r: int| 0 <= r < 4 implies packed_right(#[trigger] g[r]) by {
        lemma_line_of_tiles_packed(g[r]);
    }
    assert forall|r: int| 0 <= r < 4 implies packed_right(#[trigger] f[r]) by {
        assert forall|k: int| 0 <= k < f[r].len() implies (#[trigger] f[r][k]) is Some by {
            assert(g[r][3 - k] is Some);
        }
        lemma_line_of_tiles_packed(f[r]);
    }
    assert forall|r: int| 0 <= r < 4 implies packed_right(#[trigger] t[r]) by {
        assert forall|k: int| 0 <= k < t[r].len() implies (#[trigger] t[r][k]) is Some by {
            assert(g[k][r] is Some);
        }
        lemma_line_of_tiles_packed(t[r]);
    }
    assert forall|r: int| 0 <= r < 4 implies packed_right(#[trigger] ft[r]) by {
        assert forall|k: int| 0 <= k < ft[r].len() implies (#[trigger] ft[r][k]) is Some by {
            assert(g[3 - k][r] is Some);
        }
        lemma_line_of_tiles_packed(ft[r]);
    }
    lemma_flipped_rows_calm(g);
    lemma_flipped_rows_calm(t);
}

/// A grid is stuck exactly when it is full and calm: with no empty cell
/// to slide into, only a merge could move a tile.
pub proof fn lemma_stuck_grid(g: Grid)
    requires
        is_grid(g),
    ensures
        stuck_grid(g) <==> full_grid(g) && calm_grid(g),
{
    if full_grid(g) {
        lemma_full_settled(g);
        lemma_calm_grid(g);
        lemma_swiped_right_fixed(g);
        lemma_swiped_left_fixed(g);
        lemma_swiped_down_fixed(g);
        lemma_swiped_up_fixed(g);
    }
}

/// The board without tiles is not full, so it is not stuck; it does not
/// win, and it scores nothing.
pub proof fn lemma_empty_grid_status()
    ensures
        is_grid(empty_grid()),
        !full_grid(empty_grid()),
        !stuck_grid(empty_grid()),
        !won_grid(empty_grid()),
        grid_sum(empty_grid()) == 0,
{
    let e = empty_grid();
    assert(e[0][0] is None);
    lemma_grid_sum_four(e);
    lemma_line_sum_four(e[0]);
    lemma_line_sum_four(e[1]);
    lemma_line_sum_four(e[2]);
    lemma_line_sum_four(e[3]);
}

/// No swipe changes the board without tiles. This is why a stuck board
/// is asked to be full: here nothing moves, and still nothing is lost.
pub proof fn lemma_empty_grid_unmoved()
    ensures
        unmoved_by_swipes(empty_grid()),
{
    let e = empty_grid();
    assert(flipped(e) =~~= e);
    assert(transposed(e) =~~= e);
    assert forall|r: int| 0 <= r < e.len() implies packed_right(#[trigger] e[r])
        && no_equal_neighbours(e[r]) by {}
    lemma_swiped_right_fixed(e);
    lemma_swiped_left_fixed(e);
    lemma_swiped_down_fixed(e);
    lemma_swiped_up_fixed(e);
}

/// A grid whose tiles are all below 2048 does not win.
pub proof fn lemma_small_tiles_not_won(g: Grid)
    requires
        forall|r: int, c: int|
            0 <= r < 4 && 0 <= c < 4 ==> ((#[trigger] g[r][c]) matches Some(v) ==> v < 2048),
    ensures
        !won_grid(g),
{
}

/// The grid on which the values `a` and `b` alternate along every row and
/// every column, `a` in the top left corner.
pub open spec fn checkerboard(a: nat, b: nat) -> Grid {
    Seq::new(
        4,
        |r: int|
            Seq::new(
                4,
                |c: int|
                    if (r + c) % 2 == 0 {
                        Some(a)
                    } else {
                        Some(b)
                    },
            ),
    )
}

/// A board on which two different values alternate is stuck: it is full,
/// and no tile has an equal neighbour.
pub proof fn lemma_checkerboard_stuck(a: nat, b: nat)
    requires
        a != b,
    ensures
        stuck_grid(checkerboard(a, b)),
{
    let g = checkerboard(a, b);
    assert(is_grid(g));
    lemma_stuck_grid(g);
}

/// An empty cell admits a move: on a grid that has a tile and an empty
/// cell, at least one of the four swipes changes something.
pub proof fn lemma_gap_admits_move(g: Grid)
    requires
        is_grid(g),
        !full_grid(g),
        g != empty_grid(),
    ensures
        !unmoved_by_swipes(g),
{
    if unmoved_by_swipes(g) {
        lemma_swiped_right_fixed(g);
        lemma_swiped_left_fixed(g);
        lemma_swiped_down_fixed(g);
        lemma_swiped_up_fixed(g);
        if forall|r: int, c: int| 0 <= r < 4 && 0 <= c < 4 ==> (#[trigger] g[r][c]) is None {
            assert(g =~~= empty_grid());
        }
        let (r, c) = choose|r: int, c: int| 0 <= r < 4 && 0 <= c < 4 && (#[trigger] g[r][c]) is Some;
        let (p, q) = choose|p: int, q: int| 0 <= p < 4 && 0 <= q < 4 && !((#[trigger] g[p][q]) is Some);
        let f = flipped(g);
        let t = transposed(g);
        let ft = flipped(t);
        // The tile at (r, c) fills its row: to the right, then to the left.
        assert(g[r][q] is Some) by {
            assert(packed_right(g[r]));
            assert(packed_right(f[r]));
            assert(f[r][3 - c] == g[r][c]);
            assert(f[r][3 - q] == g[r][q]);
        }
        // The tile at (r, q) fills its column: downwards, then upwards.
        assert(g[p][q] is Some) by {
            assert(packed_right(t[q]));
            assert(packed_right(ft[q]));
            assert(t[q][r] == g[r][q]);
            assert(t[q][p] == g[p][q]);
            assert(ft[q][3 - r] == g[r][q]);
            assert(ft[q][3 - p] == g[p][q]);
        }
        assert(false);
    }
}

/// Tells whether no cell of the board is empty.
pub fn is_board_full(board: Board) -> (full: bool)
    ensures
        full <==> full_grid(grid_of(board)),
{
    let mut r: usize = 0;
    while r < 4
        invariant
            r <= 4,
            forall|i: int, j: int| 0 <= i < r && 0 <= j < 4 ==> (#[trigger] board@[i]@[j]) is Some,
        decreases 4 - r,
    {
        let mut c: usize = 0;
        while c < 4
            invariant
                r < 4,
                c <= 4,
                forall|i: int, j: int|
                    0 <= i < r && 0 <= j < 4 ==> (#[trigger] board@[i]@[j]) is Some,
                forall|j: int| 0 <= j < c ==> (#[trigger] board@[r as int]@[j]) is Some,
            decreases 4 - c,
        {
            if board[r][c].is_none() {
                assert(grid_of(board)[r as int][c as int] is None);
                return false;
            }
            c += 1;
        }
        r += 1;
    }
    proof {
        assert forall|i: int, j: int| 0 <= i < 4 && 0 <= j < 4 implies (#[trigger] grid_of(
            board,
        )[i][j]) is Some by {
            assert(board@[i]@[j] is Some);
        }
    }
    true
}

/// Tells whether some cell of the board holds the winning tile, 2048.
pub fn is_win_condition(board: Board) -> (win: bool)
    ensures
        win <==> won_grid(grid_of(board)),
{
    let mut r: usize = 0;
    while r < 4
        invariant
            r <= 4,
            forall|i: int, j: int|
                0 <= i < r && 0 <= j < 4 ==> #[trigger] board@[i]@[j] != Some(2048u16),
        decreases 4 - r,
    {
        let mut c: usize = 0;
        while c < 4
            invariant
                r < 4,
                c <= 4,
                forall|i: int, j: int|
                    0 <= i < r && 0 <= j < 4 ==> #[trigger] board@[i]@[j] != Some(2048u16),
                forall|j: int| 0 <= j < c ==> #[trigger] board@[r as int]@[j] != Some(2048u16),
            decreases 4 - c,
        {
            match board[r][c] {
                Some(v) => {
                    if v == WINNING_TILE {
                        assert(grid_of(board)[r as int][c as int] == Some(2048nat));
                        return true;
                    }
                },
                None => {},
            }
            c += 1;
        }
        r += 1;
    }
    proof {
        assert forall|i: int, j: int| 0 <= i < 4 && 0 <= j < 4 implies #[trigger] grid_of(
            board,
        )[i][j] != Some(2048nat) by {
            assert(board@[i]@[j] != Some(2048u16));
        }
    }
    false
}

/// Returns the score of the board: the sum of the values of its tiles.
pub fn calculate_score(board: Board) -> (total: u32)
    ensures
        total == grid_sum(grid_of(board)),
{
    let ghost g = grid_of(board);
    let mut total: u32 = 0;
    let mut r: usize = 0;
    proof {
        lemma_grid_sum_four(g);
    }
    while r < 4
        invariant
            r <= 4,
            g == grid_of(board),
            total <= r * 4 * 0xffff,
            total == grid_sum(g.take(r as int)),
        decreases 4 - r,
    {
        let ghost before = total;
        let mut c: usize = 0;
        proof {
            lemma_line_sum_four(g[r as int]);
        }
        while c < 4
            invariant
                r < 4,
                c <= 4,
                g == grid_of(board),
                before <= r * 4 * 0xffff,
                total <= before + c * 0xffff,
                total == before + line_sum(g[r as int].take(c as int)),
            decreases 4 - c,
        {
            proof {
                let cells = g[r as int];
                assert(cells.take(c + 1).drop_last() =~= cells.take(c as int));
                assert(cells.take(c + 1).last() == tile_of(board@[r as int]@[c as int]));
            }
            match board[r][c] {
                Some(v) => {
                    total += v as u32;
                },
                None => {},
            }
            c += 1;
        }
        proof {
            assert(g[r as int].take(4) =~= g[r as int]);
            assert(g.take(r + 1).drop_last() =~= g.take(r as int));
            assert(g.take(r + 1).last() == g[r as int]);
        }
        r += 1;
    }
    proof {
        assert(g.take(4) =~= g);
    }
    total
}

/// Tells whether some tile of the board has an equal tile next to it, to
/// its right or below it.
pub fn has_equal_neighbours(board: Board) -> (found: bool)
    ensures
        found <==> !calm_grid(grid_of(board)),
{
    let ghost g = grid_of(board);
    let mut r: usize = 0;
    while r < 4
        invariant
            r <= 4,
            g == grid_of(board),
            forall|i: int, j: int| 0 <= i < r && 0 <= j < 3 ==> !#[trigger] equal_to_right(g, i, j),
            forall|i: int, j: int|
                0 <= i < r && i < 3 && 0 <= j < 4 ==> !#[trigger] equal_to_below(g, i, j),
        decreases 4 - r,
    {
        let mut c: usize = 0;
        while c < 4
            invariant
                r < 4,
                c <= 4,
                g == grid_of(board),
                forall|i: int, j: int|
                    0 <= i < r && 0 <= j < 3 ==> !#[trigger] equal_to_right(g, i, j),
                forall|i: int, j: int|
                    0 <= i < r && i < 3 && 0 <= j < 4 ==> !#[trigger] equal_to_below(g, i, j),
                forall|j: int| 0 <= j < c && j < 3 ==> !#[trigger] equal_to_right(g, r as int, j),
                forall|j: int| 0 <= j < c && r < 3 ==> !#[trigger] equal_to_below(g, r as int, j),
            decreases 4 - c,
        {
            match board[r][c] {
                Some(v) => {
                    if c < 3 {
                        match board[r][c + 1] {
                            Some(w) => {
                                if v == w {
                                    assert(equal_to_right(g, r as int, c as int));
                                    return true;
                                }
                            },
                            None => {},
                        }
                    }
                    if r < 3 {
                        match board[r + 1][c] {
                            Some(w) => {
                                if v == w {
                                    assert(equal_to_below(g, r as int, c as int));
                                    return true;
                                }
                            },
                            None => {},
                        }
                    }
                },
                None => {},
            }
            c += 1;
        }
        r += 1;
    }
    false
}

/// Tells whether the game is lost: the board is full and swiping it up,
/// down, left or right would each give the same board back.
///
/// No swipe is carried out. A full board has nowhere to slide, so a swipe
/// changes it exactly when two equal tiles are neighbours along its axis,
/// and that is what is looked for.
pub fn is_stuck(board: Board) -> (stuck: bool)
    ensures
        stuck <==> stuck_grid(grid_of(board)),
{
    proof {
        lemma_grid_of_shape(board);
        lemma_stuck_grid(grid_of(board));
    }
    is_board_full(board) && !has_equal_neighbours(board)
}

} // verus!
