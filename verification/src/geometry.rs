//! The two symmetries of the board that the swipes are built from:
//! reflection across the main diagonal and left-right mirroring.

use vstd::prelude::*;
use crate::board::{
    grid_fits,
    grid_of,
    is_grid,
    lemma_grid_of_injective,
    lemma_grid_of_shape,
    line_fits,
    Board,
    Grid,
    Line,
    Tile,
};

verus! {

/// The line read from right to left.
pub open spec fn mirrored(l: Line) -> Line {
    Seq::new(l.len(), |c: int| l[l.len() - 1 - c])
}

/// The grid with every line read from right to left.
pub open spec fn flipped(g: Grid) -> Grid {
    Seq::new(g.len(), |r: int| mirrored(g[r]))
}

/// The grid with rows and columns exchanged.
pub open spec fn transposed(g: Grid) -> Grid {
    Seq::new(4, |r: int| Seq::new(4, |c: int| g[c][r]))
}

/// How often the cell content `t` occurs in a line. With `t` a tile value
/// this counts tiles; with `t` empty it counts the empty cells.
pub open spec fn count_in_line(l: Line, t: Tile) -> nat
    decreases l.len(),
{
    if l.len() == 0 {
        0
    } else {
        count_in_line(l.drop_last(), t) + if l.last() == t {
            1nat
        } else {
            0nat
        }
    }
}

/// How often the cell content `t` occurs in a grid.
pub open spec fn count_in_grid(g: Grid, t: Tile) -> nat
    decreases g.len(),
{
    if g.len() == 0 {
        0
    } else {
        count_in_grid(g.drop_last(), t) + count_in_line(g.last(), t)
    }
}

/// One where the cell holds `t`, zero where it does not.
pub open spec fn hit(c: Tile, t: Tile) -> nat {
    if c == t {
        1
    } else {
        0
    }
}

/// The count over a line of four cells, written out.
pub proof fn lemma_count_in_line_four(l: Line, t: Tile)
    requires
        l.len() == 4,
    ensures
        count_in_line(l, t) == hit(l[0], t) + hit(l[1], t) + hit(l[2], t) + hit(l[3], t),
{
    let l3 = l.drop_last();
    let l2 = l3.drop_last();
    let l1 = l2.drop_last();
    let l0 = l1.drop_last();
    assert(count_in_line(l0, t) == 0);
    assert(count_in_line(l1, t) == hit(l[0], t));
    assert(count_in_line(l2, t) == hit(l[0], t) + hit(l[1], t));
    assert(count_in_line(l3, t) == hit(l[0], t) + hit(l[1], t) + hit(l[2], t));
}

/// The count over a grid of four lines, written out.
pub proof fn lemma_count_in_grid_four(g: Grid, t: Tile)
    requires
        g.len() == 4,
    ensures
        count_in_grid(g, t) == count_in_line(g[0], t) + count_in_line(g[1], t) + count_in_line(
            g[2],
            t,
        ) + count_in_line(g[3], t),
{
    let g3 = g.drop_last();
    let g2 = g3.drop_last();
    let g1 = g2.drop_last();
    let g0 = g1.drop_last();
    assert(count_in_grid(g0, t) == 0);
    assert(count_in_grid(g1, t) == count_in_line(g[0], t));
    assert(count_in_grid(g2, t) == count_in_line(g[0], t) + count_in_line(g[1], t));
    assert(count_in_grid(g3, t) == count_in_line(g[0], t) + count_in_line(g[1], t)
        + count_in_line(g[2], t));
}

/// Mirroring keeps the shape of a grid.
pub proof fn lemma_flipped_is_grid(g: Grid)
    requires
        is_grid(g),
    ensures
        is_grid(flipped(g)),
{
}

/// Reading a line backwards twice gives the line back.
pub proof fn lemma_mirrored_involution(l: Line)
    ensures
        mirrored(mirrored(l)) == l,
{
    assert(mirrored(mirrored(l)) =~= l);
}

/// Mirroring a grid twice gives the grid back.
pub proof fn lemma_flipped_involution(g: Grid)
    ensures
        flipped(flipped(g)) == g,
{
    assert forall|r: int| 0 <= r < g.len() implies #[trigger] flipped(flipped(g))[r] == g[r] by {
        lemma_mirrored_involution(g[r]);
    }
    assert(flipped(flipped(g)) =~= g);
}

/// Transposing a grid twice gives the grid back.
pub proof fn lemma_transposed_involution(g: Grid)
    requires
        is_grid(g),
    ensures
        transposed(transposed(g)) == g,
{
    assert forall|r: int| 0 <= r < 4 implies #[trigger] transposed(transposed(g))[r] == g[r] by {
        assert(transposed(transposed(g))[r] =~= g[r]);
    }
    assert(transposed(transposed(g)) =~= g);
}

/// Mirroring moves cells and changes none: every tile value occurs as
/// often as before, and so do the empty cells.
pub proof fn lemma_flipped_keeps_counts(g: Grid, t: Tile)
    requires
        is_grid(g),
    ensures
        count_in_grid(flipped(g), t) == count_in_grid(g, t),
{
    let f = flipped(g);
    lemma_count_in_grid_four(g, t);
    lemma_count_in_grid_four(f, t);
    assert forall|r: int| 0 <= r < 4 implies count_in_line(#[trigger] f[r], t) == count_in_line(
        g[r],
        t,
    ) by {
        lemma_count_in_line_four(g[r], t);
        lemma_count_in_line_four(f[r], t);
    }
}

/// Transposing moves cells and changes none: every tile value occurs as
/// often as before, and so do the empty cells.
pub proof fn lemma_transposed_keeps_counts(g: Grid, t: Tile)
    requires
        is_grid(g),
    ensures
        count_in_grid(transposed(g), t) == count_in_grid(g, t),
{
    let f = transposed(g);
    lemma_count_in_grid_four(g, t);
    lemma_count_in_grid_four(f, t);
    lemma_count_in_line_four(g[0], t);
    lemma_count_in_line_four(g[1], t);
    lemma_count_in_line_four(g[2], t);
    lemma_count_in_line_four(g[3], t);
    lemma_count_in_line_four(f[0], t);
    lemma_count_in_line_four(f[1], t);
    lemma_count_in_line_four(f[2], t);
    lemma_count_in_line_four(f[3], t);
}

/// Mirroring neither makes nor loses a tile that is too large for a cell.
pub proof fn lemma_flipped_fits(g: Grid)
    requires
        is_grid(g),
    ensures
        grid_fits(flipped(g)) <==> grid_fits(g),
{
    if grid_fits(g) {
        assert forall|r: int| 0 <= r < 4 implies line_fits(
            #[trigger] flipped(g)[r],
        ) by {
            assert forall|c: int| 0 <= c < 4 implies (#[trigger] flipped(g)[r][c] matches Some(v)
                ==> v <= u16::MAX) by {
                assert(flipped(g)[r][c] == g[r][3 - c]);
            }
        }
    }
    if grid_fits(flipped(g)) {
        assert forall|r: int| 0 <= r < 4 implies line_fits(#[trigger] g[r]) by {
            assert forall|c: int| 0 <= c < 4 implies (#[trigger] g[r][c] matches Some(v) ==> v
                <= u16::MAX) by {
                assert(flipped(g)[r][3 - c] == g[r][c]);
            }
        }
    }
}

/// Transposing neither makes nor loses a tile that is too large for a cell.
pub proof fn lemma_transposed_fits(g: Grid)
    requires
        is_grid(g),
    ensures
        grid_fits(transposed(g)) <==> grid_fits(g),
{
    if grid_fits(g) {
        assert forall|r: int| 0 <= r < 4 implies line_fits(
            #[trigger] transposed(g)[r],
        ) by {
            assert forall|c: int| 0 <= c < 4 implies (#[trigger] transposed(g)[r][c] matches Some(
                v,
            ) ==> v <= u16::MAX) by {
                assert(transposed(g)[r][c] == g[c][r]);
            }
        }
    }
    if grid_fits(transposed(g)) {
        assert forall|r: int| 0 <= r < 4 implies line_fits(#[trigger] g[r]) by {
            assert forall|c: int| 0 <= c < 4 implies (#[trigger] g[r][c] matches Some(v) ==> v
                <= u16::MAX) by {
                assert(transposed(g)[c][r] == g[r][c]);
            }
        }
    }
}

/// Returns the board reflected across its main diagonal: the cell at row
/// `r`, column `c` of the result is the cell at row `c`, column `r` of
/// `board`.
pub fn transpose_board(board: Board) -> (out: Board)
    ensures
        grid_of(out) == transposed(grid_of(board)),
{
    let mut out: Board = [[None; 4]; 4];
    let mut row: usize = 0;
    while row < 4
        invariant
            row <= 4,
            forall|i: int, j: int| 0 <= i < row && 0 <= j < 4 ==> out@[j]@[i] == board@[i]@[j],
        decreases 4 - row,
    {
        let mut col: usize = 0;
        while col < 4
            invariant
                row < 4,
                col <= 4,
                forall|i: int, j: int| 0 <= i < row && 0 <= j < 4 ==> out@[j]@[i] == board@[i]@[j],
                forall|j: int| 0 <= j < col ==> out@[j]@[row as int] == board@[row as int]@[j],
            decreases 4 - col,
        {
            out[col][row] = board[row][col];
            col += 1;
        }
        row += 1;
    }
    proof {
        assert forall|r: int| 0 <= r < 4 implies #[trigger] grid_of(out)[r] == transposed(
            grid_of(board),
        )[r] by {
            assert(grid_of(out)[r] =~= transposed(grid_of(board))[r]);
        }
        assert(grid_of(out) =~= transposed(grid_of(board)));
    }
    out
}

/// Returns the board mirrored left to right: every row is reversed.
pub fn flip_board_y(board: Board) -> (out: Board)
    ensures
        grid_of(out) == flipped(grid_of(board)),
{
    let mut out: Board = [[None; 4]; 4];
    let mut row: usize = 0;
    while row < 4
        invariant
            row <= 4,
            forall|i: int, j: int| 0 <= i < row && 0 <= j < 4 ==> out@[i]@[3 - j] == board@[i]@[j],
        decreases 4 - row,
    {
        let mut col: usize = 0;
        while col < 4
            invariant
                row < 4,
                col <= 4,
                forall|i: int, j: int|
                    0 <= i < row && 0 <= j < 4 ==> out@[i]@[3 - j] == board@[i]@[j],
                forall|j: int| 0 <= j < col ==> out@[row as int]@[3 - j] == board@[row as int]@[j],
            decreases 4 - col,
        {
            out[row][3 - col] = board[row][col];
            col += 1;
        }
        row += 1;
    }
    proof {
        assert forall|r: int| 0 <= r < 4 implies #[trigger] grid_of(out)[r] == flipped(
            grid_of(board),
        )[r] by {
            assert forall|c: int| 0 <= c < 4 implies grid_of(out)[r][c] == flipped(
                grid_of(board),
            )[r][c] by {
                assert(out@[r]@[3 - (3 - c)] == board@[r]@[3 - c]);
            }
            assert(grid_of(out)[r] =~= flipped(grid_of(board))[r]);
        }
        assert(grid_of(out) =~= flipped(grid_of(board)));
    }
    out
}

/// Transposing a board twice gives the board back.
pub proof fn lemma_transpose_board_twice(b: Board, once: Board, twice: Board)
    requires
        grid_of(once) == transposed(grid_of(b)),
        grid_of(twice) == transposed(grid_of(once)),
    ensures
        twice == b,
{
    lemma_grid_of_shape(b);
    lemma_transposed_involution(grid_of(b));
    lemma_grid_of_injective(twice, b);
}

/// Mirroring a board twice gives the board back.
pub proof fn lemma_flip_board_twice(b: Board, once: Board, twice: Board)
    requires
        grid_of(once) == flipped(grid_of(b)),
        grid_of(twice) == flipped(grid_of(once)),
    ensures
        twice == b,
{
    lemma_flipped_involution(grid_of(b));
    lemma_grid_of_injective(twice, b);
}

} // verus!
