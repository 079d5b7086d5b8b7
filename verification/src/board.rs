//! The grid itself: sixteen cells, each empty or holding a tile value,
//! together with the mathematical model that every contract speaks of.

use vstd::prelude::*;

verus! {

/// One cell: `None` when empty, otherwise the value of the tile on it.
pub type Cell = Option<u16>;

/// One row of the board, left to right.
pub type Row = [Option<u16>; 4];

/// The board, top row first. Boards are plain values: every operation
/// returns a new board and leaves its argument alone.
pub type Board = [[Option<u16>; 4]; 4];

/// A cell of the model: a tile value is an unbounded natural number.
pub type Tile = Option<nat>;

/// A line of the model: the cells of one row, left to right.
pub type Line = Seq<Option<nat>>;

/// The model of a board: its rows, top first.
pub type Grid = Seq<Seq<Option<nat>>>;

/// The model of one cell.
pub open spec fn tile_of(c: Cell) -> Tile {
    match c {
        Some(v) => Some(v as nat),
        None => None,
    }
}

/// The model of one row.
pub open spec fn line_of(row: Row) -> Line {
    Seq::new(4, |c: int| tile_of(row@[c]))
}

/// The model of a board.
pub open spec fn grid_of(b: Board) -> Grid {
    Seq::new(4, |r: int| line_of(b@[r]))
}

/// A grid has the shape of a board: four lines of four cells.
pub open spec fn is_grid(g: Grid) -> bool {
    &&& g.len() == 4
    &&& forall|r: int| 0 <= r < 4 ==> (#[trigger] g[r]).len() == 4
}

/// Every tile of the line can be stored in a cell of a board.
pub open spec fn line_fits(l: Line) -> bool {
    forall|i: int| 0 <= i < l.len() ==> ((#[trigger] l[i]) matches Some(v) ==> v <= u16::MAX)
}

/// Every tile of the grid can be stored in a cell of a board.
pub open spec fn grid_fits(g: Grid) -> bool {
    forall|r: int| 0 <= r < g.len() ==> line_fits(#[trigger] g[r])
}

/// The grid without any tile.
pub open spec fn empty_grid() -> Grid {
    Seq::new(4, |r: int| Seq::new(4, |c: int| None::<nat>))
}

/// No cell of the grid is empty.
pub open spec fn full_grid(g: Grid) -> bool {
    forall|r: int, c: int| 0 <= r < 4 && 0 <= c < 4 ==> (#[trigger] g[r][c]) is Some
}

/// What a cell counts for in the score: the value of its tile, or nothing.
pub open spec fn tile_value(t: Tile) -> nat {
    match t {
        Some(v) => v,
        None => 0,
    }
}

/// The sum of the tile values of a line.
pub open spec fn line_sum(l: Line) -> nat
    decreases l.len(),
{
    if l.len() == 0 {
        0
    } else {
        line_sum(l.drop_last()) + tile_value(l.last())
    }
}

/// The sum of the tile values of a grid.
pub open spec fn grid_sum(g: Grid) -> nat
    decreases g.len(),
{
    if g.len() == 0 {
        0
    } else {
        grid_sum(g.drop_last()) + line_sum(g.last())
    }
}

/// The sum over a line of four cells, written out.
pub proof fn lemma_line_sum_four(l: Line)
    requires
        l.len() == 4,
    ensures
        line_sum(l) == tile_value(l[0]) + tile_value(l[1]) + tile_value(l[2]) + tile_value(l[3]),
{
    let l3 = l.drop_last();
    let l2 = l3.drop_last();
    let l1 = l2.drop_last();
    let l0 = l1.drop_last();
    assert(line_sum(l0) == 0);
    assert(line_sum(l1) == tile_value(l[0]));
    assert(line_sum(l2) == tile_value(l[0]) + tile_value(l[1]));
    assert(line_sum(l3) == tile_value(l[0]) + tile_value(l[1]) + tile_value(l[2]));
}

/// The sum over a grid of four lines, written out.
pub proof fn lemma_grid_sum_four(g: Grid)
    requires
        g.len() == 4,
    ensures
        grid_sum(g) == line_sum(g[0]) + line_sum(g[1]) + line_sum(g[2]) + line_sum(g[3]),
{
    let g3 = g.drop_last();
    let g2 = g3.drop_last();
    let g1 = g2.drop_last();
    let g0 = g1.drop_last();
    assert(grid_sum(g0) == 0);
    assert(grid_sum(g1) == line_sum(g[0]));
    assert(grid_sum(g2) == line_sum(g[0]) + line_sum(g[1]));
    assert(grid_sum(g3) == line_sum(g[0]) + line_sum(g[1]) + line_sum(g[2]));
}

/// The model of a row is a line of four cells that fit.
pub proof fn lemma_line_of_shape(row: Row)
    ensures
        line_of(row).len() == 4,
        line_fits(line_of(row)),
{
}

/// The model of a board is a grid whose tiles fit.
pub proof fn lemma_grid_of_shape(b: Board)
    ensures
        is_grid(grid_of(b)),
        grid_fits(grid_of(b)),
{
    assert forall|r: int| 0 <= r < 4 implies line_fits(#[trigger] grid_of(b)[r]) by {
        lemma_line_of_shape(b@[r]);
    }
}

/// Two rows with the same model are the same row.
pub proof fn lemma_line_of_injective(x: Row, y: Row)
    requires
        line_of(x) == line_of(y),
    ensures
        x == y,
{
    assert forall|c: int| 0 <= c < 4 implies x[c] == y[c] by {
        assert(line_of(x)[c] == line_of(y)[c]);
    }
    assert(x =~= y);
}

/// Two boards with the same model are the same board.
pub proof fn lemma_grid_of_injective(a: Board, b: Board)
    requires
        grid_of(a) == grid_of(b),
    ensures
        a == b,
{
    assert forall|r: int| 0 <= r < 4 implies a[r] == b[r] by {
        assert(grid_of(a)[r] == grid_of(b)[r]);
        lemma_line_of_injective(a[r], b[r]);
    }
    assert(a =~= b);
}

/// Returns the board with every cell empty.
pub fn empty_board() -> (b: Board)
    ensures
        grid_of(b) == empty_grid(),
{
    let b: Board = [[None; 4]; 4];
    assert(grid_of(b) =~~= empty_grid());
    b
}

/// Tells whether two cells hold the same thing.
pub fn cells_equal(x: Cell, y: Cell) -> (same: bool)
    ensures
        same <==> x == y,
{
    match (x, y) {
        (Some(v), Some(w)) => v == w,
        (None, None) => true,
        _ => false,
    }
}

/// Tells whether two boards are the same, cell by cell. A swipe that
/// returns a board equal to its argument moved nothing.
pub fn boards_equal(a: &Board, b: &Board) -> (same: bool)
    ensures
        same <==> *a == *b,
        same <==> grid_of(*a) == grid_of(*b),
{
    let mut r: usize = 0;
    while r < 4
        invariant
            r <= 4,
            forall|i: int, j: int| 0 <= i < r && 0 <= j < 4 ==> a@[i]@[j] == b@[i]@[j],
        decreases 4 - r,
    {
        let mut c: usize = 0;
        while c < 4
            invariant
                r < 4,
                c <= 4,
                forall|i: int, j: int| 0 <= i < r && 0 <= j < 4 ==> a@[i]@[j] == b@[i]@[j],
                forall|j: int| 0 <= j < c ==> a@[r as int]@[j] == b@[r as int]@[j],
            decreases 4 - c,
        {
            if !cells_equal(a[r][c], b[r][c]) {
                proof {
                    if grid_of(*a) == grid_of(*b) {
                        lemma_grid_of_injective(*a, *b);
                    }
                }
                return false;
            }
            c += 1;
        }
        r += 1;
    }
    proof {
        assert forall|i: int| 0 <= i < 4 implies a@[i] == b@[i] by {
            assert(a@[i] =~= b@[i]);
        }
        assert(*a =~= *b);
    }
    true
}

} // verus!
