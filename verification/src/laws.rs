//! What holds of the four swipes on every grid: each keeps the sum of the
//! tile values, each has the settled grids as its fixed points, and a
//! second swipe in the same direction changes nothing exactly when the
//! first left no equal tiles side by side along its axis.

use vstd::prelude::*;
use crate::board::{
    full_grid,
    grid_sum,
    is_grid,
    lemma_grid_sum_four,
    lemma_line_sum_four,
    line_sum,
    Grid,
    Line,
};
use crate::geometry::{
    flipped,
    lemma_flipped_involution,
    lemma_transposed_involution,
    mirrored,
    transposed,
};
use crate::line::{lemma_slide_right_sum, slide_right};
use crate::settle::{
    lemma_slide_right_fixed,
    lemma_slide_right_full,
    lemma_slide_right_packed,
    no_equal_neighbours,
    packed_right,
};
use crate::swipe::{swiped_down, swiped_left, swiped_right, swiped_up};

verus! {

/// Every line has its tiles against the right edge, and no two equal
/// tiles are neighbours in a line.
pub open spec fn settled_right(g: Grid) -> bool {
    forall|r: int|
        0 <= r < g.len() ==> packed_right(#[trigger] g[r]) && no_equal_neighbours(g[r])
}

/// The same towards the left edge.
pub open spec fn settled_left(g: Grid) -> bool {
    settled_right(flipped(g))
}

/// The same towards the bottom edge, column by column.
pub open spec fn settled_down(g: Grid) -> bool {
    settled_right(transposed(g))
}

/// The same towards the top edge, column by column.
pub open spec fn settled_up(g: Grid) -> bool {
    settled_right(flipped(transposed(g)))
}

/// No two equal tiles are neighbours in a row.
pub open spec fn rows_calm(g: Grid) -> bool {
    forall|r: int| 0 <= r < g.len() ==> no_equal_neighbours(#[trigger] g[r])
}

/// No two equal tiles are neighbours in a column.
pub open spec fn columns_calm(g: Grid) -> bool {
    rows_calm(transposed(g))
}

/// Mirroring a line keeps the sum of its four cells.
pub proof fn lemma_mirrored_sum(l: Line)
    requires
        l.len() == 4,
    ensures
        line_sum(mirrored(l)) == line_sum(l),
{
    lemma_line_sum_four(l);
    lemma_line_sum_four(mirrored(l));
}

/// Mirroring a grid keeps the sum of its tiles.
pub proof fn lemma_flipped_sum(g: Grid)
    requires
        is_grid(g),
    ensures
        grid_sum(flipped(g)) == grid_sum(g),
{
    lemma_grid_sum_four(g);
    lemma_grid_sum_four(flipped(g));
    lemma_mirrored_sum(g[0]);
    lemma_mirrored_sum(g[1]);
    lemma_mirrored_sum(g[2]);
    lemma_mirrored_sum(g[3]);
}

/// Transposing a grid keeps the sum of its tiles.
pub proof fn lemma_transposed_sum(g: Grid)
    requires
        is_grid(g),
    ensures
        grid_sum(transposed(g)) == grid_sum(g),
{
    let t = transposed(g);
    lemma_grid_sum_four(g);
    lemma_grid_sum_four(t);
    lemma_line_sum_four(g[0]);
    lemma_line_sum_four(g[1]);
    lemma_line_sum_four(g[2]);
    lemma_line_sum_four(g[3]);
    lemma_line_sum_four(t[0]);
    lemma_line_sum_four(t[1]);
    lemma_line_sum_four(t[2]);
    lemma_line_sum_four(t[3]);
}

/// A swipe to the right keeps the sum of the tile values: tiles only move,
/// or two tiles of value `v` become one of value `2 * v`.
pub proof fn lemma_swiped_right_sum(g: Grid)
    requires
        is_grid(g),
    ensures
        grid_sum(swiped_right(g)) == grid_sum(g),
{
    let s = swiped_right(g);
    lemma_grid_sum_four(g);
    lemma_grid_sum_four(s);
    lemma_slide_right_sum(g[0]);
    lemma_slide_right_sum(g[1]);
    lemma_slide_right_sum(g[2]);
    lemma_slide_right_sum(g[3]);
}

/// A swipe to the left keeps the sum of the tile values.
pub proof fn lemma_swiped_left_sum(g: Grid)
    requires
        is_grid(g),
    ensures
        grid_sum(swiped_left(g)) == grid_sum(g),
{
    lemma_flipped_sum(g);
    lemma_swiped_right_sum(flipped(g));
    lemma_flipped_sum(swiped_right(flipped(g)));
}

/// A swipe down keeps the sum of the tile values.
pub proof fn lemma_swiped_down_sum(g: Grid)
    requires
        is_grid(g),
    ensures
        grid_sum(swiped_down(g)) == grid_sum(g),
{
    lemma_transposed_sum(g);
    lemma_swiped_right_sum(transposed(g));
    lemma_transposed_sum(swiped_right(transposed(g)));
}

/// A swipe up keeps the sum of the tile values.
pub proof fn lemma_swiped_up_sum(g: Grid)
    requires
        is_grid(g),
    ensures
        grid_sum(swiped_up(g)) == grid_sum(g),
{
    lemma_transposed_sum(g);
    lemma_swiped_left_sum(transposed(g));
    lemma_transposed_sum(swiped_left(transposed(g)));
}

/// A swipe to the right changes nothing exactly on the grids settled
/// towards the right.
pub proof fn lemma_swiped_right_fixed(g: Grid)
    ensures
        swiped_right(g) == g <==> settled_right(g),
{
    if settled_right(g) {
        assert forall|r: int| 0 <= r < g.len() implies #[trigger] swiped_right(g)[r] == g[r] by {
            lemma_slide_right_fixed(g[r]);
        }
        assert(swiped_right(g) =~= g);
    }
    if swiped_right(g) == g {
        assert forall|r: int| 0 <= r < g.len() implies packed_right(#[trigger] g[r])
            && no_equal_neighbours(g[r]) by {
            assert(swiped_right(g)[r] == slide_right(g[r]));
            lemma_slide_right_fixed(g[r]);
        }
    }
}

/// A swipe to the left changes nothing exactly on the grids settled
/// towards the left.
pub proof fn lemma_swiped_left_fixed(g: Grid)
    ensures
        swiped_left(g) == g <==> settled_left(g),
{
    let f = flipped(g);
    lemma_swiped_right_fixed(f);
    lemma_flipped_involution(g);
    lemma_flipped_involution(swiped_right(f));
}

/// A swipe down changes nothing exactly on the grids settled towards the
/// bottom.
pub proof fn lemma_swiped_down_fixed(g: Grid)
    requires
        is_grid(g),
    ensures
        swiped_down(g) == g <==> settled_down(g),
{
    let t = transposed(g);
    lemma_swiped_right_fixed(t);
    lemma_transposed_involution(g);
    lemma_transposed_involution(swiped_right(t));
}

/// A swipe up changes nothing exactly on the grids settled towards the
/// top.
pub proof fn lemma_swiped_up_fixed(g: Grid)
    requires
        is_grid(g),
    ensures
        swiped_up(g) == g <==> settled_up(g),
{
    let t = transposed(g);
    lemma_swiped_left_fixed(t);
    lemma_transposed_involution(g);
    lemma_transposed_involution(swiped_left(t));
}

/// Reading a line backwards neither makes nor removes a pair of equal
/// neighbours.
pub proof fn lemma_mirrored_neighbours(l: Line)
    ensures
        no_equal_neighbours(mirrored(l)) <==> no_equal_neighbours(l),
{
    let m = mirrored(l);
    let n = l.len() as int;
    if no_equal_neighbours(l) {
        assert forall|i: int| 0 <= i < m.len() - 1 && (#[trigger] m[i]) is Some implies m[i]
            != m[i + 1] by {
            if m[i] == m[i + 1] {
                assert(l[n - 2 - i] is Some);
                assert(l[n - 2 - i] != l[n - 2 - i + 1]);
            }
        }
    }
    if no_equal_neighbours(m) {
        assert forall|i: int| 0 <= i < l.len() - 1 && (#[trigger] l[i]) is Some implies l[i]
            != l[i + 1] by {
            if l[i] == l[i + 1] {
                assert(m[n - 2 - i] is Some);
                assert(m[n - 2 - i] != m[n - 2 - i + 1]);
            }
        }
    }
}

/// Mirroring a grid neither makes nor removes a pair of equal neighbours
/// in a row.
pub proof fn lemma_flipped_rows_calm(g: Grid)
    ensures
        rows_calm(flipped(g)) <==> rows_calm(g),
{
    let f = flipped(g);
    if rows_calm(g) {
        assert forall|r: int| 0 <= r < f.len() implies no_equal_neighbours(#[trigger] f[r]) by {
            lemma_mirrored_neighbours(g[r]);
        }
    }
    if rows_calm(f) {
        assert forall|r: int| 0 <= r < g.len() implies no_equal_neighbours(#[trigger] g[r]) by {
            assert(no_equal_neighbours(f[r]));
            lemma_mirrored_neighbours(g[r]);
        }
    }
}

/// What a swipe to the right yields is settled towards the right as soon
/// as no two equal tiles are neighbours in any of its rows.
pub proof fn lemma_swiped_right_settles(g: Grid)
    ensures
        settled_right(swiped_right(g)) <==> rows_calm(swiped_right(g)),
{
    let s = swiped_right(g);
    assert forall|r: int| 0 <= r < s.len() implies packed_right(#[trigger] s[r]) by {
        lemma_slide_right_packed(g[r]);
    }
}

/// A second swipe to the right changes nothing exactly when the first one
/// left no two equal tiles side by side in a row. (It does change a row
/// 2, 2, 4, which the first swipe turns into 4, 4.)
pub proof fn lemma_swiped_right_twice(g: Grid)
    ensures
        swiped_right(swiped_right(g)) == swiped_right(g) <==> rows_calm(swiped_right(g)),
{
    lemma_swiped_right_fixed(swiped_right(g));
    lemma_swiped_right_settles(g);
}

/// A second swipe to the left changes nothing exactly when the first one
/// left no two equal tiles side by side in a row.
pub proof fn lemma_swiped_left_twice(g: Grid)
    ensures
        swiped_left(swiped_left(g)) == swiped_left(g) <==> rows_calm(swiped_left(g)),
{
    let f = flipped(g);
    let s = swiped_right(f);
    lemma_flipped_involution(s);
    lemma_flipped_involution(swiped_right(s));
    lemma_swiped_right_twice(f);
    lemma_flipped_rows_calm(s);
}

/// A second swipe down changes nothing exactly when the first one left no
/// two equal tiles one above the other.
pub proof fn lemma_swiped_down_twice(g: Grid)
    requires
        is_grid(g),
    ensures
        swiped_down(swiped_down(g)) == swiped_down(g) <==> columns_calm(swiped_down(g)),
{
    let t = transposed(g);
    let s = swiped_right(t);
    lemma_transposed_involution(s);
    lemma_transposed_involution(swiped_right(s));
    lemma_swiped_right_twice(t);
}

/// A second swipe up changes nothing exactly when the first one left no
/// two equal tiles one above the other.
pub proof fn lemma_swiped_up_twice(g: Grid)
    requires
        is_grid(g),
    ensures
        swiped_up(swiped_up(g)) == swiped_up(g) <==> columns_calm(swiped_up(g)),
{
    let t = transposed(g);
    let s = swiped_left(t);
    lemma_transposed_involution(s);
    lemma_transposed_involution(swiped_left(s));
    lemma_swiped_left_twice(t);
}

/// Mirroring neither fills nor empties a cell.
pub proof fn lemma_flipped_full(g: Grid)
    requires
        is_grid(g),
    ensures
        full_grid(flipped(g)) <==> full_grid(g),
{
    let f = flipped(g);
    if full_grid(g) {
        assert forall|r: int, c: int| 0 <= r < 4 && 0 <= c < 4 implies (#[trigger] f[r][c]) is Some by {
            assert(g[r][3 - c] is Some);
        }
    }
    if full_grid(f) {
        assert forall|r: int, c: int| 0 <= r < 4 && 0 <= c < 4 implies (#[trigger] g[r][c]) is Some by {
            assert(f[r][3 - c] is Some);
        }
    }
}

/// Transposing neither fills nor empties a cell.
pub proof fn lemma_transposed_full(g: Grid)
    requires
        is_grid(g),
    ensures
        full_grid(transposed(g)) <==> full_grid(g),
{
    let t = transposed(g);
    if full_grid(g) {
        assert forall|r: int, c: int| 0 <= r < 4 && 0 <= c < 4 implies (#[trigger] t[r][c]) is Some by {
            assert(g[c][r] is Some);
        }
    }
    if full_grid(t) {
        assert forall|r: int, c: int| 0 <= r < 4 && 0 <= c < 4 implies (#[trigger] g[r][c]) is Some by {
            assert(t[c][r] is Some);
        }
    }
}

/// A swipe to the right that changes the grid leaves an empty cell.
pub proof fn lemma_swiped_right_gap(g: Grid)
    requires
        is_grid(g),
        swiped_right(g) != g,
    ensures
        !full_grid(swiped_right(g)),
{
    let s = swiped_right(g);
    if full_grid(s) {
        assert forall|r: int| 0 <= r < g.len() implies #[trigger] s[r] == g[r] by {
            assert forall|i: int| 0 <= i < g[r].len() implies (#[trigger] slide_right(
                g[r],
            )[i]) is Some by {
                assert(s[r][i] is Some);
            }
            lemma_slide_right_full(g[r]);
        }
        assert(s =~= g);
    }
}

/// A swipe to the left that changes the grid leaves an empty cell.
pub proof fn lemma_swiped_left_gap(g: Grid)
    requires
        is_grid(g),
        swiped_left(g) != g,
    ensures
        !full_grid(swiped_left(g)),
{
    let f = flipped(g);
    lemma_flipped_involution(g);
    lemma_flipped_full(swiped_right(f));
    if swiped_right(f) != f {
        lemma_swiped_right_gap(f);
    }
}

/// A swipe down that changes the grid leaves an empty cell.
pub proof fn lemma_swiped_down_gap(g: Grid)
    requires
        is_grid(g),
        swiped_down(g) != g,
    ensures
        !full_grid(swiped_down(g)),
{
    let t = transposed(g);
    lemma_transposed_involution(g);
    lemma_transposed_full(swiped_right(t));
    if swiped_right(t) != t {
        lemma_swiped_right_gap(t);
    }
}

/// A swipe up that changes the grid leaves an empty cell.
pub proof fn lemma_swiped_up_gap(g: Grid)
    requires
        is_grid(g),
        swiped_up(g) != g,
    ensures
        !full_grid(swiped_up(g)),
{
    let t = transposed(g);
    lemma_transposed_involution(g);
    lemma_transposed_full(swiped_left(t));
    if swiped_left(t) != t {
        lemma_swiped_left_gap(t);
    }
}

} // verus!
