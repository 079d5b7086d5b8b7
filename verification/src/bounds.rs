//! How large a swipe can make a tile: never more than twice the largest
//! tile it started from. A board whose tiles all stay below half the
//! range of a cell can therefore be swiped in every direction.

use vstd::prelude::*;
use crate::board::{
    grid_fits,
    grid_of,
    is_grid,
    lemma_grid_of_shape,
    line_fits,
    Board,
    Grid,
    Line,
};
use crate::geometry::{flipped, transposed};
use crate::line::{
    align_right,
    lemma_merge_pairs_len,
    lemma_tiles_len,
    merge_pairs,
    slide_right,
    tiles,
};
use crate::swipe::{swiped_down, swiped_left, swiped_right, swiped_up};

verus! {

/// The largest tile value that can still be doubled in a cell.
pub const LARGEST_DOUBLED: u16 = 0x7fff;

/// No value of the sequence is above `m`.
pub open spec fn seq_below(ts: Seq<nat>, m: nat) -> bool {
    forall|i: int| 0 <= i < ts.len() ==> #[trigger] ts[i] <= m
}

/// No tile of the line is above `m`.
pub open spec fn line_below(l: Line, m: nat) -> bool {
    forall|i: int| 0 <= i < l.len() ==> ((#[trigger] l[i]) matches Some(v) ==> v <= m)
}

/// No tile of the grid is above `m`.
pub open spec fn grid_below(g: Grid, m: nat) -> bool {
    forall|r: int| 0 <= r < g.len() ==> line_below(#[trigger] g[r], m)
}

/// The tiles of a line are no larger than the line's largest tile.
pub proof fn lemma_tiles_below(l: Line, m: nat)
    requires
        line_below(l, m),
    ensures
        seq_below(tiles(l), m),
    decreases l.len(),
{
    if l.len() > 0 {
        let front = l.drop_last();
        assert forall|i: int| 0 <= i < front.len() implies ((#[trigger] front[i]) matches Some(v)
            ==> v <= m) by {
            assert(front[i] == l[i]);
        }
        lemma_tiles_below(front, m);
        assert(l.last() == l[l.len() - 1]);
    }
}

/// Merging at most doubles a tile.
pub proof fn lemma_merge_pairs_below(ts: Seq<nat>, m: nat)
    requires
        seq_below(ts, m),
    ensures
        seq_below(merge_pairs(ts), 2 * m),
    decreases ts.len(),
{
    if ts.len() == 0 {
    } else if ts.len() >= 2 && ts[ts.len() - 1] == ts[ts.len() - 2] {
        let rest = ts.take(ts.len() - 2);
        assert forall|i: int| 0 <= i < rest.len() implies #[trigger] rest[i] <= m by {
            assert(rest[i] == ts[i]);
        }
        lemma_merge_pairs_below(rest, m);
        assert(ts.last() == ts[ts.len() - 1]);
    } else {
        let front = ts.drop_last();
        assert forall|i: int| 0 <= i < front.len() implies #[trigger] front[i] <= m by {
            assert(front[i] == ts[i]);
        }
        lemma_merge_pairs_below(front, m);
        assert(ts.last() == ts[ts.len() - 1]);
    }
}

/// A slide at most doubles the largest tile of a line.
pub proof fn lemma_slide_right_below(l: Line, m: nat)
    requires
        line_below(l, m),
    ensures
        line_below(slide_right(l), 2 * m),
{
    let merged = merge_pairs(tiles(l));
    lemma_tiles_below(l, m);
    lemma_merge_pairs_below(tiles(l), m);
    lemma_tiles_len(l);
    lemma_merge_pairs_len(tiles(l));
    let out = align_right(merged, l.len());
    assert forall|i: int| 0 <= i < out.len() implies ((#[trigger] out[i]) matches Some(v) ==> v
        <= 2 * m) by {
        if out[i] is Some {
            assert(merged[i - (l.len() - merged.len())] <= 2 * m);
        }
    }
}

/// Mirroring keeps the largest tile of a grid.
pub proof fn lemma_flipped_below(g: Grid, m: nat)
    requires
        is_grid(g),
        grid_below(g, m),
    ensures
        grid_below(flipped(g), m),
{
    let f = flipped(g);
    assert forall|r: int| 0 <= r < f.len() implies line_below(#[trigger] f[r], m) by {
        assert(line_below(g[r], m));
        assert forall|c: int| 0 <= c < f[r].len() implies ((#[trigger] f[r][c]) matches Some(v)
            ==> v <= m) by {
            assert(f[r][c] == g[r][3 - c]);
        }
    }
}

/// Transposing keeps the largest tile of a grid.
pub proof fn lemma_transposed_below(g: Grid, m: nat)
    requires
        is_grid(g),
        grid_below(g, m),
    ensures
        grid_below(transposed(g), m),
{
    let t = transposed(g);
    assert forall|r: int| 0 <= r < t.len() implies line_below(#[trigger] t[r], m) by {
        assert forall|c: int| 0 <= c < t[r].len() implies ((#[trigger] t[r][c]) matches Some(v)
            ==> v <= m) by {
            assert(line_below(g[c], m));
            assert(t[r][c] == g[c][r]);
        }
    }
}

/// A swipe to the right at most doubles the largest tile of a grid.
pub proof fn lemma_swiped_right_below(g: Grid, m: nat)
    requires
        grid_below(g, m),
    ensures
        grid_below(swiped_right(g), 2 * m),
{
    let s = swiped_right(g);
    assert forall|r: int| 0 <= r < s.len() implies line_below(#[trigger] s[r], 2 * m) by {
        assert(line_below(g[r], m));
        lemma_slide_right_below(g[r], m);
    }
}

/// Every swipe at most doubles the largest tile of a grid.
pub proof fn lemma_swipes_below(g: Grid, m: nat)
    requires
        is_grid(g),
        grid_below(g, m),
    ensures
        grid_below(swiped_right(g), 2 * m),
        grid_below(swiped_left(g), 2 * m),
        grid_below(swiped_down(g), 2 * m),
        grid_below(swiped_up(g), 2 * m),
{
    let f = flipped(g);
    let t = transposed(g);
    let ft = flipped(t);
    lemma_swiped_right_below(g, m);
    lemma_flipped_below(g, m);
    lemma_swiped_right_below(f, m);
    lemma_flipped_below(swiped_right(f), 2 * m);
    lemma_transposed_below(g, m);
    lemma_swiped_right_below(t, m);
    lemma_transposed_below(swiped_right(t), 2 * m);
    lemma_flipped_below(t, m);
    lemma_swiped_right_below(ft, m);
    lemma_flipped_below(swiped_right(ft), 2 * m);
    lemma_transposed_below(swiped_left(t), 2 * m);
}

/// A grid whose tiles are no larger than the largest value of a cell fits.
pub proof fn lemma_below_fits(g: Grid)
    requires
        grid_below(g, u16::MAX as nat),
    ensures
        grid_fits(g),
{
    assert forall|r: int| 0 <= r < g.len() implies line_fits(#[trigger] g[r]) by {
        assert(line_below(g[r], u16::MAX as nat));
    }
}

/// On a grid whose tiles can all be doubled in a cell, the outcome of
/// every swipe can be stored.
pub proof fn lemma_swipes_fit(g: Grid)
    requires
        is_grid(g),
        grid_below(g, LARGEST_DOUBLED as nat),
    ensures
        grid_fits(swiped_right(g)),
        grid_fits(swiped_left(g)),
        grid_fits(swiped_down(g)),
        grid_fits(swiped_up(g)),
{
    lemma_swipes_below(g, LARGEST_DOUBLED as nat);
    lemma_below_fits(swiped_right(g));
    lemma_below_fits(swiped_left(g));
    lemma_below_fits(swiped_down(g));
    lemma_below_fits(swiped_up(g));
}

/// Tells whether every tile of the board can be doubled in a cell. Where
/// it can, the board may be swiped in any direction.
pub fn swipes_fit(board: Board) -> (ok: bool)
    ensures
        ok <==> grid_below(grid_of(board), LARGEST_DOUBLED as nat),
        ok ==> grid_fits(swiped_right(grid_of(board))),
        ok ==> grid_fits(swiped_left(grid_of(board))),
        ok ==> grid_fits(swiped_down(grid_of(board))),
        ok ==> grid_fits(swiped_up(grid_of(board))),
{
    let ghost g = grid_of(board);
    let mut r: usize = 0;
    while r < 4
        invariant
            r <= 4,
            g == grid_of(board),
            forall|i: int| 0 <= i < r ==> line_below(#[trigger] g[i], LARGEST_DOUBLED as nat),
        decreases 4 - r,
    {
        let mut c: usize = 0;
        while c < 4
            invariant
                r < 4,
                c <= 4,
                g == grid_of(board),
                forall|i: int| 0 <= i < r ==> line_below(#[trigger] g[i], LARGEST_DOUBLED as nat),
                forall|j: int|
                    0 <= j < c ==> ((#[trigger] g[r as int][j]) matches Some(v) ==> v
                        <= LARGEST_DOUBLED),
            decreases 4 - c,
        {
            match board[r][c] {
                Some(v) => {
                    if v > LARGEST_DOUBLED {
                        assert(g[r as int][c as int] == Some(v as nat));
                        assert(!line_below(g[r as int], LARGEST_DOUBLED as nat));
                        return false;
                    }
                },
                None => {},
            }
            c += 1;
        }
        r += 1;
    }
    proof {
        lemma_grid_of_shape(board);
        lemma_swipes_fit(g);
    }
    true
}

} // verus!
