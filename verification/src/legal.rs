//! The values that play can put on a board: the powers of two from 2 on.
//! The empty board holds only such values, and a spawn, a swipe and a
//! symmetry each keep it that way, so a board reached by play never holds
//! a zero or a value that is no power of two.

use vstd::prelude::*;
use vstd::arithmetic::power2::{lemma2_to64, lemma_pow2_strictly_increases, lemma_pow2_unfold, pow2};
use crate::board::{empty_grid, is_grid, Grid, Line};
use crate::geometry::{flipped, transposed};
use crate::line::{
    align_right,
    lemma_merge_pairs_len,
    lemma_tiles_len,
    merge_pairs,
    slide_right,
    tiles,
};
use crate::spawn::{spawned, with_tile};
use crate::swipe::{swiped_down, swiped_left, swiped_right, swiped_up};

verus! {

/// The value is a power of two, and at least 2.
pub open spec fn legal_value(v: nat) -> bool {
    exists|k: nat| k >= 1 && v == #[trigger] pow2(k)
}

/// Every value of the sequence is legal.
pub open spec fn legal_seq(ts: Seq<nat>) -> bool {
    forall|i: int| 0 <= i < ts.len() ==> legal_value(#[trigger] ts[i])
}

/// Every tile of the line has a legal value.
pub open spec fn legal_line(l: Line) -> bool {
    forall|i: int| 0 <= i < l.len() ==> ((#[trigger] l[i]) matches Some(v) ==> legal_value(v))
}

/// Every tile of the grid has a legal value.
pub open spec fn legal_grid(g: Grid) -> bool {
    forall|r: int| 0 <= r < g.len() ==> legal_line(#[trigger] g[r])
}

/// The two values that a spawn can put on the board are legal, and so is
/// the value that wins.
pub proof fn lemma_legal_examples()
    ensures
        legal_value(2),
        legal_value(4),
        legal_value(2048),
{
    lemma2_to64();
    assert(2 == pow2(1));
    assert(4 == pow2(2));
    assert(2048 == pow2(11));
}

/// A legal value is at least 2; in particular it is not zero.
pub proof fn lemma_legal_at_least_two(v: nat)
    requires
        legal_value(v),
    ensures
        v >= 2,
{
    let k = choose|k: nat| k >= 1 && v == #[trigger] pow2(k);
    lemma2_to64();
    if k > 1 {
        lemma_pow2_strictly_increases(1, k);
    }
}

/// Twice a legal value is legal: a merge makes the next power of two.
pub proof fn lemma_legal_doubles(v: nat)
    requires
        legal_value(v),
    ensures
        legal_value(2 * v),
{
    let k = choose|k: nat| k >= 1 && v == #[trigger] pow2(k);
    lemma_pow2_unfold(k + 1);
    assert(2 * v == pow2(k + 1));
}

/// The tiles of a legal line are legal.
pub proof fn lemma_tiles_legal(l: Line)
    requires
        legal_line(l),
    ensures
        legal_seq(tiles(l)),
    decreases l.len(),
{
    if l.len() > 0 {
        let front = l.drop_last();
        assert forall|i: int| 0 <= i < front.len() implies ((#[trigger] front[i]) matches Some(v)
            ==> legal_value(v)) by {
            assert(front[i] == l[i]);
        }
        lemma_tiles_legal(front);
        assert(l.last() == l[l.len() - 1]);
    }
}

/// Merging legal tiles gives legal tiles.
pub proof fn lemma_merge_pairs_legal(ts: Seq<nat>)
    requires
        legal_seq(ts),
    ensures
        legal_seq(merge_pairs(ts)),
    decreases ts.len(),
{
    if ts.len() == 0 {
    } else if ts.len() >= 2 && ts[ts.len() - 1] == ts[ts.len() - 2] {
        let rest = ts.take(ts.len() - 2);
        assert forall|i: int| 0 <= i < rest.len() implies legal_value(#[trigger] rest[i]) by {
            assert(rest[i] == ts[i]);
        }
        lemma_merge_pairs_legal(rest);
        assert(legal_value(ts[ts.len() - 1]));
        lemma_legal_doubles(ts.last());
    } else {
        let front = ts.drop_last();
        assert forall|i: int| 0 <= i < front.len() implies legal_value(#[trigger] front[i]) by {
            assert(front[i] == ts[i]);
        }
        lemma_merge_pairs_legal(front);
        assert(legal_value(ts[ts.len() - 1]));
    }
}

/// A slide keeps a line legal.
pub proof fn lemma_slide_right_legal(l: Line)
    requires
        legal_line(l),
    ensures
        legal_line(slide_right(l)),
{
    let merged = merge_pairs(tiles(l));
    lemma_tiles_legal(l);
    lemma_merge_pairs_legal(tiles(l));
    lemma_tiles_len(l);
    lemma_merge_pairs_len(tiles(l));
    let out = align_right(merged, l.len());
    assert forall|i: int| 0 <= i < out.len() implies ((#[trigger] out[i]) matches Some(v)
        ==> legal_value(v)) by {
        if out[i] is Some {
            assert(legal_value(merged[i - (l.len() - merged.len())]));
        }
    }
}

/// The empty grid is legal: it holds no tile at all.
pub proof fn lemma_empty_grid_legal()
    ensures
        legal_grid(empty_grid()),
{
}

/// Mirroring keeps a grid legal.
pub proof fn lemma_flipped_legal(g: Grid)
    requires
        is_grid(g),
        legal_grid(g),
    ensures
        legal_grid(flipped(g)),
{
    let f = flipped(g);
    assert forall|r: int| 0 <= r < f.len() implies legal_line(#[trigger] f[r]) by {
        assert(legal_line(g[r]));
        assert forall|c: int| 0 <= c < f[r].len() implies ((#[trigger] f[r][c]) matches Some(v)
            ==> legal_value(v)) by {
            assert(f[r][c] == g[r][3 - c]);
        }
    }
}

/// Transposing keeps a grid legal.
pub proof fn lemma_transposed_legal(g: Grid)
    requires
        is_grid(g),
        legal_grid(g),
    ensures
        legal_grid(transposed(g)),
{
    let t = transposed(g);
    assert forall|r: int| 0 <= r < t.len() implies legal_line(#[trigger] t[r]) by {
        assert forall|c: int| 0 <= c < t[r].len() implies ((#[trigger] t[r][c]) matches Some(v)
            ==> legal_value(v)) by {
            assert(legal_line(g[c]));
            assert(t[r][c] == g[c][r]);
        }
    }
}

/// A swipe to the right keeps a grid legal.
pub proof fn lemma_swiped_right_legal(g: Grid)
    requires
        legal_grid(g),
    ensures
        legal_grid(swiped_right(g)),
{
    let s = swiped_right(g);
    assert forall|r: int| 0 <= r < s.len() implies legal_line(#[trigger] s[r]) by {
        assert(legal_line(g[r]));
        lemma_slide_right_legal(g[r]);
    }
}

/// Every swipe keeps a grid legal.
pub proof fn lemma_swipes_legal(g: Grid)
    requires
        is_grid(g),
        legal_grid(g),
    ensures
        legal_grid(swiped_right(g)),
        legal_grid(swiped_left(g)),
        legal_grid(swiped_down(g)),
        legal_grid(swiped_up(g)),
{
    let f = flipped(g);
    let t = transposed(g);
    let ft = flipped(t);
    lemma_swiped_right_legal(g);
    lemma_flipped_legal(g);
    lemma_swiped_right_legal(f);
    lemma_flipped_legal(swiped_right(f));
    lemma_transposed_legal(g);
    lemma_swiped_right_legal(t);
    lemma_transposed_legal(swiped_right(t));
    lemma_flipped_legal(t);
    lemma_swiped_right_legal(ft);
    lemma_flipped_legal(swiped_right(ft));
    lemma_transposed_legal(swiped_left(t));
}

/// A spawn keeps a grid legal: the new tile is a 2 or a 4.
pub proof fn lemma_spawned_legal(before: Grid, after: Grid)
    requires
        is_grid(before),
        legal_grid(before),
        spawned(before, after),
    ensures
        legal_grid(after),
{
    let (r, c, v) = choose|r: int, c: int, v: nat|
        0 <= r < 4 && 0 <= c < 4 && before[r][c] is None && (v == 2 || v == 4) && after
            == #[trigger] with_tile(before, r, c, v);
    lemma_legal_examples();
    assert forall|i: int| 0 <= i < after.len() implies legal_line(#[trigger] after[i]) by {
        assert(legal_line(before[i]));
        assert forall|j: int| 0 <= j < after[i].len() implies ((#[trigger] after[i][j]) matches Some(
            w,
        ) ==> legal_value(w)) by {
            if i != r || j != c {
                assert(after[i][j] == before[i][j]);
            }
        }
    }
}

} // verus!
