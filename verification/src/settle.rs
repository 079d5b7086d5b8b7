//! When a slide changes nothing: the lines that a swipe to the right
//! leaves as they are, and what a second swipe does after a first.

use vstd::prelude::*;
use crate::board::Line;
use crate::line::{
    align_right,
    lemma_align_right_push,
    lemma_merge_pairs_len,
    lemma_tiles_len,
    lemma_tiles_take_gap,
    merge_pairs,
    slide_right,
    tiles,
};

verus! {

/// No tile of the line has an empty cell anywhere to its right.
pub open spec fn packed_right(l: Line) -> bool {
    forall|i: int, j: int| 0 <= i < j < l.len() && (#[trigger] l[i]) is Some ==> (#[trigger] l[j]) is Some
}

/// No tile of the line has an equal tile in the cell next to it.
pub open spec fn no_equal_neighbours(l: Line) -> bool {
    forall|i: int| 0 <= i < l.len() - 1 && (#[trigger] l[i]) is Some ==> l[i] != l[i + 1]
}

/// No value of the sequence is followed by an equal one.
pub open spec fn distinct_neighbours(ts: Seq<nat>) -> bool {
    forall|i: int| 0 <= i < ts.len() - 1 ==> #[trigger] ts[i] != ts[i + 1]
}

/// Tiles without equal neighbours do not merge.
pub proof fn lemma_merge_pairs_fixed(ts: Seq<nat>)
    requires
        distinct_neighbours(ts),
    ensures
        merge_pairs(ts) == ts,
    decreases ts.len(),
{
    if ts.len() > 0 {
        let front = ts.drop_last();
        if ts.len() >= 2 {
            assert(ts[ts.len() - 2] != ts[ts.len() - 2 + 1]);
        }
        assert forall|i: int| 0 <= i < front.len() - 1 implies #[trigger] front[i] != front[i
            + 1] by {
            assert(ts[i] != ts[i + 1]);
        }
        lemma_merge_pairs_fixed(front);
        assert(front.push(ts.last()) =~= ts);
    }
}

/// Tiles with two equal neighbours somewhere are fewer after merging.
pub proof fn lemma_merge_pairs_shrinks(ts: Seq<nat>)
    requires
        !distinct_neighbours(ts),
    ensures
        merge_pairs(ts).len() < ts.len(),
    decreases ts.len(),
{
    let i = choose|i: int| 0 <= i < ts.len() - 1 && #[trigger] ts[i] == ts[i + 1];
    assert(ts.len() >= 2);
    if ts[ts.len() - 1] == ts[ts.len() - 2] {
        lemma_merge_pairs_len(ts.take(ts.len() - 2));
    } else {
        let front = ts.drop_last();
        assert(i < ts.len() - 2);
        assert(front[i] == front[i + 1]);
        lemma_merge_pairs_shrinks(front);
    }
}

/// Merging leaves the tiles as they are exactly when no two neighbours
/// are equal.
pub proof fn lemma_merge_pairs_fixed_iff(ts: Seq<nat>)
    ensures
        merge_pairs(ts) == ts <==> distinct_neighbours(ts),
{
    if distinct_neighbours(ts) {
        lemma_merge_pairs_fixed(ts);
    } else {
        lemma_merge_pairs_shrinks(ts);
    }
}

/// The tiles of a line laid against the right edge are the tiles laid.
pub proof fn lemma_tiles_of_aligned(ts: Seq<nat>, n: nat)
    requires
        ts.len() <= n,
    ensures
        tiles(align_right(ts, n)) == ts,
    decreases n,
{
    let a = align_right(ts, n);
    if n > 0 {
        if ts.len() == 0 {
            assert(a.drop_last() =~= align_right(ts, (n - 1) as nat));
            lemma_tiles_of_aligned(ts, (n - 1) as nat);
        } else {
            assert(a.drop_last() =~= align_right(ts.drop_last(), (n - 1) as nat));
            assert(a.last() == Some(ts.last()));
            lemma_tiles_of_aligned(ts.drop_last(), (n - 1) as nat);
            assert(ts.drop_last().push(ts.last()) =~= ts);
        }
    } else {
        assert(ts =~= Seq::<nat>::empty());
    }
}

/// Tiles laid against the right edge leave no gap to their right.
pub proof fn lemma_aligned_is_packed(ts: Seq<nat>, n: nat)
    requires
        ts.len() <= n,
    ensures
        packed_right(align_right(ts, n)),
{
}

/// A line without gaps to the right of its tiles is its own tiles laid
/// against the right edge.
pub proof fn lemma_packed_is_aligned(l: Line)
    requires
        packed_right(l),
    ensures
        align_right(tiles(l), l.len()) == l,
    decreases l.len(),
{
    if l.len() > 0 {
        let n = l.len();
        let front = l.drop_last();
        match l.last() {
            Some(v) => {
                assert forall|i: int, j: int|
                    0 <= i < j < front.len() && (#[trigger] front[i]) is Some implies (
                #[trigger] front[j]) is Some by {
                    assert(l[i] is Some);
                    assert(l[j] is Some);
                }
                lemma_packed_is_aligned(front);
                lemma_tiles_len(front);
                lemma_align_right_push(tiles(front), v, (n - 1) as nat);
                assert(front.push(Some(v)) =~= l);
            },
            None => {
                assert forall|k: int| 0 <= k < n implies l[k] is None by {
                    if k < n - 1 && l[k] is Some {
                        assert(l[n - 1] is Some);
                    }
                }
                lemma_tiles_take_gap(l, 0, n as int);
                assert(l.take(n as int) =~= l);
                assert(l.take(0) =~= Seq::<Option<nat>>::empty());
                assert(tiles(l) =~= Seq::<nat>::empty());
                assert(align_right(tiles(l), n) =~= l);
            },
        }
    } else {
        assert(align_right(tiles(l), l.len()) =~= l);
    }
}

/// Tiles laid against the right edge have an equal neighbour in the line
/// exactly when they have one in the sequence.
pub proof fn lemma_aligned_neighbours(ts: Seq<nat>, n: nat)
    requires
        ts.len() <= n,
    ensures
        no_equal_neighbours(align_right(ts, n)) <==> distinct_neighbours(ts),
{
    let a = align_right(ts, n);
    let gap = n - ts.len();
    if distinct_neighbours(ts) {
        assert forall|i: int| 0 <= i < a.len() - 1 && (#[trigger] a[i]) is Some implies a[i]
            != a[i + 1] by {
            assert(ts[i - gap] != ts[i - gap + 1]);
        }
    }
    if no_equal_neighbours(a) {
        assert forall|i: int| 0 <= i < ts.len() - 1 implies #[trigger] ts[i] != ts[i + 1] by {
            assert(a[i + gap] is Some);
            assert(a[i + gap] != a[i + gap + 1]);
        }
    }
}

/// A swipe to the right leaves no gap to the right of any tile.
pub proof fn lemma_slide_right_packed(l: Line)
    ensures
        packed_right(slide_right(l)),
{
    lemma_tiles_len(l);
    lemma_merge_pairs_len(tiles(l));
    lemma_aligned_is_packed(merge_pairs(tiles(l)), l.len());
}

/// A swipe to the right leaves a line as it is exactly when its tiles
/// already lie against the right edge and no two equal tiles are
/// neighbours.
pub proof fn lemma_slide_right_fixed(l: Line)
    ensures
        slide_right(l) == l <==> packed_right(l) && no_equal_neighbours(l),
{
    let ts = tiles(l);
    let n = l.len();
    lemma_tiles_len(l);
    lemma_merge_pairs_len(ts);
    lemma_merge_pairs_fixed_iff(ts);
    if packed_right(l) && no_equal_neighbours(l) {
        lemma_packed_is_aligned(l);
        lemma_aligned_neighbours(ts, n);
    }
    if slide_right(l) == l {
        lemma_slide_right_packed(l);
        lemma_tiles_of_aligned(merge_pairs(ts), n);
        lemma_aligned_neighbours(ts, n);
        lemma_packed_is_aligned(l);
    }
}

/// A second swipe to the right changes nothing exactly when the first one
/// left no two equal tiles side by side. It does change the line where
/// the first swipe made or uncovered such a pair: the tiles 2, 2, 4 slide
/// to 4, 4 and then to 8.
pub proof fn lemma_slide_right_twice(l: Line)
    ensures
        slide_right(slide_right(l)) == slide_right(l) <==> no_equal_neighbours(slide_right(l)),
{
    lemma_slide_right_packed(l);
    lemma_slide_right_fixed(slide_right(l));
}

/// A line with as many tiles as cells has no empty cell.
pub proof fn lemma_tiles_full(l: Line)
    requires
        tiles(l).len() == l.len(),
    ensures
        forall|i: int| 0 <= i < l.len() ==> (#[trigger] l[i]) is Some,
    decreases l.len(),
{
    if l.len() > 0 {
        let front = l.drop_last();
        lemma_tiles_len(front);
        lemma_tiles_full(front);
        assert forall|i: int| 0 <= i < l.len() implies (#[trigger] l[i]) is Some by {
            if i < l.len() - 1 {
                assert(front[i] is Some);
            }
        }
    }
}

/// A swipe to the right that leaves no cell empty has changed nothing:
/// a tile that moves leaves an empty cell behind, and so does a merge.
pub proof fn lemma_slide_right_full(l: Line)
    requires
        forall|i: int| 0 <= i < l.len() ==> (#[trigger] slide_right(l)[i]) is Some,
    ensures
        slide_right(l) == l,
{
    let ts = tiles(l);
    let merged = merge_pairs(ts);
    lemma_tiles_len(l);
    lemma_merge_pairs_len(ts);
    if l.len() > 0 {
        assert(slide_right(l)[0] is Some);
    }
    assert(merged.len() == l.len());
    lemma_merge_pairs_fixed_iff(ts);
    if !distinct_neighbours(ts) {
        lemma_merge_pairs_shrinks(ts);
    }
    lemma_tiles_full(l);
    assert(packed_right(l));
    lemma_packed_is_aligned(l);
}

} // verus!
