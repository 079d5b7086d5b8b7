//! Sliding one line of cells to the right: the model, and the row
//! operation that computes it.
//!
//! The model reads a line as the sequence of its tiles, merges equal
//! neighbours pairwise starting from the right end, and lays the outcome
//! against the right edge. The executable operation works in place on the
//! four cells of a row, destination by destination, and is proved to
//! compute exactly that.

use vstd::prelude::*;
use crate::board::{line_fits, line_of, line_sum, Line, Row, Tile};

verus! {

/// The tiles of a line, left to right, with the empty cells left out.
pub open spec fn tiles(l: Line) -> Seq<nat>
    decreases l.len(),
{
    if l.len() == 0 {
        Seq::empty()
    } else {
        match l.last() {
            Some(v) => tiles(l.drop_last()).push(v),
            None => tiles(l.drop_last()),
        }
    }
}

/// The tiles after a swipe to the right: starting at the right end, two
/// equal neighbours become one tile of twice the value, and a tile made
/// this way takes no part in a second merge.
pub open spec fn merge_pairs(ts: Seq<nat>) -> Seq<nat>
    decreases ts.len(),
{
    if ts.len() == 0 {
        Seq::empty()
    } else if ts.len() >= 2 && ts[ts.len() - 1] == ts[ts.len() - 2] {
        merge_pairs(ts.take(ts.len() - 2)).push(2 * ts.last())
    } else {
        merge_pairs(ts.drop_last()).push(ts.last())
    }
}

/// The line of `n` cells that holds the tiles `ts` against its right edge.
pub open spec fn align_right(ts: Seq<nat>, n: nat) -> Line
    recommends
        ts.len() <= n,
{
    Seq::new(
        n,
        |i: int|
            if i < n - ts.len() {
                None
            } else {
                Some(ts[i - (n - ts.len())])
            },
    )
}

/// The line after a swipe to the right.
pub open spec fn slide_right(l: Line) -> Line {
    align_right(merge_pairs(tiles(l)), l.len())
}

/// The tiles that one cell contributes: itself, or nothing.
pub open spec fn tile_seq(t: Tile) -> Seq<nat> {
    match t {
        Some(v) => seq![v],
        None => Seq::empty(),
    }
}

/// A line has no more tiles than cells.
pub proof fn lemma_tiles_len(l: Line)
    ensures
        tiles(l).len() <= l.len(),
    decreases l.len(),
{
    if l.len() > 0 {
        lemma_tiles_len(l.drop_last());
    }
}

/// Merging never adds a tile.
pub proof fn lemma_merge_pairs_len(ts: Seq<nat>)
    ensures
        merge_pairs(ts).len() <= ts.len(),
    decreases ts.len(),
{
    if ts.len() == 0 {
    } else if ts.len() >= 2 && ts[ts.len() - 1] == ts[ts.len() - 2] {
        lemma_merge_pairs_len(ts.take(ts.len() - 2));
    } else {
        lemma_merge_pairs_len(ts.drop_last());
    }
}

/// The tiles of the first `k + 1` cells are those of the first `k`,
/// followed by what cell `k` contributes.
pub proof fn lemma_tiles_take_next(l: Line, k: int)
    requires
        0 <= k < l.len(),
    ensures
        tiles(l.take(k + 1)) == tiles(l.take(k)) + tile_seq(l[k]),
{
    let p = l.take(k + 1);
    assert(p.drop_last() =~= l.take(k));
    assert(p.last() == l[k]);
    match l[k] {
        Some(v) => {
            assert(tiles(l.take(k)).push(v) =~= tiles(l.take(k)) + seq![v]);
        },
        None => {
            assert(tiles(l.take(k)) =~= tiles(l.take(k)) + Seq::<nat>::empty());
        },
    }
}

/// Empty cells between `i` and `j` contribute no tile.
pub proof fn lemma_tiles_take_gap(l: Line, i: int, j: int)
    requires
        0 <= i <= j <= l.len(),
        forall|k: int| i <= k < j ==> l[k] is None,
    ensures
        tiles(l.take(j)) == tiles(l.take(i)),
    decreases j - i,
{
    if i < j {
        lemma_tiles_take_gap(l, i, j - 1);
        lemma_tiles_take_next(l, j - 1);
        assert(tiles(l.take(j - 1)) + Seq::<nat>::empty() =~= tiles(l.take(j - 1)));
    }
}

/// Two equal tiles at the right end merge into one.
pub proof fn lemma_merge_equal_pair(ts: Seq<nat>, x: nat)
    ensures
        merge_pairs(ts.push(x).push(x)) == merge_pairs(ts).push(2 * x),
{
    let both = ts.push(x).push(x);
    assert(both.take(both.len() - 2) =~= ts);
}

/// A tile at the right end that differs from its neighbour stays as it is.
pub proof fn lemma_merge_blocked(ts: Seq<nat>, y: nat)
    requires
        ts.len() > 0 ==> ts.last() != y,
    ensures
        merge_pairs(ts.push(y)) == merge_pairs(ts).push(y),
{
    assert(ts.push(y).drop_last() =~= ts);
}

/// Laying one more tile against the right edge of a line one cell longer
/// appends that tile.
pub proof fn lemma_align_right_push(ts: Seq<nat>, v: nat, n: nat)
    requires
        ts.len() <= n,
    ensures
        align_right(ts.push(v), n + 1) == align_right(ts, n).push(Some(v)),
{
    assert(align_right(ts.push(v), n + 1) =~= align_right(ts, n).push(Some(v)));
}

/// A line without tiles stays without tiles when it grows by one empty cell.
pub proof fn lemma_align_right_none(n: nat)
    ensures
        align_right(Seq::<nat>::empty(), n + 1) == align_right(Seq::<nat>::empty(), n).push(
            None::<nat>,
        ),
{
    assert(align_right(Seq::<nat>::empty(), n + 1) =~= align_right(Seq::<nat>::empty(), n).push(
        None::<nat>,
    ));
}

/// The sum of a sequence of tile values.
pub open spec fn seq_sum(ts: Seq<nat>) -> nat
    decreases ts.len(),
{
    if ts.len() == 0 {
        0
    } else {
        seq_sum(ts.drop_last()) + ts.last()
    }
}

/// One more tile adds its value to the sum.
pub proof fn lemma_seq_sum_push(ts: Seq<nat>, v: nat)
    ensures
        seq_sum(ts.push(v)) == seq_sum(ts) + v,
{
    assert(ts.push(v).drop_last() =~= ts);
}

/// The sum of a line is the sum of its tiles.
pub proof fn lemma_line_sum_of_tiles(l: Line)
    ensures
        line_sum(l) == seq_sum(tiles(l)),
    decreases l.len(),
{
    if l.len() > 0 {
        lemma_line_sum_of_tiles(l.drop_last());
        match l.last() {
            Some(v) => {
                lemma_seq_sum_push(tiles(l.drop_last()), v);
            },
            None => {},
        }
    }
}

/// Merging keeps the sum: two tiles of value `v` become one of `2 * v`.
pub proof fn lemma_merge_pairs_sum(ts: Seq<nat>)
    ensures
        seq_sum(merge_pairs(ts)) == seq_sum(ts),
    decreases ts.len(),
{
    if ts.len() == 0 {
    } else if ts.len() >= 2 && ts[ts.len() - 1] == ts[ts.len() - 2] {
        let rest = ts.take(ts.len() - 2);
        lemma_merge_pairs_sum(rest);
        lemma_seq_sum_push(merge_pairs(rest), 2 * ts.last());
        let front = ts.drop_last();
        assert(front.drop_last() =~= rest);
        assert(seq_sum(front) == seq_sum(rest) + front.last());
        assert(seq_sum(ts) == seq_sum(front) + ts.last());
    } else {
        lemma_merge_pairs_sum(ts.drop_last());
        lemma_seq_sum_push(merge_pairs(ts.drop_last()), ts.last());
    }
}

/// Laying tiles against the right edge keeps their sum.
pub proof fn lemma_align_right_sum(ts: Seq<nat>, n: nat)
    requires
        ts.len() <= n,
    ensures
        line_sum(align_right(ts, n)) == seq_sum(ts),
    decreases n,
{
    if n > 0 {
        let a = align_right(ts, n);
        if ts.len() == 0 {
            assert(a.drop_last() =~= align_right(ts, (n - 1) as nat));
            lemma_align_right_sum(ts, (n - 1) as nat);
        } else {
            assert(a.drop_last() =~= align_right(ts.drop_last(), (n - 1) as nat));
            assert(a.last() == Some(ts.last()));
            lemma_align_right_sum(ts.drop_last(), (n - 1) as nat);
        }
    }
}

/// A slide keeps the sum of the line.
pub proof fn lemma_slide_right_sum(l: Line)
    ensures
        line_sum(slide_right(l)) == line_sum(l),
{
    lemma_tiles_len(l);
    lemma_merge_pairs_len(tiles(l));
    lemma_align_right_sum(merge_pairs(tiles(l)), l.len());
    lemma_merge_pairs_sum(tiles(l));
    lemma_line_sum_of_tiles(l);
}

/// Slides the tiles of one row to the right edge, merging equal neighbours.
///
/// Destinations are taken from the rightmost column down to the leftmost.
/// For each one the cells to its left are scanned from the nearest to the
/// farthest: a tile that meets an empty destination moves into it and the
/// scan goes on; a tile that meets an equal tile merges into it and ends
/// the scan; a tile that meets a different one ends the scan where it is.
///
/// The row must be one whose outcome can be stored: no merge may pass the
/// largest value of a cell.
pub fn slide_row_right(row: Row) -> (out: Row)
    requires
        line_fits(slide_right(line_of(row))),
    ensures
        line_of(out) == slide_right(line_of(row)),
{
    let ghost orig = line_of(row);
    let mut row = row;
    let mut col: usize = 4;
    proof {
        assert(orig.take(4) =~= orig);
        assert(slide_right(orig) + orig.skip(4) =~= slide_right(orig));
    }
    while col > 0
        invariant
            col <= 4,
            line_fits(slide_right(orig)),
            slide_right(orig) == slide_right(line_of(row).take(col as int)) + line_of(row).skip(
                col as int,
            ),
        decreases col,
    {
        let dest: usize = col - 1;
        let ghost start = line_of(row);
        let ghost target = slide_right(start.take(col as int));
        let mut scan: usize = dest;
        proof {
            lemma_tiles_take_next(start, dest as int);
            assert forall|i: int| 0 <= i < target.len() implies (#[trigger] target[i] matches Some(
                v,
            ) ==> v <= u16::MAX) by {
                assert(slide_right(orig)[i] == target[i]);
            }
        }
        loop
            invariant_except_break
                scan <= dest,
                forall|i: int| scan <= i < dest ==> line_of(row)[i] is None,
                tiles(start.take(col as int)) == tiles(line_of(row).take(scan as int)) + tile_seq(
                    line_of(row)[dest as int],
                ),
            invariant
                0 < col <= 4,
                dest == col - 1,
                start.len() == 4,
                target == slide_right(start.take(col as int)),
                line_fits(target),
                line_of(row).skip(col as int) == start.skip(col as int),
            ensures
                target == slide_right(line_of(row).take(dest as int)).push(
                    line_of(row)[dest as int],
                ),
            decreases scan,
        {
            let ghost cur = line_of(row);
            if scan == 0 {
                proof {
                    lemma_tiles_take_gap(cur, 0, dest as int);
                    assert(cur.take(0) =~= Seq::<Tile>::empty());
                    assert(tiles(cur.take(dest as int)) =~= Seq::<nat>::empty());
                    assert(tiles(start.take(col as int)) =~= tile_seq(cur[dest as int]));
                    match cur[dest as int] {
                        Some(y) => {
                            assert(tile_seq(cur[dest as int]) =~= Seq::<nat>::empty().push(y));
                            lemma_merge_blocked(Seq::<nat>::empty(), y);
                            lemma_align_right_push(Seq::<nat>::empty(), y, dest as nat);
                        },
                        None => {
                            lemma_align_right_none(dest as nat);
                        },
                    }
                }
                break ;
            }
            let src: usize = scan - 1;
            proof {
                lemma_tiles_take_next(cur, src as int);
            }
            match row[src] {
                Some(x) => {
                    let ghost left = tiles(cur.take(src as int));
                    match row[dest] {
                        Some(y) => {
                            proof {
                                lemma_tiles_len(cur.take(dest as int));
                                lemma_merge_pairs_len(tiles(cur.take(dest as int)));
                                assert(tiles(start.take(col as int)) =~= left.push(x as nat).push(
                                    y as nat,
                                ));
                            }
                            if x == y {
                                proof {
                                    lemma_merge_equal_pair(left, x as nat);
                                    lemma_tiles_len(cur.take(src as int));
                                    lemma_merge_pairs_len(left);
                                    lemma_align_right_push(
                                        merge_pairs(left),
                                        2 * (x as nat),
                                        dest as nat,
                                    );
                                    assert(target[dest as int] == Some(2 * (x as nat)));
                                }
                                row[dest] = Some(x + y);
                                row[src] = None;
                                proof {
                                    let now = line_of(row);
                                    assert(now =~= cur.update(
                                        dest as int,
                                        Some(2 * (x as nat)),
                                    ).update(src as int, None));
                                    assert(now.take(src as int) =~= cur.take(src as int));
                                    lemma_tiles_take_gap(now, src as int, dest as int);
                                    assert(now.skip(col as int) =~= cur.skip(col as int));
                                }
                            } else {
                                proof {
                                    lemma_tiles_take_gap(cur, scan as int, dest as int);
                                    assert(tiles(cur.take(dest as int)) =~= left.push(x as nat));
                                    lemma_merge_blocked(left.push(x as nat), y as nat);
                                    lemma_align_right_push(
                                        merge_pairs(left.push(x as nat)),
                                        y as nat,
                                        dest as nat,
                                    );
                                }
                            }
                            break ;
                        },
                        None => {
                            row[dest] = Some(x);
                            row[src] = None;
                            proof {
                                let now = line_of(row);
                                assert(now =~= cur.update(dest as int, Some(x as nat)).update(
                                    src as int,
                                    None,
                                ));
                                assert(now.take(src as int) =~= cur.take(src as int));
                                assert(now.skip(col as int) =~= cur.skip(col as int));
                                assert(tiles(start.take(col as int)) =~= left + seq![x as nat]);
                            }
                        },
                    }
                },
                None => {
                    proof {
                        assert(tiles(cur.take(src as int)) + Seq::<nat>::empty() =~= tiles(
                            cur.take(src as int),
                        ));
                    }
                },
            }
            scan = scan - 1;
        }
        proof {
            let now = line_of(row);
            assert(now.take(dest as int).push(now[dest as int]) =~= now.take(col as int));
            assert(slide_right(now.take(dest as int)).push(now[dest as int]) + now.skip(col as int)
                =~= slide_right(now.take(dest as int)) + now.skip(dest as int));
        }
        col = dest;
    }
    proof {
        let now = line_of(row);
        assert(now.take(0) =~= Seq::<Tile>::empty());
        assert(slide_right(now.take(0)) =~= Seq::<Tile>::empty());
        assert(slide_right(now.take(0)) + now.skip(0) =~= now);
    }
    row
}

} // verus!
