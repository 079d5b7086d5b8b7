use game_2048::board::{empty_board, Board, Row};
use game_2048::bounds::swipes_fit;
use game_2048::line::slide_row_right;
use game_2048::status::calculate_score;
use game_2048::swipe::{swipe_down, swipe_left, swipe_right, swipe_up};

fn in_first_row(row: Row) -> Board {
    let mut board = empty_board();
    board[0] = row;
    board
}

#[test]
fn two_equal_tiles_merge_at_the_right_edge() {
    assert_eq!(slide_row_right([Some(2), Some(2), None, None]), [None, None, None, Some(4)]);
    assert_eq!(
        swipe_right(in_first_row([Some(2), Some(2), None, None])),
        in_first_row([None, None, None, Some(4)])
    );
}

#[test]
fn a_pair_merges_behind_a_different_tile() {
    assert_eq!(slide_row_right([Some(2), None, Some(2), Some(4)]), [None, None, Some(4), Some(4)]);
    assert_eq!(
        swipe_right(in_first_row([Some(2), None, Some(2), Some(4)])),
        in_first_row([None, None, Some(4), Some(4)])
    );
}

#[test]
fn empty_row_stays_empty() {
    assert_eq!(slide_row_right([None; 4]), [None; 4]);
    assert_eq!(swipe_right(empty_board()), empty_board());
    assert_eq!(swipe_left(empty_board()), empty_board());
    assert_eq!(swipe_up(empty_board()), empty_board());
    assert_eq!(swipe_down(empty_board()), empty_board());
}

#[test]
fn a_single_tile_slides_to_the_right_edge() {
    assert_eq!(slide_row_right([Some(8), None, None, None]), [None, None, None, Some(8)]);
    assert_eq!(slide_row_right([None, Some(8), None, None]), [None, None, None, Some(8)]);
    assert_eq!(slide_row_right([None, None, Some(8), None]), [None, None, None, Some(8)]);
    assert_eq!(slide_row_right([None, None, None, Some(8)]), [None, None, None, Some(8)]);
}

#[test]
fn a_merged_tile_does_not_merge_again() {
    assert_eq!(slide_row_right([Some(2), Some(2), Some(4), None]), [None, None, Some(4), Some(4)]);
    assert_eq!(slide_row_right([Some(4), Some(2), Some(2), None]), [None, None, Some(4), Some(4)]);
    assert_eq!(slide_row_right([Some(2), Some(2), Some(2), Some(2)]), [None, None, Some(4), Some(4)]);
    assert_eq!(slide_row_right([Some(4), Some(4), Some(8), Some(8)]), [None, None, Some(8), Some(16)]);
}

#[test]
fn merging_starts_at_the_right_end() {
    assert_eq!(slide_row_right([Some(2), Some(2), Some(2), None]), [None, None, Some(2), Some(4)]);
    assert_eq!(slide_row_right([None, Some(2), Some(2), Some(2)]), [None, None, Some(2), Some(4)]);
    assert_eq!(slide_row_right([Some(2), None, Some(2), Some(2)]), [None, None, Some(2), Some(4)]);
}

#[test]
fn different_tiles_only_slide() {
    assert_eq!(slide_row_right([Some(2), Some(4), None, None]), [None, None, Some(2), Some(4)]);
    assert_eq!(slide_row_right([Some(2), None, Some(4), None]), [None, None, Some(2), Some(4)]);
    assert_eq!(slide_row_right([Some(2), Some(4), Some(2), Some(4)]), [Some(2), Some(4), Some(2), Some(4)]);
    assert_eq!(slide_row_right([Some(2), Some(4), Some(2), None]), [None, Some(2), Some(4), Some(2)]);
}

#[test]
fn no_tile_jumps_over_a_different_one() {
    assert_eq!(slide_row_right([Some(2), Some(4), None, Some(2)]), [None, Some(2), Some(4), Some(2)]);
    assert_eq!(slide_row_right([Some(4), None, Some(2), Some(4)]), [None, Some(4), Some(2), Some(4)]);
}

#[test]
fn equal_tiles_merge_across_empty_cells() {
    assert_eq!(slide_row_right([Some(16), None, None, Some(16)]), [None, None, None, Some(32)]);
    assert_eq!(slide_row_right([Some(1024), None, Some(1024), None]), [None, None, None, Some(2048)]);
}

#[test]
fn the_largest_tiles_that_can_merge_do() {
    assert_eq!(
        slide_row_right([Some(0x7fff), Some(0x7fff), None, None]),
        [None, None, None, Some(0xfffe)]
    );
    assert_eq!(
        slide_row_right([Some(16384), Some(16384), Some(32768), None]),
        [None, None, Some(32768), Some(32768)]
    );
    assert_eq!(
        slide_row_right([Some(65535), None, Some(40000), None]),
        [None, None, Some(65535), Some(40000)]
    );
}

#[test]
fn rows_slide_independently() {
    let board: Board = [
        [Some(2), Some(2), None, None],
        [Some(2), None, Some(2), Some(4)],
        [None, None, None, None],
        [Some(8), Some(4), Some(4), Some(8)],
    ];
    let expected: Board = [
        [None, None, None, Some(4)],
        [None, None, Some(4), Some(4)],
        [None, None, None, None],
        [None, Some(8), Some(8), Some(8)],
    ];
    assert_eq!(swipe_right(board), expected);
}

#[test]
fn swipe_left_mirrors_swipe_right() {
    let board: Board = [
        [Some(2), Some(2), None, None],
        [Some(2), None, Some(2), Some(4)],
        [None, None, None, Some(16)],
        [Some(2), Some(2), Some(2), None],
    ];
    let expected: Board = [
        [Some(4), None, None, None],
        [Some(4), Some(4), None, None],
        [Some(16), None, None, None],
        [Some(4), Some(2), None, None],
    ];
    assert_eq!(swipe_left(board), expected);
}

#[test]
fn swipe_down_slides_columns_to_the_bottom() {
    let board: Board = [
        [Some(2), Some(2), None, Some(2)],
        [Some(2), None, None, Some(2)],
        [None, Some(2), None, Some(2)],
        [None, Some(4), Some(16), None],
    ];
    let expected: Board = [
        [None, None, None, None],
        [None, None, None, None],
        [None, Some(4), None, Some(2)],
        [Some(4), Some(4), Some(16), Some(4)],
    ];
    assert_eq!(swipe_down(board), expected);
}

#[test]
fn swipe_up_slides_columns_to_the_top() {
    let board: Board = [
        [Some(2), Some(2), None, Some(2)],
        [Some(2), None, None, Some(2)],
        [None, Some(2), None, Some(2)],
        [None, Some(4), Some(16), None],
    ];
    let expected: Board = [
        [Some(4), Some(4), Some(16), Some(4)],
        [None, Some(4), None, Some(2)],
        [None, None, None, None],
        [None, None, None, None],
    ];
    assert_eq!(swipe_up(board), expected);
}

#[test]
fn swipes_leave_the_argument_alone() {
    let board: Board = [[Some(2), Some(2), None, None]; 4];
    let _ = swipe_right(board);
    let _ = swipe_left(board);
    let _ = swipe_up(board);
    let _ = swipe_down(board);
    assert_eq!(board, [[Some(2), Some(2), None, None]; 4]);
}

fn samples() -> Vec<Board> {
    vec![
        empty_board(),
        [[Some(2); 4]; 4],
        [
            [Some(2), Some(2), Some(4), None],
            [None, Some(8), Some(8), Some(16)],
            [Some(4), None, None, Some(4)],
            [Some(2), Some(4), Some(2), Some(4)],
        ],
        [
            [Some(1024), Some(1024), None, None],
            [Some(512), Some(512), Some(512), Some(512)],
            [None, None, None, Some(2)],
            [Some(2), None, None, None],
        ],
        [
            [Some(2), Some(4), Some(8), Some(16)],
            [Some(4), Some(8), Some(16), Some(32)],
            [Some(8), Some(16), Some(32), Some(64)],
            [Some(16), Some(32), Some(64), Some(128)],
        ],
    ]
}

#[test]
fn every_swipe_keeps_the_sum_of_the_tiles() {
    for board in samples() {
        assert!(swipes_fit(board));
        let sum = calculate_score(board);
        assert_eq!(calculate_score(swipe_right(board)), sum);
        assert_eq!(calculate_score(swipe_left(board)), sum);
        assert_eq!(calculate_score(swipe_up(board)), sum);
        assert_eq!(calculate_score(swipe_down(board)), sum);
    }
}

fn has_equal_pair_in_a_row(board: &Board) -> bool {
    board.iter().any(|row| (0..3).any(|c| row[c].is_some() && row[c] == row[c + 1]))
}

fn has_equal_pair_in_a_column(board: &Board) -> bool {
    (0..4).any(|c| (0..3).any(|r| board[r][c].is_some() && board[r][c] == board[r + 1][c]))
}

#[test]
fn a_second_swipe_changes_nothing_unless_the_first_left_a_pair() {
    for board in samples() {
        let right = swipe_right(board);
        assert_eq!(swipe_right(right) == right, !has_equal_pair_in_a_row(&right));
        let left = swipe_left(board);
        assert_eq!(swipe_left(left) == left, !has_equal_pair_in_a_row(&left));
        let up = swipe_up(board);
        assert_eq!(swipe_up(up) == up, !has_equal_pair_in_a_column(&up));
        let down = swipe_down(board);
        assert_eq!(swipe_down(down) == down, !has_equal_pair_in_a_column(&down));
    }
}

#[test]
fn a_second_swipe_merges_a_pair_that_the_first_made() {
    let once = slide_row_right([Some(2), Some(2), Some(4), None]);
    assert_eq!(once, [None, None, Some(4), Some(4)]);
    assert_eq!(slide_row_right(once), [None, None, None, Some(8)]);
}

#[test]
fn a_second_swipe_of_a_settled_row_is_a_no_op() {
    let once = slide_row_right([Some(2), Some(2), None, Some(8)]);
    assert_eq!(once, [None, None, Some(4), Some(8)]);
    assert_eq!(slide_row_right(once), once);
}

#[test]
fn swipes_fit_tells_when_tiles_can_double() {
    let mut board = empty_board();
    assert!(swipes_fit(board));
    board[2][1] = Some(0x7fff);
    assert!(swipes_fit(board));
    board[2][1] = Some(0x8000);
    assert!(!swipes_fit(board));
    board[2][1] = Some(2);
    board[3][3] = Some(65535);
    assert!(!swipes_fit(board));
}
