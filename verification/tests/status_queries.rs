use game_2048::board::{empty_board, Board};
use game_2048::status::{
    calculate_score, has_equal_neighbours, is_board_full, is_stuck, is_win_condition, WINNING_TILE,
};
use game_2048::swipe::{swipe_down, swipe_left, swipe_right, swipe_up};

fn checkerboard() -> Board {
    [
        [Some(2), Some(4), Some(2), Some(4)],
        [Some(4), Some(2), Some(4), Some(2)],
        [Some(2), Some(4), Some(2), Some(4)],
        [Some(4), Some(2), Some(4), Some(2)],
    ]
}

#[test]
fn empty_board_is_neither_full_nor_stuck() {
    assert!(!is_board_full(empty_board()));
    assert!(!is_stuck(empty_board()));
}

#[test]
fn empty_board_scores_nothing_and_does_not_win() {
    assert_eq!(calculate_score(empty_board()), 0);
    assert!(!is_win_condition(empty_board()));
}

#[test]
fn board_is_full_only_without_an_empty_cell() {
    assert!(is_board_full(checkerboard()));
    for r in 0..4 {
        for c in 0..4 {
            let mut board = checkerboard();
            board[r][c] = None;
            assert!(!is_board_full(board));
        }
    }
    let mut one = empty_board();
    one[1][2] = Some(2);
    assert!(!is_board_full(one));
}

#[test]
fn checkerboard_is_stuck() {
    let board = checkerboard();
    assert!(is_stuck(board));
    assert_eq!(swipe_up(board), board);
    assert_eq!(swipe_down(board), board);
    assert_eq!(swipe_left(board), board);
    assert_eq!(swipe_right(board), board);
}

#[test]
fn full_board_with_a_pair_in_a_row_is_not_stuck() {
    let mut board = checkerboard();
    board[2][1] = Some(2);
    board[2][0] = Some(8);
    board[1][1] = Some(16);
    board[3][1] = Some(32);
    assert!(is_board_full(board));
    assert!(has_equal_neighbours(board));
    assert!(!is_stuck(board));
    assert_ne!(swipe_right(board), board);
    assert_ne!(swipe_left(board), board);
    assert_eq!(swipe_up(board), board);
    assert_eq!(swipe_down(board), board);
}

#[test]
fn full_board_with_a_pair_in_a_column_is_not_stuck() {
    let board: Board = [
        [Some(2), Some(4), Some(8), Some(16)],
        [Some(32), Some(64), Some(128), Some(256)],
        [Some(2), Some(4), Some(8), Some(256)],
        [Some(32), Some(64), Some(128), Some(512)],
    ];
    assert!(has_equal_neighbours(board));
    assert!(!is_stuck(board));
    assert_eq!(swipe_right(board), board);
    assert_eq!(swipe_left(board), board);
    assert_ne!(swipe_up(board), board);
    assert_ne!(swipe_down(board), board);
}

#[test]
fn board_with_an_empty_cell_is_not_stuck() {
    let mut board = checkerboard();
    board[3][3] = None;
    assert!(!has_equal_neighbours(board));
    assert!(!is_stuck(board));
    assert_ne!(swipe_right(board), board);
}

#[test]
fn is_stuck_agrees_with_the_four_swipes_on_full_boards() {
    let boards: Vec<Board> = vec![
        checkerboard(),
        [[Some(2); 4]; 4],
        [
            [Some(2), Some(4), Some(2), Some(4)],
            [Some(4), Some(2), Some(4), Some(2)],
            [Some(2), Some(4), Some(2), Some(4)],
            [Some(4), Some(2), Some(4), Some(4)],
        ],
        [
            [Some(8), Some(4), Some(2), Some(4)],
            [Some(8), Some(2), Some(4), Some(2)],
            [Some(2), Some(4), Some(2), Some(4)],
            [Some(4), Some(2), Some(4), Some(2)],
        ],
    ];
    for board in boards {
        assert!(is_board_full(board));
        let unmoved = swipe_up(board) == board
            && swipe_down(board) == board
            && swipe_left(board) == board
            && swipe_right(board) == board;
        assert_eq!(is_stuck(board), unmoved);
    }
}

#[test]
fn is_stuck_needs_no_room_for_doubling() {
    let board: Board = [[Some(65535); 4]; 4];
    assert!(!is_stuck(board));
    let mut calm = checkerboard();
    calm[0][0] = Some(65535);
    assert!(is_stuck(calm));
}

#[test]
fn has_equal_neighbours_ignores_empty_cells() {
    assert!(!has_equal_neighbours(empty_board()));
    let mut board = empty_board();
    board[0][0] = Some(2);
    board[0][2] = Some(2);
    board[2][0] = Some(2);
    assert!(!has_equal_neighbours(board));
    board[0][1] = Some(2);
    assert!(has_equal_neighbours(board));
}

#[test]
fn has_equal_neighbours_sees_the_last_row_and_column() {
    let mut board = checkerboard();
    board[3][3] = Some(4);
    assert!(has_equal_neighbours(board));
    let mut other = checkerboard();
    other[0][3] = Some(2);
    assert!(has_equal_neighbours(other));
}

#[test]
fn win_needs_the_tile_2048() {
    assert_eq!(WINNING_TILE, 2048);
    let mut board = checkerboard();
    assert!(!is_win_condition(board));
    board[0][0] = Some(1024);
    assert!(!is_win_condition(board));
    board[0][0] = Some(4096);
    assert!(!is_win_condition(board));
    board[0][0] = Some(2047);
    assert!(!is_win_condition(board));
    board[0][0] = Some(2049);
    assert!(!is_win_condition(board));
}

#[test]
fn win_is_seen_in_every_cell() {
    for r in 0..4 {
        for c in 0..4 {
            let mut board = empty_board();
            board[r][c] = Some(2048);
            assert!(is_win_condition(board));
            let mut full = checkerboard();
            full[r][c] = Some(2048);
            assert!(is_win_condition(full));
        }
    }
}

#[test]
fn score_is_the_sum_of_the_tiles() {
    assert_eq!(calculate_score(checkerboard()), 48);
    let board: Board = [
        [Some(2), None, Some(4), Some(8)],
        [None, Some(16), None, Some(32)],
        [Some(64), Some(128), Some(256), None],
        [None, None, Some(512), Some(1024)],
    ];
    assert_eq!(calculate_score(board), 2046);
    let mut one = empty_board();
    one[3][0] = Some(2048);
    assert_eq!(calculate_score(one), 2048);
}

#[test]
fn score_does_not_overflow() {
    let board: Board = [[Some(65535); 4]; 4];
    assert_eq!(calculate_score(board), 16 * 65535);
}
