use game_2048::board::{empty_board, Board};
use game_2048::spawn::{first_empty_cell, place_tile, spawn_number, tile_for_draw, SPAWN_ATTEMPTS};
use game_2048::status::{calculate_score, is_board_full};

fn full_board() -> Board {
    [
        [Some(2), Some(4), Some(8), Some(16)],
        [Some(32), Some(64), Some(128), Some(256)],
        [Some(2), Some(4), Some(8), Some(16)],
        [Some(32), Some(64), Some(128), Some(256)],
    ]
}

#[test]
fn one_draw_in_ten_gives_a_four() {
    assert_eq!(tile_for_draw(0), 4);
    assert_eq!(tile_for_draw(10), 4);
    assert_eq!(tile_for_draw(12340), 4);
    for draw in 1..10 {
        assert_eq!(tile_for_draw(draw), 2);
        assert_eq!(tile_for_draw(draw + 1000), 2);
    }
    assert_eq!(tile_for_draw(usize::MAX), if usize::MAX % 10 == 0 { 4 } else { 2 });
}

#[test]
fn place_tile_fills_an_empty_cell() {
    let mut expected = empty_board();
    expected[1][2] = Some(2);
    assert_eq!(place_tile(empty_board(), 1, 2, 2), Some(expected));
    assert_eq!(place_tile(empty_board(), 5, 6, 2), Some(expected));
    assert_eq!(place_tile(empty_board(), 401, 1002, 2), Some(expected));
}

#[test]
fn place_tile_refuses_a_taken_cell() {
    let mut board = empty_board();
    board[3][0] = Some(8);
    assert_eq!(place_tile(board, 3, 0, 2), None);
    assert_eq!(place_tile(board, 7, 4, 4), None);
    let mut expected = board;
    expected[0][3] = Some(4);
    assert_eq!(place_tile(board, 0, 3, 4), Some(expected));
    for r in 0..4 {
        for c in 0..4 {
            assert_eq!(place_tile(full_board(), r, c, 2), None);
        }
    }
}

#[test]
fn first_empty_cell_reads_row_by_row() {
    assert_eq!(first_empty_cell(empty_board()), Some((0, 0)));
    assert_eq!(first_empty_cell(full_board()), None);
    let mut board = full_board();
    board[2][1] = None;
    board[3][0] = None;
    assert_eq!(first_empty_cell(board), Some((2, 1)));
    board[1][3] = None;
    assert_eq!(first_empty_cell(board), Some((1, 3)));
    let mut last = full_board();
    last[3][3] = None;
    assert_eq!(first_empty_cell(last), Some((3, 3)));
}

#[test]
fn spawn_fills_the_only_empty_cell() {
    for r in 0..4 {
        for c in 0..4 {
            let mut board = full_board();
            board[r][c] = None;
            let out = spawn_number(board);
            let value = out[r][c];
            assert!(value == Some(2) || value == Some(4));
            let mut restored = out;
            restored[r][c] = None;
            assert_eq!(restored, board);
            assert!(is_board_full(out));
        }
    }
}

#[test]
fn spawn_adds_exactly_one_tile_of_two_or_four() {
    for _ in 0..200 {
        let board = empty_board();
        let out = spawn_number(board);
        let tiles: Vec<u16> = out.iter().flatten().filter_map(|c| *c).collect();
        assert_eq!(tiles.len(), 1);
        assert!(tiles[0] == 2 || tiles[0] == 4);
    }
}

#[test]
fn spawn_keeps_the_tiles_that_are_there() {
    let mut board = empty_board();
    board[0][0] = Some(2);
    board[1][1] = Some(4);
    board[2][2] = Some(2048);
    for _ in 0..100 {
        let out = spawn_number(board);
        assert_eq!(out[0][0], Some(2));
        assert_eq!(out[1][1], Some(4));
        assert_eq!(out[2][2], Some(2048));
        assert_eq!(out.iter().flatten().filter(|c| c.is_some()).count(), 4);
        let gain = calculate_score(out) - calculate_score(board);
        assert!(gain == 2 || gain == 4);
    }
}

#[test]
fn spawn_fills_a_board_in_sixteen_turns() {
    let mut board = empty_board();
    for turn in 0..16 {
        assert!(!is_board_full(board));
        board = spawn_number(board);
        assert_eq!(board.iter().flatten().filter(|c| c.is_some()).count(), turn + 1);
    }
    assert!(is_board_full(board));
}

#[test]
fn spawn_draws_both_values_and_many_cells() {
    let mut twos = 0;
    let mut fours = 0;
    let mut seen = [[false; 4]; 4];
    for _ in 0..2000 {
        let out = spawn_number(empty_board());
        for r in 0..4 {
            for c in 0..4 {
                match out[r][c] {
                    Some(2) => {
                        twos += 1;
                        seen[r][c] = true;
                    }
                    Some(4) => {
                        fours += 1;
                        seen[r][c] = true;
                    }
                    Some(other) => panic!("a tile of value {}", other),
                    None => {}
                }
            }
        }
    }
    assert_eq!(twos + fours, 2000);
    assert!(twos > fours);
    assert!(fours > 0);
    assert!(seen.iter().flatten().all(|s| *s));
}

#[test]
fn spawn_attempts_are_bounded() {
    assert_eq!(SPAWN_ATTEMPTS, 1024);
}
