use game_2048::board::{empty_board, Board};
use game_2048::render::{
    can_render, digit_text, n_digits, push_blanks, push_decimal, render_board, render_cell,
    render_row, CELL_WIDTH, WIDEST_TILE,
};

#[test]
fn n_digits_counts_decimal_digits() {
    assert_eq!(n_digits(0), 0);
    assert_eq!(n_digits(1), 1);
    assert_eq!(n_digits(2), 1);
    assert_eq!(n_digits(9), 1);
    assert_eq!(n_digits(10), 2);
    assert_eq!(n_digits(99), 2);
    assert_eq!(n_digits(100), 3);
    assert_eq!(n_digits(512), 3);
    assert_eq!(n_digits(999), 3);
    assert_eq!(n_digits(1000), 4);
    assert_eq!(n_digits(2048), 4);
    assert_eq!(n_digits(9999), 4);
    assert_eq!(n_digits(10000), 5);
    assert_eq!(n_digits(65535), 5);
}

#[test]
fn digit_text_is_the_digit() {
    let all: Vec<&str> = (0..10).map(digit_text).collect();
    assert_eq!(all, vec!["0", "1", "2", "3", "4", "5", "6", "7", "8", "9"]);
}

#[test]
fn push_decimal_agrees_with_the_standard_numeral() {
    for n in [0u16, 1, 2, 4, 9, 10, 16, 99, 100, 128, 1024, 2048, 9999, 10000, 32768, 65535] {
        let mut text = String::from("x");
        push_decimal(&mut text, n);
        assert_eq!(text, format!("x{}", n));
    }
}

#[test]
fn push_blanks_appends_blanks() {
    let mut text = String::from("ab");
    push_blanks(&mut text, 0);
    assert_eq!(text, "ab");
    push_blanks(&mut text, 3);
    assert_eq!(text, "ab   ");
}

#[test]
fn render_cell_pads_to_four_characters() {
    assert_eq!(CELL_WIDTH, 4);
    assert_eq!(render_cell(None), "[      ] ");
    assert_eq!(render_cell(Some(2)), "[ 2    ] ");
    assert_eq!(render_cell(Some(16)), "[ 16   ] ");
    assert_eq!(render_cell(Some(128)), "[ 128  ] ");
    assert_eq!(render_cell(Some(2048)), "[ 2048 ] ");
    assert_eq!(render_cell(Some(9999)), "[ 9999 ] ");
}

#[test]
fn render_cell_has_a_fixed_width() {
    for cell in [None, Some(1), Some(2), Some(64), Some(512), Some(1024), Some(9999)] {
        assert_eq!(render_cell(cell).chars().count(), 9);
    }
}

#[test]
fn render_cell_of_zero_is_one_character_wider() {
    assert_eq!(render_cell(Some(0)), "[ 0     ] ");
}

#[test]
fn render_row_joins_its_cells() {
    assert_eq!(
        render_row([Some(2), None, Some(1024), Some(64)]),
        "[ 2    ] [      ] [ 1024 ] [ 64   ] "
    );
    assert_eq!(render_row([None; 4]), "[      ] [      ] [      ] [      ] ");
}

#[test]
fn render_board_gives_one_line_per_row() {
    let board: Board = [
        [Some(2), None, Some(4), Some(8)],
        [None, Some(16), None, Some(32)],
        [Some(64), Some(128), Some(256), None],
        [None, None, Some(512), Some(2048)],
    ];
    let lines = render_board(board);
    assert_eq!(
        lines,
        vec![
            "[ 2    ] [      ] [ 4    ] [ 8    ] ",
            "[      ] [ 16   ] [      ] [ 32   ] ",
            "[ 64   ] [ 128  ] [ 256  ] [      ] ",
            "[      ] [      ] [ 512  ] [ 2048 ] ",
        ]
    );
    let blank = render_board(empty_board());
    assert_eq!(blank.len(), 4);
    for line in blank {
        assert_eq!(line, "[      ] [      ] [      ] [      ] ");
    }
}

#[test]
fn can_render_wants_at_most_four_digits() {
    assert_eq!(WIDEST_TILE, 9999);
    let mut board = empty_board();
    assert!(can_render(board));
    board[0][0] = Some(9999);
    board[3][3] = Some(2048);
    assert!(can_render(board));
    board[2][1] = Some(10000);
    assert!(!can_render(board));
    board[2][1] = None;
    board[3][3] = Some(65535);
    assert!(!can_render(board));
}
