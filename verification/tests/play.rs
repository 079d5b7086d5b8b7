use game_2048::board::{empty_board, Board};
use game_2048::bounds::swipes_fit;
use game_2048::input::Action;
use game_2048::spawn::spawn_number;
use game_2048::status::{calculate_score, is_board_full, is_stuck, is_win_condition};
use game_2048::turn::{apply_action, Step};

fn all_tiles_are_powers_of_two(board: &Board) -> bool {
    board.iter().flatten().all(|cell| match cell {
        Some(v) => *v >= 2 && v.is_power_of_two(),
        None => true,
    })
}

#[test]
fn play_keeps_tiles_powers_of_two() {
    let order = [Action::Left, Action::Down, Action::Right, Action::Up];
    let mut board = empty_board();
    let mut turn = 0;
    for _ in 0..400 {
        assert!(!is_board_full(board));
        let before = calculate_score(board);
        board = spawn_number(board);
        let gain = calculate_score(board) - before;
        assert!(gain == 2 || gain == 4);
        assert!(all_tiles_are_powers_of_two(&board));
        if is_stuck(board) || is_win_condition(board) {
            break;
        }
        let mut moved = false;
        for k in 0..4 {
            assert!(swipes_fit(board));
            match apply_action(board, Some(order[(turn + k) % 4])) {
                Step::Next(next) => {
                    assert_eq!(calculate_score(next), calculate_score(board));
                    board = next;
                    moved = true;
                    break;
                }
                Step::Again => {}
                Step::Quit => panic!("no request to quit was made"),
            }
        }
        assert!(moved);
        turn += 1;
    }
    assert!(all_tiles_are_powers_of_two(&board));
}

#[test]
fn a_board_with_a_gap_and_a_tile_can_be_moved() {
    let actions = [Action::Up, Action::Down, Action::Left, Action::Right];
    for r in 0..4 {
        for c in 0..4 {
            let mut one = empty_board();
            one[r][c] = Some(2);
            assert!(actions.iter().any(|a| apply_action(one, Some(*a)) != Step::Again));
            let mut gap: Board = [
                [Some(2), Some(4), Some(2), Some(4)],
                [Some(4), Some(2), Some(4), Some(2)],
                [Some(2), Some(4), Some(2), Some(4)],
                [Some(4), Some(2), Some(4), Some(2)],
            ];
            gap[r][c] = None;
            assert!(actions.iter().any(|a| apply_action(gap, Some(*a)) != Step::Again));
        }
    }
}
