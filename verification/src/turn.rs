//! One turn of the game: what a request of the player does to the board.
//! Reading the request and showing the board are left to the caller,
//! which runs the turns one after the other.

use vstd::prelude::*;
use crate::board::{
    boards_equal,
    empty_board,
    empty_grid,
    full_grid,
    grid_fits,
    grid_of,
    is_grid,
    Board,
    Grid,
};
use crate::input::Action;
use crate::laws::{
    lemma_swiped_down_gap,
    lemma_swiped_left_gap,
    lemma_swiped_right_gap,
    lemma_swiped_up_gap,
};
use crate::swipe::{
    swipe_down,
    swipe_left,
    swipe_right,
    swipe_up,
    swiped_down,
    swiped_left,
    swiped_right,
    swiped_up,
};

verus! {

/// How a turn goes on after a request.
#[derive(Clone, Copy, Debug, PartialEq, Eq)]
pub enum Step {
    /// The player leaves the game.
    Quit,
    /// Nothing happened: the request was none, or a swipe that moves no
    /// tile. The player is asked again.
    Again,
    /// The turn is over, and the next one starts from this board.
    Next(Board),
}

/// The grid that a request moves the grid to: a swipe in its direction,
/// and for the other requests the grid itself.
pub open spec fn swiped_by(g: Grid, action: Action) -> Grid {
    match action {
        Action::Up => swiped_up(g),
        Action::Down => swiped_down(g),
        Action::Left => swiped_left(g),
        Action::Right => swiped_right(g),
        Action::Restart => g,
        Action::Quit => g,
    }
}

/// The grid that the next turn starts from, where the request ends the
/// turn: the empty grid after a restart, the swiped grid after a swipe
/// that moved a tile. No request, a swipe that moves nothing and the
/// request to quit start no next turn.
pub open spec fn next_grid(g: Grid, action: Option<Action>) -> Option<Grid> {
    match action {
        None => None,
        Some(Action::Quit) => None,
        Some(Action::Restart) => Some(empty_grid()),
        Some(direction) => if swiped_by(g, direction) == g {
            None
        } else {
            Some(swiped_by(g, direction))
        },
    }
}

/// The step after a swipe: the player is asked again where the swipe
/// changed nothing, and the turn is over where it did.
pub fn step_after(before: Board, after: Board) -> (step: Step)
    ensures
        step == if grid_of(after) == grid_of(before) {
            Step::Again
        } else {
            Step::Next(after)
        },
{
    if boards_equal(&before, &after) {
        Step::Again
    } else {
        Step::Next(after)
    }
}

/// Carries out a request of the player on the board.
///
/// For a swipe the board must be one whose outcome can be stored: no
/// merge may pass the largest value of a cell.
pub fn apply_action(board: Board, action: Option<Action>) -> (step: Step)
    requires
        action matches Some(a) ==> grid_fits(swiped_by(grid_of(board), a)),
    ensures
        step is Quit <==> action == Some(Action::Quit),
        step is Next <==> next_grid(grid_of(board), action) is Some,
        step matches Step::Next(b) ==> next_grid(grid_of(board), action) == Some(grid_of(b)),
{
    match action {
        None => Step::Again,
        Some(Action::Quit) => Step::Quit,
        Some(Action::Restart) => Step::Next(empty_board()),
        Some(Action::Up) => step_after(board, swipe_up(board)),
        Some(Action::Down) => step_after(board, swipe_down(board)),
        Some(Action::Left) => step_after(board, swipe_left(board)),
        Some(Action::Right) => step_after(board, swipe_right(board)),
    }
}

/// Returns the best score after a game that ended with `score`: the
/// larger of the two.
pub fn best_score(high_score: u32, score: u32) -> (best: u32)
    ensures
        best == if score > high_score {
            score
        } else {
            high_score
        },
{
    if score > high_score {
        score
    } else {
        high_score
    }
}

/// The board that a turn hands to the next one has an empty cell, so a
/// new tile can always be put on it.
pub proof fn lemma_next_grid_has_gap(g: Grid, action: Option<Action>)
    requires
        is_grid(g),
        next_grid(g, action) is Some,
    ensures
        !full_grid(next_grid(g, action)->0),
{
    match action {
        Some(Action::Up) => {
            lemma_swiped_up_gap(g);
        },
        Some(Action::Down) => {
            lemma_swiped_down_gap(g);
        },
        Some(Action::Left) => {
            lemma_swiped_left_gap(g);
        },
        Some(Action::Right) => {
            lemma_swiped_right_gap(g);
        },
        Some(Action::Restart) => {
            assert(empty_grid()[0][0] is None);
        },
        _ => {},
    }
}

} // verus!
