//! What the player can ask for, and how a line typed at the keyboard is
//! read as such a request.

use vstd::prelude::*;
use vstd::string::StrSliceExecFns;

verus! {

/// A request of the player.
#[derive(Clone, Copy, Debug, PartialEq, Eq, Structural)]
pub enum Action {
    /// Swipe the board up.
    Up,
    /// Swipe the board down.
    Down,
    /// Swipe the board to the left.
    Left,
    /// Swipe the board to the right.
    Right,
    /// Start again from the empty board.
    Restart,
    /// Leave the game.
    Quit,
}

/// The request that a character stands for, if it stands for one: `w`,
/// `s`, `a` and `d` swipe up, down, left and right, `r` restarts and `q`
/// quits. Every other character stands for nothing.
pub open spec fn action_of(character: char) -> Option<Action> {
    if character == 'w' {
        Some(Action::Up)
    } else if character == 's' {
        Some(Action::Down)
    } else if character == 'a' {
        Some(Action::Left)
    } else if character == 'd' {
        Some(Action::Right)
    } else if character == 'q' {
        Some(Action::Quit)
    } else if character == 'r' {
        Some(Action::Restart)
    } else {
        None
    }
}

/// The character of a typed line that counts: its first one. A line
/// shorter than two characters, which is an empty line with or without
/// its line end, counts as a blank.
pub open spec fn key_of(line: Seq<char>) -> char {
    if line.len() < 2 {
        ' '
    } else {
        line[0]
    }
}

/// Returns the request that a character stands for, or nothing for a
/// character that stands for none.
pub fn get_user_action(character: char) -> (action: Option<Action>)
    ensures
        action == action_of(character),
{
    if character == 'w' {
        Some(Action::Up)
    } else if character == 's' {
        Some(Action::Down)
    } else if character == 'a' {
        Some(Action::Left)
    } else if character == 'd' {
        Some(Action::Right)
    } else if character == 'q' {
        Some(Action::Quit)
    } else if character == 'r' {
        Some(Action::Restart)
    } else {
        None
    }
}

/// Returns the character of a typed line that counts, given the line as
/// it was read, line end included.
pub fn key_of_line(line: &str) -> (key: char)
    ensures
        key == key_of(line@),
{
    if line.unicode_len() < 2 {
        ' '
    } else {
        line.get_char(0)
    }
}

/// A blank, a line end and every character but the six keys ask for
/// nothing, and so does an empty line.
pub proof fn lemma_other_keys_ignored(character: char)
    requires
        character != 'w',
        character != 's',
        character != 'a',
        character != 'd',
        character != 'q',
        character != 'r',
    ensures
        action_of(character) is None,
        action_of(key_of(Seq::empty())) is None,
{
}

} // verus!
