//! The text of a board: four lines, one per row, each cell in square
//! brackets and padded to a fixed width. Only the text is made here;
//! writing it to a screen is left to the caller.

use vstd::prelude::*;
use vstd::string::StringExecFns;
use crate::board::{Board, Cell, Row};

verus! {

/// The widest number of digits that a cell has room for.
pub const CELL_WIDTH: u16 = 4;

/// The largest tile value that a cell has room for.
pub const WIDEST_TILE: u16 = 9999;

/// The character of one decimal digit.
pub open spec fn digit_char(d: nat) -> char {
    if d == 0 {
        '0'
    } else if d == 1 {
        '1'
    } else if d == 2 {
        '2'
    } else if d == 3 {
        '3'
    } else if d == 4 {
        '4'
    } else if d == 5 {
        '5'
    } else if d == 6 {
        '6'
    } else if d == 7 {
        '7'
    } else if d == 8 {
        '8'
    } else {
        '9'
    }
}

/// The decimal numeral of `n`, without leading zeros; `0` for zero.
pub open spec fn decimal(n: nat) -> Seq<char>
    decreases n,
{
    if n < 10 {
        seq![digit_char(n)]
    } else {
        decimal(n / 10).push(digit_char(n % 10))
    }
}

/// How many times `n` can be divided by ten before it is zero: the number
/// of its decimal digits, and none for zero.
pub open spec fn digit_count(n: nat) -> nat
    decreases n,
{
    if n == 0 {
        0
    } else {
        1 + digit_count(n / 10)
    }
}

/// `k` blanks.
pub open spec fn blanks(k: nat) -> Seq<char> {
    Seq::new(k, |i: int| ' ')
}

/// What stands between the brackets of a cell: four blanks for an empty
/// cell; for a tile its numeral, then blanks up to four characters.
pub open spec fn cell_body(c: Cell) -> Seq<char> {
    match c {
        None => blanks(4),
        Some(x) => decimal(x as nat) + blanks((4 - digit_count(x as nat)) as nat),
    }
}

/// The text of one cell: an opening bracket and a blank, the body, a
/// blank, a closing bracket and a blank.
pub open spec fn cell_text(c: Cell) -> Seq<char> {
    seq!['[', ' '] + cell_body(c) + seq![' ', ']', ' ']
}

/// The text of one row: its four cells, left to right.
pub open spec fn row_text(row: Row) -> Seq<char> {
    cell_text(row@[0]) + cell_text(row@[1]) + cell_text(row@[2]) + cell_text(row@[3])
}

/// Every tile of the row has at most four digits.
pub open spec fn row_renders(row: Row) -> bool {
    forall|c: int| 0 <= c < 4 ==> ((#[trigger] row@[c]) matches Some(x) ==> x <= WIDEST_TILE)
}

/// Every tile of the board has at most four digits.
pub open spec fn board_renders(board: Board) -> bool {
    forall|r: int| 0 <= r < 4 ==> row_renders(#[trigger] board@[r])
}

/// A number has as many digits as its numeral has characters, except
/// zero, whose numeral is one character and which counts no digit.
pub proof fn lemma_decimal_len(n: nat)
    ensures
        decimal(n).len() == if n == 0 {
            1
        } else {
            digit_count(n)
        },
    decreases n,
{
    if n >= 10 {
        lemma_decimal_len(n / 10);
    } else if n > 0 {
        assert(digit_count(n / 10) == 0);
    }
}

/// A number below ten thousand has at most four digits.
pub proof fn lemma_digit_count_small(n: nat)
    requires
        n <= 9999,
    ensures
        digit_count(n) <= 4,
{
    reveal_with_fuel(digit_count, 5);
}

/// A number that fits in a cell of the board has at most five digits.
pub proof fn lemma_digit_count_bounded(n: nat)
    requires
        n <= u16::MAX,
    ensures
        digit_count(n) <= 5,
{
    reveal_with_fuel(digit_count, 6);
}

/// Every cell takes the same room: nine characters, whether it is empty
/// or holds a tile of one to four digits.
pub proof fn lemma_cell_text_width(c: Cell)
    requires
        c matches Some(x) ==> 0 < x <= WIDEST_TILE,
    ensures
        cell_text(c).len() == 9,
{
    match c {
        Some(x) => {
            lemma_decimal_len(x as nat);
            lemma_digit_count_small(x as nat);
        },
        None => {},
    }
}

/// Returns the number of decimal digits of `number`; zero has none.
pub fn n_digits(number: u16) -> (count: u16)
    ensures
        count == digit_count(number as nat),
{
    let mut count: u16 = 0;
    let mut num: u16 = number;
    proof {
        lemma_digit_count_bounded(number as nat);
    }
    while num != 0
        invariant
            count + digit_count(num as nat) == digit_count(number as nat),
            count + digit_count(num as nat) <= 5,
        decreases num,
    {
        num = num / 10;
        count += 1;
    }
    count
}

/// Returns the text of one decimal digit.
pub fn digit_text(d: u16) -> (text: &'static str)
    requires
        d < 10,
    ensures
        text@ == seq![digit_char(d as nat)],
{
    proof {
        reveal_strlit("0");
        reveal_strlit("1");
        reveal_strlit("2");
        reveal_strlit("3");
        reveal_strlit("4");
        reveal_strlit("5");
        reveal_strlit("6");
        reveal_strlit("7");
        reveal_strlit("8");
        reveal_strlit("9");
    }
    let text = if d == 0 {
        "0"
    } else if d == 1 {
        "1"
    } else if d == 2 {
        "2"
    } else if d == 3 {
        "3"
    } else if d == 4 {
        "4"
    } else if d == 5 {
        "5"
    } else if d == 6 {
        "6"
    } else if d == 7 {
        "7"
    } else if d == 8 {
        "8"
    } else {
        "9"
    };
    assert(text@ =~= seq![digit_char(d as nat)]);
    text
}

/// Appends the decimal numeral of `n` to `text`.
pub fn push_decimal(text: &mut String, n: u16)
    ensures
        final(text)@ == old(text)@ + decimal(n as nat),
    decreases n,
{
    if n >= 10 {
        push_decimal(text, n / 10);
    }
    text.append(digit_text(n % 10));
    proof {
        if n >= 10 {
            assert(old(text)@ + decimal((n / 10) as nat) + seq![digit_char((n % 10) as nat)]
                =~= old(text)@ + decimal(n as nat));
        }
    }
}

/// Appends `k` blanks to `text`.
pub fn push_blanks(text: &mut String, k: u16)
    ensures
        final(text)@ == old(text)@ + blanks(k as nat),
{
    let mut done: u16 = 0;
    proof {
        assert(text@ + blanks(0) =~= text@);
    }
    while done < k
        invariant
            done <= k,
            text@ == old(text)@ + blanks(done as nat),
        decreases k - done,
    {
        proof {
            reveal_strlit(" ");
        }
        text.append(" ");
        done += 1;
        proof {
            assert(old(text)@ + blanks((done - 1) as nat) + " "@ =~= old(text)@ + blanks(
                done as nat,
            ));
        }
    }
}

/// Returns the text of one cell. A tile must have at most four digits.
pub fn render_cell(cell: Cell) -> (text: String)
    requires
        cell matches Some(x) ==> x <= WIDEST_TILE,
    ensures
        text@ == cell_text(cell),
{
    let mut text = String::new();
    proof {
        reveal_strlit("[ ");
        reveal_strlit(" ] ");
    }
    text.append("[ ");
    match cell {
        None => {
            push_blanks(&mut text, CELL_WIDTH);
        },
        Some(x) => {
            push_decimal(&mut text, x);
            proof {
                lemma_digit_count_small(x as nat);
            }
            push_blanks(&mut text, CELL_WIDTH - n_digits(x));
        },
    }
    text.append(" ] ");
    proof {
        assert("[ "@ =~= seq!['[', ' ']);
        assert(" ] "@ =~= seq![' ', ']', ' ']);
        assert(text@ =~= cell_text(cell));
    }
    text
}

/// Returns the text of one row: its cells one after the other. Every tile
/// must have at most four digits.
pub fn render_row(row: Row) -> (text: String)
    requires
        row_renders(row),
    ensures
        text@ == row_text(row),
{
    let mut text = String::new();
    let first = render_cell(row[0]);
    text.append(first.as_str());
    let second = render_cell(row[1]);
    text.append(second.as_str());
    let third = render_cell(row[2]);
    text.append(third.as_str());
    let fourth = render_cell(row[3]);
    text.append(fourth.as_str());
    proof {
        assert(text@ =~= row_text(row));
    }
    text
}

/// Returns the text of the board, one line per row, top row first. Every
/// tile must have at most four digits.
pub fn render_board(board: Board) -> (lines: Vec<String>)
    requires
        board_renders(board),
    ensures
        lines.len() == 4,
        forall|r: int| 0 <= r < 4 ==> (#[trigger] lines[r])@ == row_text(board@[r]),
{
    let mut lines: Vec<String> = Vec::new();
    let mut row: usize = 0;
    while row < 4
        invariant
            row <= 4,
            board_renders(board),
            lines.len() == row,
            forall|r: int| 0 <= r < row ==> (#[trigger] lines[r])@ == row_text(board@[r]),
        decreases 4 - row,
    {
        let text = render_row(board[row]);
        lines.push(text);
        row += 1;
    }
    lines
}

/// Tells whether every tile of the board has at most four digits, so that
/// the board can be rendered.
pub fn can_render(board: Board) -> (ok: bool)
    ensures
        ok <==> board_renders(board),
{
    let mut r: usize = 0;
    while r < 4
        invariant
            r <= 4,
            forall|i: int| 0 <= i < r ==> row_renders(#[trigger] board@[i]),
        decreases 4 - r,
    {
        let mut c: usize = 0;
        while c < 4
            invariant
                r < 4,
                c <= 4,
                forall|i: int| 0 <= i < r ==> row_renders(#[trigger] board@[i]),
                forall|j: int|
                    0 <= j < c ==> ((#[trigger] board@[r as int]@[j]) matches Some(x) ==> x
                        <= WIDEST_TILE),
            decreases 4 - c,
        {
            match board[r][c] {
                Some(x) => {
                    if x > WIDEST_TILE {
                        assert(!row_renders(board@[r as int]));
                        return false;
                    }
                },
                None => {},
            }
            c += 1;
        }
        r += 1;
    }
    true
}

} // verus!
