//! The two notations of a board, as functions between texts and sequences of
//! squares.
//!
//! A board is written as its 8 rows, row 0 first, with `/` between them. Both
//! notations write a piece as the letter of its kind, lower case for White and
//! upper case for Black. They differ in the empty squares:
//! [`Notation::Placeholder`] writes `_` for each, [`Notation::Counted`] writes
//! the length of each longest run of them as a digit.

use vstd::prelude::*;
use crate::error::FenError;
use crate::piece::{PieceColor, PieceType, Square};
use crate::text::{join, split};

verus! {

/// How empty squares are written.
#[derive(Clone, Copy, Debug, PartialEq, Eq, Structural)]
pub enum Notation {
    /// One `_` for each empty square.
    Placeholder,
    /// One digit, `1` to `8`, for a run of that many empty squares.
    Counted,
}

/// A board as a mathematical value: its rows from first to last, each row its
/// squares from left to right.
pub type Board = Seq<Seq<Square>>;

/// The number of rows of a board, and of squares in a row.
pub const SIZE: usize = 8;

/// The character between two rows.
pub const SEPARATOR: char = '/';

/// `count` squares, each equal to `square`.
pub open spec fn run_of(square: Square, count: nat) -> Seq<Square> {
    Seq::new(count, |i: int| square)
}

/// Whether every square of the sequence is well formed.
pub open spec fn all_wf(squares: Seq<Square>) -> bool {
    forall|file: int| 0 <= file < squares.len() ==> (#[trigger] squares[file]).wf()
}

/// A row is 8 well-formed squares.
pub open spec fn row_wf(squares: Seq<Square>) -> bool {
    squares.len() == SIZE && all_wf(squares)
}

/// A board is 8 rows.
pub open spec fn board_wf(board: Board) -> bool {
    &&& board.len() == SIZE
    &&& forall|rank: int| 0 <= rank < board.len() ==> row_wf(#[trigger] board[rank])
}

/// A row of 8 pawns of one color.
pub open spec fn pawn_row(color: PieceColor) -> Seq<Square> {
    run_of(Square { kind: PieceType::Pawn, color }, SIZE as nat)
}

/// The row on which the pieces of one color stand when a game begins: rook,
/// knight, bishop, queen, king, bishop, knight, rook.
pub open spec fn back_row(color: PieceColor) -> Seq<Square> {
    seq![
        Square { kind: PieceType::Rook, color },
        Square { kind: PieceType::Knight, color },
        Square { kind: PieceType::Bishop, color },
        Square { kind: PieceType::Queen, color },
        Square { kind: PieceType::King, color },
        Square { kind: PieceType::Bishop, color },
        Square { kind: PieceType::Knight, color },
        Square { kind: PieceType::Rook, color },
    ]
}

/// The board without pieces.
pub open spec fn empty_board() -> Board {
    Seq::new(SIZE as nat, |rank: int| run_of(Square::empty(), SIZE as nat))
}

/// The board on which a game begins: White on the first two rows, Black on
/// the last two, and nothing between them.
pub open spec fn starting_position() -> Board {
    seq![
        back_row(PieceColor::White),
        pawn_row(PieceColor::White),
        run_of(Square::empty(), SIZE as nat),
        run_of(Square::empty(), SIZE as nat),
        run_of(Square::empty(), SIZE as nat),
        run_of(Square::empty(), SIZE as nat),
        pawn_row(PieceColor::Black),
        back_row(PieceColor::Black),
    ]
}

/// The number that a digit from `1` to `8` stands for.
pub open spec fn count_of_digit(digit: char) -> Option<nat> {
    if digit == '1' {
        Some(1)
    } else if digit == '2' {
        Some(2)
    } else if digit == '3' {
        Some(3)
    } else if digit == '4' {
        Some(4)
    } else if digit == '5' {
        Some(5)
    } else if digit == '6' {
        Some(6)
    } else if digit == '7' {
        Some(7)
    } else if digit == '8' {
        Some(8)
    } else {
        None
    }
}

/// The digit for a number from 1 to 8.
pub open spec fn digit_of_count(count: nat) -> char
    recommends
        1 <= count <= 8,
{
    if count == 1 {
        '1'
    } else if count == 2 {
        '2'
    } else if count == 3 {
        '3'
    } else if count == 4 {
        '4'
    } else if count == 5 {
        '5'
    } else if count == 6 {
        '6'
    } else if count == 7 {
        '7'
    } else {
        '8'
    }
}

/// The square that one symbol describes, and how many of them in a row;
/// `None` for a character that is no symbol of the notation.
pub open spec fn symbol_run(notation: Notation, symbol: char) -> Option<(Square, nat)> {
    match notation {
        Notation::Placeholder => match Square::of_symbol(symbol) {
            Some(square) => Some((square, 1nat)),
            None => None,
        },
        Notation::Counted => match count_of_digit(symbol) {
            Some(count) => Some((Square::empty(), count)),
            None => match Square::of_symbol(symbol) {
                Some(square) if square.kind != PieceType::Empty => Some((square, 1nat)),
                _ => None,
            },
        },
    }
}

/// The squares that a row's text describes, from left to right. A character
/// that is no symbol describes none.
pub open spec fn row_squares(notation: Notation, text: Seq<char>) -> Seq<Square>
    decreases text.len(),
{
    if text.len() == 0 {
        Seq::empty()
    } else {
        row_squares(notation, text.drop_last()) + match symbol_run(notation, text.last()) {
            Some((square, count)) => run_of(square, count),
            None => Seq::empty(),
        }
    }
}

/// The place of the leftmost character of `text` that is no symbol of the
/// notation.
pub open spec fn first_unknown(notation: Notation, text: Seq<char>) -> Option<int>
    decreases text.len(),
{
    if text.len() == 0 {
        None
    } else {
        match first_unknown(notation, text.drop_last()) {
            Some(column) => Some(column),
            None => if symbol_run(notation, text.last()) is None {
                Some(text.len() - 1)
            } else {
                None
            },
        }
    }
}

/// Whether every character of `text` is a symbol of the notation.
pub open spec fn all_known(notation: Notation, text: Seq<char>) -> bool {
    forall|column: int|
        0 <= column < text.len() ==> symbol_run(notation, #[trigger] text[column]) is Some
}

/// The leftmost unknown character is unknown, and every character before it is
/// a symbol; there is none exactly if every character is a symbol.
pub proof fn lemma_first_unknown(notation: Notation, text: Seq<char>)
    ensures
        match first_unknown(notation, text) {
            Some(column) => {
                &&& 0 <= column < text.len()
                &&& symbol_run(notation, text[column]) is None
                &&& all_known(notation, text.take(column))
            },
            None => all_known(notation, text),
        },
    decreases text.len(),
{
    if text.len() > 0 {
        lemma_first_unknown(notation, text.drop_last());
        match first_unknown(notation, text.drop_last()) {
            Some(column) => {
                assert(text.drop_last().take(column) == text.take(column));
            },
            None => {
                assert(text.take(text.len() - 1) == text.drop_last());
                assert forall|column: int| 0 <= column < text.len() - 1 implies symbol_run(
                    notation,
                    #[trigger] text[column],
                ) is Some by {
                    assert(text[column] == text.drop_last()[column]);
                }
            },
        }
    }
}

/// An unknown character with only symbols before it is the leftmost unknown
/// character.
pub proof fn lemma_first_unknown_at(notation: Notation, text: Seq<char>, column: int)
    requires
        0 <= column < text.len(),
        symbol_run(notation, text[column]) is None,
        all_known(notation, text.take(column)),
    ensures
        first_unknown(notation, text) == Some(column),
{
    lemma_first_unknown(notation, text);
    match first_unknown(notation, text) {
        Some(found) => {
            if found < column {
                assert(text.take(column)[found] == text[found]);
            } else if column < found {
                assert(text.take(found)[column] == text[column]);
            }
        },
        None => {},
    }
}

/// What is wrong with the text of row `row`: its leftmost unknown character,
/// or else, that it does not describe 8 squares.
pub open spec fn row_fault(notation: Notation, text: Seq<char>, row: int) -> Option<FenError> {
    match first_unknown(notation, text) {
        Some(column) => Some(
            FenError::UnknownSymbol {
                row: row as usize,
                column: column as usize,
                symbol: text[column],
            },
        ),
        None => if row_squares(notation, text).len() != SIZE {
            Some(FenError::RowLength { row: row as usize })
        } else {
            None
        },
    }
}

/// The fault of the first row that has one.
pub open spec fn first_fault(notation: Notation, rows: Seq<Seq<char>>) -> Option<FenError>
    decreases rows.len(),
{
    if rows.len() == 0 {
        None
    } else {
        match first_fault(notation, rows.drop_last()) {
            Some(fault) => Some(fault),
            None => row_fault(notation, rows.last(), rows.len() - 1),
        }
    }
}

/// Whether no row has a fault.
pub open spec fn faultless(notation: Notation, rows: Seq<Seq<char>>) -> bool {
    forall|row: int|
        0 <= row < rows.len() ==> row_fault(notation, #[trigger] rows[row], row) is None
}

/// There is a first fault exactly if some row has a fault.
pub proof fn lemma_first_fault_none(notation: Notation, rows: Seq<Seq<char>>)
    ensures
        first_fault(notation, rows) is None <==> faultless(notation, rows),
    decreases rows.len(),
{
    if rows.len() > 0 {
        let shorter = rows.drop_last();
        lemma_first_fault_none(notation, shorter);
        if faultless(notation, rows) {
            assert forall|row: int| 0 <= row < shorter.len() implies row_fault(
                notation,
                #[trigger] shorter[row],
                row,
            ) is None by {
                assert(shorter[row] == rows[row]);
            }
            assert(rows.last() == rows[rows.len() - 1]);
        }
        if first_fault(notation, rows) is None {
            assert forall|row: int| 0 <= row < rows.len() implies row_fault(
                notation,
                #[trigger] rows[row],
                row,
            ) is None by {
                if row < shorter.len() {
                    assert(shorter[row] == rows[row]);
                }
            }
        }
    }
}

/// The fault of a row before which no row has one is the first fault.
pub proof fn lemma_first_fault_at(notation: Notation, rows: Seq<Seq<char>>, row: int)
    requires
        0 <= row < rows.len(),
        row_fault(notation, rows[row], row) is Some,
        faultless(notation, rows.take(row)),
    ensures
        first_fault(notation, rows) == row_fault(notation, rows[row], row),
    decreases rows.len(),
{
    let shorter = rows.drop_last();
    if row == rows.len() - 1 {
        assert(rows.take(row) == shorter);
        lemma_first_fault_none(notation, shorter);
    } else {
        assert(shorter.take(row) == rows.take(row));
        lemma_first_fault_at(notation, shorter, row);
    }
}

/// The board that `text` describes, or the first fault in it: a wrong number
/// of rows before anything else, then the rows from first to last.
pub open spec fn parse(notation: Notation, text: Seq<char>) -> Result<Board, FenError> {
    let rows = split(text, SEPARATOR);
    if rows.len() != SIZE {
        Err(FenError::RowCount { found: rows.len() as usize })
    } else {
        match first_fault(notation, rows) {
            Some(fault) => Err(fault),
            None => Ok(rows.map_values(|row: Seq<char>| row_squares(notation, row))),
        }
    }
}

/// The number of empty squares with which `squares` begins.
pub open spec fn leading_empties(squares: Seq<Square>) -> nat
    decreases squares.len(),
{
    if squares.len() > 0 && squares[0].kind == PieceType::Empty {
        1 + leading_empties(squares.skip(1))
    } else {
        0
    }
}

/// The squares with which a row begins, as many as `leading_empties` says, are
/// empty, and the square after them, where there is one, is occupied.
pub proof fn lemma_leading_empties(squares: Seq<Square>)
    ensures
        leading_empties(squares) <= squares.len(),
        forall|file: int|
            0 <= file < leading_empties(squares) ==> (#[trigger] squares[file]).kind
                == PieceType::Empty,
        leading_empties(squares) < squares.len() ==> squares[leading_empties(squares) as int].kind
            != PieceType::Empty,
    decreases squares.len(),
{
    if squares.len() > 0 && squares[0].kind == PieceType::Empty {
        let rest = squares.skip(1);
        lemma_leading_empties(rest);
        assert forall|file: int| 0 <= file < leading_empties(squares) implies (
        #[trigger] squares[file]).kind == PieceType::Empty by {
            if file > 0 {
                assert(rest[file - 1] == squares[file]);
            }
        }
        if leading_empties(squares) < squares.len() {
            assert(rest[leading_empties(rest) as int] == squares[leading_empties(squares) as int]);
        }
    }
}

/// A row that has `count` empty squares and then ends, or goes on with an
/// occupied square, begins with exactly `count` empty squares.
pub proof fn lemma_leading_empties_run(squares: Seq<Square>, count: nat)
    requires
        count <= squares.len(),
        forall|file: int| 0 <= file < count ==> (#[trigger] squares[file]).kind == PieceType::Empty,
        count < squares.len() ==> squares[count as int].kind != PieceType::Empty,
    ensures
        leading_empties(squares) == count,
    decreases count,
{
    if count > 0 {
        let rest = squares.skip(1);
        assert forall|file: int| 0 <= file < count - 1 implies (#[trigger] rest[file]).kind
            == PieceType::Empty by {
            assert(rest[file] == squares[file + 1]);
        }
        lemma_leading_empties_run(rest, (count - 1) as nat);
    }
}

/// The text of a row. An occupied square is written as its symbol. An empty
/// square is written as `_` in the placeholder notation; in the counted
/// notation each longest run of empty squares is written as its length.
pub open spec fn row_text(notation: Notation, squares: Seq<Square>) -> Seq<char>
    decreases squares.len(),
{
    if squares.len() == 0 {
        Seq::empty()
    } else if notation == Notation::Counted && squares[0].kind == PieceType::Empty {
        let run = leading_empties(squares);
        proof {
            lemma_leading_empties(squares);
        }
        seq![digit_of_count(run)] + row_text(notation, squares.skip(run as int))
    } else {
        seq![squares[0].symbol()] + row_text(notation, squares.skip(1))
    }
}

/// The text of a board: the texts of its rows, with `/` between them.
pub open spec fn board_text(notation: Notation, board: Board) -> Seq<char> {
    join(board.map_values(|row: Seq<Square>| row_text(notation, row)), SEPARATOR)
}

} // verus!
