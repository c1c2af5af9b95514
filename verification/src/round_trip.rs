//! Reading undoes writing, in both notations; and in the placeholder notation
//! writing undoes reading.

use vstd::prelude::*;
use crate::error::FenError;
use crate::notation::{
    all_known, all_wf, board_text, board_wf, digit_of_count, leading_empties,
    lemma_first_fault_none, lemma_first_unknown, lemma_leading_empties, parse, row_fault,
    row_squares, row_text, row_wf, run_of, symbol_run, Board, Notation, SEPARATOR, SIZE,
};
use crate::piece::{PieceType, Square};
use crate::text::{free_of, lemma_join_split, lemma_split_join, split};

verus! {

/// A text of two parts describes what the first part describes, followed by
/// what the second part describes.
pub proof fn lemma_row_squares_concat(notation: Notation, left: Seq<char>, right: Seq<char>)
    ensures
        row_squares(notation, left + right) == row_squares(notation, left) + row_squares(
            notation,
            right,
        ),
    decreases right.len(),
{
    if right.len() == 0 {
        assert(left + right == left);
        assert(row_squares(notation, left) + Seq::<Square>::empty() == row_squares(notation, left));
    } else {
        lemma_row_squares_concat(notation, left, right.drop_last());
        assert((left + right).drop_last() == left + right.drop_last());
        assert((left + right).last() == right.last());
        let last = match symbol_run(notation, right.last()) {
            Some((square, count)) => run_of(square, count),
            None => Seq::empty(),
        };
        assert((row_squares(notation, left) + row_squares(notation, right.drop_last())) + last
            == row_squares(notation, left) + (row_squares(notation, right.drop_last()) + last));
    }
}

/// A text of one symbol describes the run of that symbol.
pub proof fn lemma_row_squares_one(notation: Notation, symbol: char)
    ensures
        row_squares(notation, seq![symbol]) == match symbol_run(notation, symbol) {
            Some((square, count)) => run_of(square, count),
            None => Seq::empty(),
        },
{
    let text = seq![symbol];
    assert(text.drop_last() == Seq::<char>::empty());
    assert(row_squares(notation, text.drop_last()) == Seq::<Square>::empty());
    let last = match symbol_run(notation, symbol) {
        Some((square, count)) => run_of(square, count),
        None => Seq::empty(),
    };
    assert(Seq::<Square>::empty() + last == last);
}

/// The text of at most 8 well-formed squares holds only symbols of its
/// notation, and describes those squares.
pub proof fn lemma_row_read_back(notation: Notation, squares: Seq<Square>)
    requires
        squares.len() <= SIZE,
        all_wf(squares),
    ensures
        all_known(notation, row_text(notation, squares)),
        row_squares(notation, row_text(notation, squares)) == squares,
    decreases squares.len(),
{
    if squares.len() > 0 {
        let first = squares[0];
        if notation == Notation::Counted && first.kind == PieceType::Empty {
            let run = leading_empties(squares);
            lemma_leading_empties(squares);
            let rest = squares.skip(run as int);
            let digit = digit_of_count(run);
            lemma_row_read_back(notation, rest);
            lemma_row_squares_concat(notation, seq![digit], row_text(notation, rest));
            lemma_row_squares_one(notation, digit);
            assert(symbol_run(notation, digit) == Some((Square::empty(), run)));
            assert(run_of(Square::empty(), run) + rest == squares);
            lemma_all_known_concat(notation, seq![digit], row_text(notation, rest));
        } else {
            let rest = squares.skip(1);
            let symbol = first.symbol();
            lemma_row_read_back(notation, rest);
            lemma_row_squares_concat(notation, seq![symbol], row_text(notation, rest));
            lemma_row_squares_one(notation, symbol);
            first.lemma_symbol_read_back();
            assert(symbol_run(notation, symbol) == Some((first, 1nat)));
            assert(run_of(first, 1) + rest == squares);
            lemma_all_known_concat(notation, seq![symbol], row_text(notation, rest));
        }
    }
}

/// Two texts of symbols make a text of symbols.
pub proof fn lemma_all_known_concat(notation: Notation, left: Seq<char>, right: Seq<char>)
    requires
        all_known(notation, left),
        all_known(notation, right),
    ensures
        all_known(notation, left + right),
{
    assert forall|column: int| 0 <= column < (left + right).len() implies symbol_run(
        notation,
        #[trigger] (left + right)[column],
    ) is Some by {
        if column < left.len() {
            assert((left + right)[column] == left[column]);
        } else {
            assert((left + right)[column] == right[column - left.len()]);
        }
    }
}

/// Reading what was written gives the board back: in either notation, the
/// text of a well-formed board is read without fault, as that board.
pub proof fn lemma_read_written(notation: Notation, board: Board)
    requires
        board_wf(board),
    ensures
        parse(notation, board_text(notation, board)) == Ok::<Board, FenError>(board),
{
    let texts = board.map_values(|row: Seq<Square>| row_text(notation, row));
    assert forall|rank: int| 0 <= rank < texts.len() implies free_of(
        #[trigger] texts[rank],
        SEPARATOR,
    ) && row_fault(notation, texts[rank], rank) is None && row_squares(notation, texts[rank])
        == board[rank] by {
        assert(row_wf(board[rank]));
        lemma_row_read_back(notation, board[rank]);
        lemma_first_unknown(notation, texts[rank]);
    }
    lemma_split_join(texts, SEPARATOR);
    lemma_first_fault_none(notation, texts);
    assert(texts.map_values(|row: Seq<char>| row_squares(notation, row)) == board);
}

/// Two well-formed boards with the same text, in either notation, are the
/// same board.
pub proof fn lemma_text_tells_boards_apart(notation: Notation, first: Board, second: Board)
    requires
        board_wf(first),
        board_wf(second),
        board_text(notation, first) == board_text(notation, second),
    ensures
        first == second,
{
    lemma_read_written(notation, first);
    lemma_read_written(notation, second);
}

/// Whatever a text describes, the squares are well formed.
pub proof fn lemma_row_squares_wf(notation: Notation, text: Seq<char>)
    ensures
        all_wf(row_squares(notation, text)),
    decreases text.len(),
{
    if text.len() > 0 {
        lemma_row_squares_wf(notation, text.drop_last());
        Square::lemma_symbol_written_back(text.last());
    }
}

/// In the placeholder notation, the text of a row of two parts is the text
/// of the first part followed by the text of the second.
pub proof fn lemma_row_text_concat(left: Seq<Square>, right: Seq<Square>)
    ensures
        row_text(Notation::Placeholder, left + right) == row_text(Notation::Placeholder, left)
            + row_text(Notation::Placeholder, right),
    decreases left.len(),
{
    let notation = Notation::Placeholder;
    if left.len() == 0 {
        assert(left + right == right);
        assert(Seq::<char>::empty() + row_text(notation, right) == row_text(notation, right));
    } else {
        lemma_row_text_concat(left.skip(1), right);
        assert((left + right).skip(1) == left.skip(1) + right);
        assert(seq![left[0].symbol()] + (row_text(notation, left.skip(1)) + row_text(
            notation,
            right,
        )) == (seq![left[0].symbol()] + row_text(notation, left.skip(1))) + row_text(
            notation,
            right,
        ));
    }
}

/// In the placeholder notation, a text of symbols is the text of the squares
/// that it describes, of which there are as many as it has symbols.
pub proof fn lemma_row_written_back(text: Seq<char>)
    requires
        all_known(Notation::Placeholder, text),
    ensures
        row_text(Notation::Placeholder, row_squares(Notation::Placeholder, text)) == text,
        row_squares(Notation::Placeholder, text).len() == text.len(),
    decreases text.len(),
{
    let notation = Notation::Placeholder;
    if text.len() > 0 {
        let shorter = text.drop_last();
        let symbol = text.last();
        assert forall|column: int| 0 <= column < shorter.len() implies symbol_run(
            notation,
            #[trigger] shorter[column],
        ) is Some by {
            assert(shorter[column] == text[column]);
        }
        lemma_row_written_back(shorter);
        assert(text[text.len() - 1] == symbol);
        Square::lemma_symbol_written_back(symbol);
        let square = Square::of_symbol(symbol)->0;
        let last = run_of(square, 1);
        lemma_row_text_concat(row_squares(notation, shorter), last);
        assert(last.skip(1) == Seq::<Square>::empty());
        assert(row_text(notation, Seq::<Square>::empty()) == Seq::<char>::empty());
        assert(last[0].symbol() == symbol);
        assert(row_text(notation, last) == seq![symbol] + Seq::<char>::empty());
        assert(shorter + seq![symbol] == text);
    }
}

/// A board that was read is well formed, in either notation.
pub proof fn lemma_read_wf(notation: Notation, text: Seq<char>)
    ensures
        parse(notation, text) matches Ok(board) ==> board_wf(board),
{
    if let Ok(board) = parse(notation, text) {
        let rows = split(text, SEPARATOR);
        lemma_first_fault_none(notation, rows);
        assert forall|rank: int| 0 <= rank < board.len() implies row_wf(#[trigger] board[rank]) by {
            assert(row_fault(notation, rows[rank], rank) is None);
            lemma_row_squares_wf(notation, rows[rank]);
        }
    }
}

/// Writing what was read gives the text back: a text that is read as a board
/// in the placeholder notation is the text of that board.
pub proof fn lemma_written_read(text: Seq<char>)
    ensures
        parse(Notation::Placeholder, text) matches Ok(board) ==> board_text(
            Notation::Placeholder,
            board,
        ) == text,
{
    let notation = Notation::Placeholder;
    if let Ok(board) = parse(notation, text) {
        let rows = split(text, SEPARATOR);
        lemma_first_fault_none(notation, rows);
        let texts = board.map_values(|row: Seq<Square>| row_text(notation, row));
        assert forall|rank: int| 0 <= rank < rows.len() implies #[trigger] texts[rank]
            == rows[rank] by {
            assert(row_fault(notation, rows[rank], rank) is None);
            lemma_first_unknown(notation, rows[rank]);
            lemma_row_written_back(rows[rank]);
        }
        assert(texts == rows);
        lemma_join_split(text, SEPARATOR);
    }
}

} // verus!
