//! Rows and boards, read from a text and written as one.

use vstd::prelude::*;
use vstd::string::*;
use crate::error::FenError;
use crate::notation::{
    all_known, back_row, board_text, board_wf, digit_of_count, empty_board, faultless,
    lemma_first_fault_at, lemma_first_fault_none, lemma_first_unknown, lemma_first_unknown_at,
    lemma_leading_empties_run, parse, pawn_row, row_fault, row_squares, row_text, row_wf, run_of,
    starting_position, symbol_run, Board, Notation, SEPARATOR, SIZE,
};
use crate::piece::{Piece, PieceColor, PieceType, Square};
use crate::round_trip::{lemma_read_written, lemma_written_read};
use crate::text::{groups_view, join, split, split_text};

verus! {

/// One row of a board: 8 squares, from file A at index 0 to file H at index 7.
#[derive(Clone, Copy, Debug, PartialEq, Eq)]
pub struct Row {
    pieces: [Piece; 8],
}

/// The piece placement of a chess board: 8 rows, from rank 1 at index 0 to
/// rank 8 at index 7.
#[derive(Clone, Copy, Debug, PartialEq, Eq)]
pub struct Fen {
    rows: [Row; 8],
}

/// The squares that a sequence of pieces holds.
spec fn squares_of(pieces: Seq<Piece>) -> Seq<Square> {
    pieces.map_values(|piece: Piece| piece@)
}

impl View for Row {
    type V = Seq<Square>;

    closed spec fn view(&self) -> Seq<Square> {
        squares_of(self.pieces@)
    }
}

impl View for Fen {
    type V = Board;

    closed spec fn view(&self) -> Board {
        self.rows@.map_values(|row: Row| row@)
    }
}

/// What reading a text gave, as a mathematical value: the board, or the fault.
pub open spec fn outcome(result: Result<Fen, FenError>) -> Result<Board, FenError> {
    match result {
        Ok(board) => Ok(board@),
        Err(fault) => Err(fault),
    }
}

/// What the symbol stands for in the notation: a square, and how many times
/// it is repeated.
fn scan_symbol(notation: Notation, symbol: char) -> (run: Option<(Piece, usize)>)
    ensures
        match run {
            Some((piece, count)) => symbol_run(notation, symbol) == Some((piece@, count as nat))
                && 1 <= count <= SIZE,
            None => symbol_run(notation, symbol) is None,
        },
{
    let count: usize = match symbol {
        '1' => 1,
        '2' => 2,
        '3' => 3,
        '4' => 4,
        '5' => 5,
        '6' => 6,
        '7' => 7,
        '8' => 8,
        _ => 0,
    };
    match notation {
        Notation::Placeholder => match Piece::from_symbol(symbol) {
            Some(piece) => Some((piece, 1)),
            None => None,
        },
        Notation::Counted => if count > 0 {
            Some((Piece::air(), count))
        } else {
            match Piece::from_symbol(symbol) {
                Some(piece) => match piece.piece_type() {
                    PieceType::Empty => None,
                    _ => Some((piece, 1)),
                },
                None => None,
            }
        },
    }
}

/// Reads the text of row `row`: the row that it describes, or its fault.
fn read_row(notation: Notation, text: &Vec<char>, row: usize) -> (result: Result<Row, FenError>)
    ensures
        match result {
            Ok(read) => {
                &&& row_fault(notation, text@, row as int) is None
                &&& read@ == row_squares(notation, text@)
            },
            Err(fault) => row_fault(notation, text@, row as int) == Some(fault),
        },
{
    let mut pieces = [Piece::air();8];
    // `filled` counts the squares described so far, until they are more than
    // a row holds; from then on `overlong` is set, and the text is only
    // searched for characters that are no symbols.
    let mut filled: usize = 0;
    let mut overlong = false;
    let mut column: usize = 0;
    while column < text.len()
        invariant
            column <= text.len(),
            filled <= SIZE,
            all_known(notation, text@.take(column as int)),
            row_wf(squares_of(pieces@)),
            !overlong ==> row_squares(notation, text@.take(column as int)) == squares_of(
                pieces@,
            ).take(filled as int),
            overlong ==> row_squares(notation, text@.take(column as int)).len() > SIZE,
        decreases text.len() - column,
    {
        let symbol = text[column];
        let ghost seen = text@.take(column as int);
        let ghost next = text@.take(column + 1);
        proof {
            assert(next.drop_last() == seen);
            assert(next.last() == symbol);
        }
        match scan_symbol(notation, symbol) {
            None => {
                proof {
                    lemma_first_unknown_at(notation, text@, column as int);
                }
                return Err(FenError::UnknownSymbol { row, column, symbol });
            },
            Some((piece, count)) => {
                proof {
                    use_type_invariant(&piece);
                    assert forall|j: int| 0 <= j < next.len() implies symbol_run(
                        notation,
                        #[trigger] next[j],
                    ) is Some by {
                        if j < column {
                            assert(seen[j] == next[j]);
                        }
                    }
                }
                if overlong || count > SIZE - filled {
                    overlong = true;
                } else {
                    let ghost before = squares_of(pieces@).take(filled as int);
                    let mut written: usize = 0;
                    while written < count
                        invariant
                            written <= count,
                            filled + (count - written) <= SIZE,
                            filled == before.len() + written,
                            piece@.wf(),
                            row_wf(squares_of(pieces@)),
                            squares_of(pieces@).take(filled as int) == before + run_of(
                                piece@,
                                written as nat,
                            ),
                        decreases count - written,
                    {
                        let ghost earlier = squares_of(pieces@);
                        pieces[filled] = piece;
                        filled = filled + 1;
                        written = written + 1;
                        proof {
                            let now = squares_of(pieces@);
                            let run = run_of(piece@, written as nat);
                            assert(now =~= earlier.update(filled - 1, piece@));
                            assert forall|j: int| 0 <= j < filled - 1 implies now.take(
                                filled as int,
                            )[j] == (before + run)[j] by {
                                assert(earlier.take(filled - 1)[j] == earlier[j]);
                            }
                            assert(now.take(filled as int) =~= before + run);
                        }
                    }
                }
            },
        }
        column = column + 1;
    }
    proof {
        assert(text@.take(column as int) == text@);
        lemma_first_unknown(notation, text@);
    }
    if overlong || filled != SIZE {
        Err(FenError::RowLength { row })
    } else {
        proof {
            assert(squares_of(pieces@).take(filled as int) == squares_of(pieces@));
        }
        Ok(Row { pieces })
    }
}

/// The digit for a number from 1 to 8, as a text of one character.
fn digit_str(count: usize) -> (text: &'static str)
    requires
        1 <= count <= SIZE,
    ensures
        text@ == seq![digit_of_count(count as nat)],
{
    proof {
        reveal_strlit("1");
        reveal_strlit("2");
        reveal_strlit("3");
        reveal_strlit("4");
        reveal_strlit("5");
        reveal_strlit("6");
        reveal_strlit("7");
        reveal_strlit("8");
    }
    let text = if count == 1 {
        "1"
    } else if count == 2 {
        "2"
    } else if count == 3 {
        "3"
    } else if count == 4 {
        "4"
    } else if count == 5 {
        "5"
    } else if count == 6 {
        "6"
    } else if count == 7 {
        "7"
    } else {
        "8"
    };
    assert(text@ =~= seq![digit_of_count(count as nat)]);
    text
}

impl Row {
    /// Every row is 8 well-formed squares.
    #[verifier::type_invariant]
    pub open spec fn wf(&self) -> bool {
        row_wf(self@)
    }

    /// The row of 8 empty squares.
    pub fn empty() -> (row: Self)
        ensures
            row@ == run_of(Square::empty(), SIZE as nat),
    {
        Row::filled(Piece::air())
    }

    /// The row that holds `piece` on each of its squares.
    fn filled(piece: Piece) -> (row: Self)
        ensures
            row@ == run_of(piece@, SIZE as nat),
    {
        let pieces = [piece;8];
        proof {
            use_type_invariant(&piece);
            assert(pieces == vstd::array::spec_array_fill_for_copy_type::<Piece, 8>(piece));
            assert(squares_of(pieces@) =~= run_of(piece@, SIZE as nat));
        }
        Row { pieces }
    }

    /// The piece on the given file, counted from 0; `None` from 8 on.
    pub fn piece(&self, file: usize) -> (piece: Option<Piece>)
        ensures
            match piece {
                Some(piece) => file < SIZE && piece@ == self@[file as int],
                None => file >= SIZE,
            },
    {
        if file < SIZE {
            Some(self.pieces[file])
        } else {
            None
        }
    }

    /// Writes the row in the given notation.
    pub fn format(&self, notation: Notation) -> (text: String)
        ensures
            text@ == row_text(notation, self@),
    {
        let ghost squares = self@;
        let mut text = String::new();
        let mut file: usize = 0;
        proof {
            assert(squares.skip(0) == squares);
            assert(text@ + row_text(notation, squares) == row_text(notation, squares));
        }
        while file < SIZE
            invariant
                file <= SIZE,
                squares == self@,
                squares.len() == SIZE,
                text@ + row_text(notation, squares.skip(file as int)) == row_text(
                    notation,
                    squares,
                ),
            decreases SIZE - file,
        {
            let ghost rest = squares.skip(file as int);
            let ghost after = row_text(notation, rest);
            let piece = self.pieces[file];
            assert(rest[0] == piece@);
            if notation == Notation::Counted && piece.piece_type() == PieceType::Empty {
                let mut end: usize = file + 1;
                while end < SIZE && self.pieces[end].piece_type() == PieceType::Empty
                    invariant
                        file < end <= SIZE,
                        squares == self@,
                        squares.len() == SIZE,
                        forall|j: int|
                            file <= j < end ==> (#[trigger] squares[j]).kind == PieceType::Empty,
                    decreases SIZE - end,
                {
                    end = end + 1;
                }
                proof {
                    let run = (end - file) as nat;
                    assert forall|j: int| 0 <= j < run implies (#[trigger] rest[j]).kind
                        == PieceType::Empty by {
                        assert(rest[j] == squares[file + j]);
                    }
                    lemma_leading_empties_run(rest, run);
                    assert(rest.skip(run as int) == squares.skip(end as int));
                    assert(text@ + after == (text@ + seq![digit_of_count(run)]) + row_text(
                        notation,
                        squares.skip(end as int),
                    ));
                }
                text.append(digit_str(end - file));
                file = end;
            } else {
                proof {
                    assert(rest.skip(1) == squares.skip(file + 1));
                    assert(text@ + after == (text@ + seq![piece@.symbol()]) + row_text(
                        notation,
                        squares.skip(file + 1),
                    ));
                }
                text.append(piece.symbol_str());
                file = file + 1;
            }
        }
        proof {
            assert(text@ + Seq::<char>::empty() == text@);
        }
        text
    }

    /// Writes the row in the counted notation.
    pub fn to_string(&self) -> (text: String)
        ensures
            text@ == row_text(Notation::Counted, self@),
    {
        self.format(Notation::Counted)
    }
}

impl Default for Row {
    /// The row of 8 empty squares.
    fn default() -> (row: Self)
        ensures
            row@ == run_of(Square::empty(), SIZE as nat),
    {
        Row::empty()
    }
}

impl Fen {
    /// Every board is 8 rows of 8 well-formed squares.
    #[verifier::type_invariant]
    pub open spec fn wf(&self) -> bool {
        board_wf(self@)
    }

    /// The board without pieces.
    pub fn empty() -> (board: Self)
        ensures
            board@ == empty_board(),
    {
        let board = Fen { rows: [Row::empty();8] };
        assert(board@ =~= empty_board());
        board
    }

    /// The row of the given rank, counted from 0; `None` from 8 on.
    pub fn row(&self, rank: usize) -> (row: Option<Row>)
        ensures
            match row {
                Some(row) => rank < SIZE && row@ == self@[rank as int],
                None => rank >= SIZE,
            },
    {
        if rank < SIZE {
            Some(self.rows[rank])
        } else {
            None
        }
    }

    /// The piece on the given rank and file, both counted from 0; `None` where
    /// either is 8 or more.
    pub fn piece(&self, rank: usize, file: usize) -> (piece: Option<Piece>)
        ensures
            match piece {
                Some(piece) => {
                    &&& rank < SIZE
                    &&& file < SIZE
                    &&& piece@ == self@[rank as int][file as int]
                },
                None => rank >= SIZE || file >= SIZE,
            },
    {
        if rank < SIZE {
            self.rows[rank].piece(file)
        } else {
            None
        }
    }

    /// Reads a board from its text in the given notation.
    ///
    /// The text must hold 8 rows with `/` between them, and each row must
    /// describe exactly 8 squares: a shorter row is a fault and is not filled
    /// up. Of several faults the first is returned: a wrong number of rows
    /// before anything else, then the rows in their order, and in a row a
    /// character that is no symbol before a wrong number of squares.
    pub fn parse(input: &str, notation: Notation) -> (result: Result<Self, FenError>)
        ensures
            outcome(result) == parse(notation, input@),
    {
        let groups = split_text(input, SEPARATOR);
        if groups.len() != SIZE {
            return Err(FenError::RowCount { found: groups.len() });
        }
        let ghost texts = groups_view(groups@);
        let mut rows = [Row::empty();8];
        let mut rank: usize = 0;
        while rank < SIZE
            invariant
                rank <= SIZE,
                groups.len() == SIZE,
                texts == groups_view(groups@),
                texts == split(input@, SEPARATOR),
                faultless(notation, texts.take(rank as int)),
                forall|r: int| 0 <= r < SIZE ==> row_wf(#[trigger] rows[r]@),
                forall|r: int|
                    0 <= r < rank ==> (#[trigger] rows[r])@ == row_squares(notation, texts[r]),
            decreases SIZE - rank,
        {
            assert(texts[rank as int] == groups@[rank as int]@);
            match read_row(notation, &groups[rank], rank) {
                Ok(row) => {
                    proof {
                        use_type_invariant(&row);
                    }
                    rows[rank] = row;
                },
                Err(fault) => {
                    proof {
                        lemma_first_fault_at(notation, texts, rank as int);
                    }
                    return Err(fault);
                },
            }
            rank = rank + 1;
            proof {
                assert forall|r: int| 0 <= r < rank implies row_fault(
                    notation,
                    #[trigger] texts.take(rank as int)[r],
                    r,
                ) is None by {
                    if r < rank - 1 {
                        assert(texts.take(rank - 1)[r] == texts[r]);
                    }
                }
            }
        }
        let board = Fen { rows };
        proof {
            assert(texts.take(rank as int) == texts);
            lemma_first_fault_none(notation, texts);
            assert(board@ =~= texts.map_values(|row: Seq<char>| row_squares(notation, row)));
        }
        Ok(board)
    }

    /// Reads a board from its text in the placeholder notation, as
    /// [`Fen::parse`] does. A text that is read is the text of the board, in
    /// that notation.
    pub fn from_string(input: &str) -> (result: Result<Self, FenError>)
        ensures
            outcome(result) == parse(Notation::Placeholder, input@),
            result matches Ok(board) ==> board_text(Notation::Placeholder, board@) == input@,
    {
        proof {
            lemma_written_read(input@);
        }
        Fen::parse(input, Notation::Placeholder)
    }

    /// Writes the board in the given notation. Reading the text in the same
    /// notation gives this board back.
    pub fn format(&self, notation: Notation) -> (text: String)
        ensures
            text@ == board_text(notation, self@),
            parse(notation, text@) == outcome(Ok(*self)),
    {
        proof {
            use_type_invariant(self);
            lemma_read_written(notation, self@);
        }
        let ghost texts = self@.map_values(|row: Seq<Square>| row_text(notation, row));
        let mut text = String::new();
        let mut rank: usize = 0;
        while rank < SIZE
            invariant
                rank <= SIZE,
                texts == self@.map_values(|row: Seq<Square>| row_text(notation, row)),
                texts.len() == SIZE,
                text@ == join(texts.take(rank as int), SEPARATOR),
            decreases SIZE - rank,
        {
            proof {
                reveal_strlit("/");
                assert("/"@ =~= seq![SEPARATOR]);
                assert(texts.take(rank + 1).drop_last() == texts.take(rank as int));
                assert(texts.take(rank + 1).last() == row_text(notation, self.rows[rank as int]@));
            }
            if rank > 0 {
                text.append("/");
            }
            let row = self.rows[rank].format(notation);
            text.append(row.as_str());
            rank = rank + 1;
            proof {
                assert(text@ =~= join(texts.take(rank as int), SEPARATOR));
            }
        }
        proof {
            assert(texts.take(rank as int) == texts);
        }
        text
    }

    /// Writes the board in the counted notation.
    pub fn to_string(&self) -> (text: String)
        ensures
            text@ == board_text(Notation::Counted, self@),
            parse(Notation::Counted, text@) == outcome(Ok(*self)),
    {
        self.format(Notation::Counted)
    }
}

impl Default for Fen {
    /// The board on which a game begins.
    fn default() -> (board: Self)
        ensures
            board@ == starting_position(),
    {
        let white_back = Row {
            pieces: [
                Piece::white_piece(PieceType::Rook),
                Piece::white_piece(PieceType::Knight),
                Piece::white_piece(PieceType::Bishop),
                Piece::white_piece(PieceType::Queen),
                Piece::white_piece(PieceType::King),
                Piece::white_piece(PieceType::Bishop),
                Piece::white_piece(PieceType::Knight),
                Piece::white_piece(PieceType::Rook),
            ],
        };
        let black_back = Row {
            pieces: [
                Piece::black_piece(PieceType::Rook),
                Piece::black_piece(PieceType::Knight),
                Piece::black_piece(PieceType::Bishop),
                Piece::black_piece(PieceType::Queen),
                Piece::black_piece(PieceType::King),
                Piece::black_piece(PieceType::Bishop),
                Piece::black_piece(PieceType::Knight),
                Piece::black_piece(PieceType::Rook),
            ],
        };
        let white_pawns = Row::filled(Piece::white_piece(PieceType::Pawn));
        let black_pawns = Row::filled(Piece::black_piece(PieceType::Pawn));
        proof {
            assert(white_back@ =~= back_row(PieceColor::White));
            assert(black_back@ =~= back_row(PieceColor::Black));
            assert(white_pawns@ =~= pawn_row(PieceColor::White));
            assert(black_pawns@ =~= pawn_row(PieceColor::Black));
        }
        let board = Fen {
            rows: [
                white_back,
                white_pawns,
                Row::empty(),
                Row::empty(),
                Row::empty(),
                Row::empty(),
                black_pawns,
                black_back,
            ],
        };
        assert(board@ =~= starting_position());
        board
    }
}

} // verus!
