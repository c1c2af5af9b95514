//! The squares of a board: what stands on one, and the symbol that is written for it.

use vstd::prelude::*;
use vstd::string::*;

verus! {

/// What kind of piece stands on a square; `Empty` where none does.
#[derive(Clone, Copy, Debug, PartialEq, Eq, Structural)]
pub enum PieceType {
    Pawn,
    Rook,
    Knight,
    Bishop,
    Queen,
    King,
    Empty,
}

/// Whose piece stands on a square; `Empty` where none does.
#[derive(Clone, Copy, Debug, PartialEq, Eq, Structural)]
pub enum PieceColor {
    White,
    Black,
    Empty,
}

impl Default for PieceType {
    fn default() -> (kind: Self)
        ensures
            kind == PieceType::Empty,
    {
        PieceType::Empty
    }
}

impl Default for PieceColor {
    fn default() -> (color: Self)
        ensures
            color == PieceColor::Empty,
    {
        PieceColor::Empty
    }
}

/// The mathematical content of one square: a kind and a color.
pub struct Square {
    pub kind: PieceType,
    pub color: PieceColor,
}

impl Square {
    /// The square on which nothing stands.
    pub open spec fn empty() -> Square {
        Square { kind: PieceType::Empty, color: PieceColor::Empty }
    }

    /// A square is well formed when it has a color exactly if it has a piece.
    pub open spec fn wf(self) -> bool {
        (self.kind == PieceType::Empty) <==> (self.color == PieceColor::Empty)
    }

    /// The square that holds a piece of the given kind and color; a piece of
    /// no kind is no piece, whatever color is asked for.
    pub open spec fn occupied(kind: PieceType, color: PieceColor) -> Square {
        if kind == PieceType::Empty || color == PieceColor::Empty {
            Square::empty()
        } else {
            Square { kind, color }
        }
    }

    /// The symbol written for a square: the letter of its kind, lower case for
    /// White and upper case for Black, and `_` for an empty square.
    pub open spec fn symbol(self) -> char {
        let white = self.color == PieceColor::White;
        match self.kind {
            PieceType::Pawn => if white { 'p' } else { 'P' },
            PieceType::Rook => if white { 'r' } else { 'R' },
            PieceType::Knight => if white { 'n' } else { 'N' },
            PieceType::Bishop => if white { 'b' } else { 'B' },
            PieceType::Queen => if white { 'q' } else { 'Q' },
            PieceType::King => if white { 'k' } else { 'K' },
            PieceType::Empty => '_',
        }
    }

    /// The square that a symbol stands for; `None` where it stands for none.
    pub open spec fn of_symbol(symbol: char) -> Option<Square> {
        let white = PieceColor::White;
        let black = PieceColor::Black;
        if symbol == 'p' {
            Some(Square { kind: PieceType::Pawn, color: white })
        } else if symbol == 'P' {
            Some(Square { kind: PieceType::Pawn, color: black })
        } else if symbol == 'r' {
            Some(Square { kind: PieceType::Rook, color: white })
        } else if symbol == 'R' {
            Some(Square { kind: PieceType::Rook, color: black })
        } else if symbol == 'n' {
            Some(Square { kind: PieceType::Knight, color: white })
        } else if symbol == 'N' {
            Some(Square { kind: PieceType::Knight, color: black })
        } else if symbol == 'b' {
            Some(Square { kind: PieceType::Bishop, color: white })
        } else if symbol == 'B' {
            Some(Square { kind: PieceType::Bishop, color: black })
        } else if symbol == 'q' {
            Some(Square { kind: PieceType::Queen, color: white })
        } else if symbol == 'Q' {
            Some(Square { kind: PieceType::Queen, color: black })
        } else if symbol == 'k' {
            Some(Square { kind: PieceType::King, color: white })
        } else if symbol == 'K' {
            Some(Square { kind: PieceType::King, color: black })
        } else if symbol == '_' {
            Some(Square::empty())
        } else {
            None
        }
    }

    /// Reading the symbol of a well-formed square gives the square back.
    pub proof fn lemma_symbol_read_back(self)
        requires
            self.wf(),
        ensures
            Square::of_symbol(self.symbol()) == Some(self),
    {
    }

    /// A symbol stands for at most one square, which is well formed and whose
    /// symbol it is.
    pub proof fn lemma_symbol_written_back(symbol: char)
        ensures
            Square::of_symbol(symbol) matches Some(square) ==> square.wf() && square.symbol()
                == symbol,
    {
    }
}

/// One square of a board. Its fields are private, so that every value is
/// well formed: empty in kind exactly if empty in color.
#[derive(Clone, Copy, Debug, PartialEq, Eq, Structural)]
pub struct Piece {
    piece_type: PieceType,
    color: PieceColor,
}

impl View for Piece {
    type V = Square;

    closed spec fn view(&self) -> Square {
        Square { kind: self.piece_type, color: self.color }
    }
}

impl Piece {
    /// Every piece is a well-formed square.
    #[verifier::type_invariant]
    pub open spec fn wf(&self) -> bool {
        self@.wf()
    }

    /// The empty square.
    pub fn air() -> (piece: Self)
        ensures
            piece@ == Square::empty(),
    {
        Piece { piece_type: PieceType::Empty, color: PieceColor::Empty }
    }

    /// A white piece of the given kind; the empty square for `PieceType::Empty`.
    pub fn white_piece(piece_type: PieceType) -> (piece: Self)
        ensures
            piece@ == Square::occupied(piece_type, PieceColor::White),
    {
        match piece_type {
            PieceType::Empty => Piece::air(),
            _ => Piece { piece_type, color: PieceColor::White },
        }
    }

    /// A black piece of the given kind; the empty square for `PieceType::Empty`.
    pub fn black_piece(piece_type: PieceType) -> (piece: Self)
        ensures
            piece@ == Square::occupied(piece_type, PieceColor::Black),
    {
        match piece_type {
            PieceType::Empty => Piece::air(),
            _ => Piece { piece_type, color: PieceColor::Black },
        }
    }

    /// The square that `symbol` stands for, if it stands for one.
    pub fn from_symbol(symbol: char) -> (piece: Option<Self>)
        ensures
            match piece {
                Some(piece) => Square::of_symbol(symbol) == Some(piece@),
                None => Square::of_symbol(symbol) is None,
            },
    {
        match symbol {
            'p' => Some(Piece::white_piece(PieceType::Pawn)),
            'P' => Some(Piece::black_piece(PieceType::Pawn)),
            'r' => Some(Piece::white_piece(PieceType::Rook)),
            'R' => Some(Piece::black_piece(PieceType::Rook)),
            'n' => Some(Piece::white_piece(PieceType::Knight)),
            'N' => Some(Piece::black_piece(PieceType::Knight)),
            'b' => Some(Piece::white_piece(PieceType::Bishop)),
            'B' => Some(Piece::black_piece(PieceType::Bishop)),
            'q' => Some(Piece::white_piece(PieceType::Queen)),
            'Q' => Some(Piece::black_piece(PieceType::Queen)),
            'k' => Some(Piece::white_piece(PieceType::King)),
            'K' => Some(Piece::black_piece(PieceType::King)),
            '_' => Some(Piece::air()),
            _ => None,
        }
    }

    /// The symbol of this square.
    pub fn symbol(&self) -> (symbol: char)
        ensures
            symbol == self@.symbol(),
    {
        let white = self.color == PieceColor::White;
        match self.piece_type {
            PieceType::Pawn => if white { 'p' } else { 'P' },
            PieceType::Rook => if white { 'r' } else { 'R' },
            PieceType::Knight => if white { 'n' } else { 'N' },
            PieceType::Bishop => if white { 'b' } else { 'B' },
            PieceType::Queen => if white { 'q' } else { 'Q' },
            PieceType::King => if white { 'k' } else { 'K' },
            PieceType::Empty => '_',
        }
    }

    /// The symbol of this square, as a text of one character.
    pub(crate) fn symbol_str(&self) -> (text: &'static str)
        ensures
            text@ == seq![self@.symbol()],
    {
        proof {
            reveal_strlit("p");
            reveal_strlit("P");
            reveal_strlit("r");
            reveal_strlit("R");
            reveal_strlit("n");
            reveal_strlit("N");
            reveal_strlit("b");
            reveal_strlit("B");
            reveal_strlit("q");
            reveal_strlit("Q");
            reveal_strlit("k");
            reveal_strlit("K");
            reveal_strlit("_");
        }
        let text = match self.symbol() {
            'p' => "p",
            'P' => "P",
            'r' => "r",
            'R' => "R",
            'n' => "n",
            'N' => "N",
            'b' => "b",
            'B' => "B",
            'q' => "q",
            'Q' => "Q",
            'k' => "k",
            'K' => "K",
            _ => "_",
        };
        assert(text@ =~= seq![self@.symbol()]);
        text
    }

    /// The symbol of this square, as an owned text.
    pub fn to_string(&self) -> (text: String)
        ensures
            text@ == seq![self@.symbol()],
    {
        String::from_str(self.symbol_str())
    }

    /// The kind of piece on this square.
    pub fn piece_type(&self) -> (kind: PieceType)
        ensures
            kind == self@.kind,
    {
        self.piece_type
    }

    /// The color of the piece on this square.
    pub fn color(&self) -> (color: PieceColor)
        ensures
            color == self@.color,
    {
        self.color
    }
}

impl Default for Piece {
    fn default() -> (piece: Self)
        ensures
            piece@ == Square::empty(),
    {
        Piece::air()
    }
}

} // verus!
