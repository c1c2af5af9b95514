use fen_notation::{Piece, PieceColor, PieceType};

const KINDS: [PieceType; 6] = [
    PieceType::Pawn,
    PieceType::Rook,
    PieceType::Knight,
    PieceType::Bishop,
    PieceType::Queen,
    PieceType::King,
];

#[test]
fn air_is_empty_in_kind_and_color() {
    let air = Piece::air();
    assert_eq!(air.piece_type(), PieceType::Empty);
    assert_eq!(air.color(), PieceColor::Empty);
}

#[test]
fn default_piece_is_air() {
    assert_eq!(Piece::default(), Piece::air());
    assert_eq!(PieceType::default(), PieceType::Empty);
    assert_eq!(PieceColor::default(), PieceColor::Empty);
}

#[test]
fn white_piece_keeps_kind_and_is_white() {
    for kind in KINDS {
        let piece = Piece::white_piece(kind);
        assert_eq!(piece.piece_type(), kind);
        assert_eq!(piece.color(), PieceColor::White);
    }
}

#[test]
fn black_piece_keeps_kind_and_is_black() {
    for kind in KINDS {
        let piece = Piece::black_piece(kind);
        assert_eq!(piece.piece_type(), kind);
        assert_eq!(piece.color(), PieceColor::Black);
    }
}

#[test]
fn a_piece_of_no_kind_has_no_color() {
    assert_eq!(Piece::white_piece(PieceType::Empty), Piece::air());
    assert_eq!(Piece::black_piece(PieceType::Empty), Piece::air());
}

#[test]
fn white_is_lower_case() {
    assert_eq!(Piece::white_piece(PieceType::Pawn).symbol(), 'p');
    assert_eq!(Piece::white_piece(PieceType::Rook).symbol(), 'r');
    assert_eq!(Piece::white_piece(PieceType::Knight).symbol(), 'n');
    assert_eq!(Piece::white_piece(PieceType::Bishop).symbol(), 'b');
    assert_eq!(Piece::white_piece(PieceType::Queen).symbol(), 'q');
    assert_eq!(Piece::white_piece(PieceType::King).symbol(), 'k');
}

#[test]
fn black_is_upper_case() {
    assert_eq!(Piece::black_piece(PieceType::Pawn).symbol(), 'P');
    assert_eq!(Piece::black_piece(PieceType::Rook).symbol(), 'R');
    assert_eq!(Piece::black_piece(PieceType::Knight).symbol(), 'N');
    assert_eq!(Piece::black_piece(PieceType::Bishop).symbol(), 'B');
    assert_eq!(Piece::black_piece(PieceType::Queen).symbol(), 'Q');
    assert_eq!(Piece::black_piece(PieceType::King).symbol(), 'K');
}

#[test]
fn air_is_the_placeholder() {
    assert_eq!(Piece::air().symbol(), '_');
    assert_eq!(Piece::air().to_string(), "_");
}

#[test]
fn to_string_is_the_symbol() {
    for kind in KINDS {
        let white = Piece::white_piece(kind);
        let black = Piece::black_piece(kind);
        assert_eq!(white.to_string(), String::from(white.symbol()));
        assert_eq!(black.to_string(), String::from(black.symbol()));
    }
    assert_eq!(Piece::white_piece(PieceType::Queen).to_string(), "q");
    assert_eq!(Piece::black_piece(PieceType::Knight).to_string(), "N");
}

#[test]
fn from_symbol_reads_every_symbol() {
    assert_eq!(Piece::from_symbol('p'), Some(Piece::white_piece(PieceType::Pawn)));
    assert_eq!(Piece::from_symbol('P'), Some(Piece::black_piece(PieceType::Pawn)));
    assert_eq!(Piece::from_symbol('r'), Some(Piece::white_piece(PieceType::Rook)));
    assert_eq!(Piece::from_symbol('R'), Some(Piece::black_piece(PieceType::Rook)));
    assert_eq!(Piece::from_symbol('n'), Some(Piece::white_piece(PieceType::Knight)));
    assert_eq!(Piece::from_symbol('N'), Some(Piece::black_piece(PieceType::Knight)));
    assert_eq!(Piece::from_symbol('b'), Some(Piece::white_piece(PieceType::Bishop)));
    assert_eq!(Piece::from_symbol('B'), Some(Piece::black_piece(PieceType::Bishop)));
    assert_eq!(Piece::from_symbol('q'), Some(Piece::white_piece(PieceType::Queen)));
    assert_eq!(Piece::from_symbol('Q'), Some(Piece::black_piece(PieceType::Queen)));
    assert_eq!(Piece::from_symbol('k'), Some(Piece::white_piece(PieceType::King)));
    assert_eq!(Piece::from_symbol('K'), Some(Piece::black_piece(PieceType::King)));
    assert_eq!(Piece::from_symbol('_'), Some(Piece::air()));
}

#[test]
fn from_symbol_knows_no_other_character() {
    for symbol in ['x', 'a', 'Z', '0', '1', '8', '9', '/', ' ', '-', '\n', 'é', '♔'] {
        assert_eq!(Piece::from_symbol(symbol), None);
    }
}

#[test]
fn from_symbol_undoes_symbol() {
    for kind in KINDS {
        for piece in [Piece::white_piece(kind), Piece::black_piece(kind)] {
            assert_eq!(Piece::from_symbol(piece.symbol()), Some(piece));
        }
    }
    assert_eq!(Piece::from_symbol(Piece::air().symbol()), Some(Piece::air()));
}
