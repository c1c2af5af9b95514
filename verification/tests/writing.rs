use fen_notation::{Fen, Notation, Row};

const EMPTY: &str = "________/________/________/________/________/________/________/________";
const START: &str = "rnbqkbnr/pppppppp/________/________/________/________/PPPPPPPP/RNBQKBNR";
const MIXED: &str = "r__qk__r/p_p__p_p/________/_______P/N_______/__bB____/_P_P_P_P/KQ____nn";

const BOARDS: [&str; 6] = [
    EMPTY,
    START,
    MIXED,
    "pppppppp/PPPPPPPP/kkkkkkkk/KKKKKKKK/qQqQqQqQ/nNbBrRpP/________/_k_K_q_Q",
    "_______k/______k_/_____k__/____k___/___k____/__k_____/_k______/k_______",
    "k_______/kk______/kkk_____/kkkk____/kkkkk___/kkkkkk__/kkkkkkk_/kkkkkkkk",
];

#[test]
fn empty_board_is_eight_eights() {
    assert_eq!(Fen::empty().to_string(), "8/8/8/8/8/8/8/8");
}

#[test]
fn empty_board_in_placeholders() {
    assert_eq!(Fen::empty().format(Notation::Placeholder), EMPTY);
}

#[test]
fn starting_position_in_counted_notation() {
    assert_eq!(Fen::default().to_string(), "rnbqkbnr/pppppppp/8/8/8/8/PPPPPPPP/RNBQKBNR");
}

#[test]
fn starting_position_in_placeholders() {
    assert_eq!(Fen::default().format(Notation::Placeholder), START);
}

#[test]
fn to_string_is_the_counted_notation() {
    for text in BOARDS {
        let board = Fen::from_string(text).unwrap();
        assert_eq!(board.to_string(), board.format(Notation::Counted));
        for rank in 0..8 {
            let row = board.row(rank).unwrap();
            assert_eq!(row.to_string(), row.format(Notation::Counted));
        }
    }
}

#[test]
fn runs_of_empty_squares_are_counted() {
    assert_eq!(
        Fen::from_string(MIXED).unwrap().to_string(),
        "r2qk2r/p1p2p1p/8/7P/N7/2bB4/1P1P1P1P/KQ4nn"
    );
}

#[test]
fn a_run_at_the_end_of_a_row_is_written() {
    let board =
        Fen::from_string("k_______/kk______/kkk_____/kkkk____/kkkkk___/kkkkkk__/kkkkkkk_/kkkkkkkk")
            .unwrap();
    assert_eq!(board.to_string(), "k7/kk6/kkk5/kkkk4/kkkkk3/kkkkkk2/kkkkkkk1/kkkkkkkk");
}

#[test]
fn a_run_at_the_start_of_a_row_is_written() {
    let board =
        Fen::from_string("_______k/______k_/_____k__/____k___/___k____/__k_____/_k______/k_______")
            .unwrap();
    assert_eq!(board.to_string(), "7k/6k1/5k2/4k3/3k4/2k5/1k6/k7");
}

#[test]
fn rows_are_written_one_by_one() {
    let board = Fen::from_string(MIXED).unwrap();
    let counted = ["r2qk2r", "p1p2p1p", "8", "7P", "N7", "2bB4", "1P1P1P1P", "KQ4nn"];
    let plain: Vec<&str> = MIXED.split('/').collect();
    for rank in 0..8 {
        let row = board.row(rank).unwrap();
        assert_eq!(row.to_string(), counted[rank]);
        assert_eq!(row.format(Notation::Placeholder), plain[rank]);
    }
}

#[test]
fn empty_row_is_one_eight() {
    assert_eq!(Row::empty().to_string(), "8");
    assert_eq!(Row::default().to_string(), "8");
    assert_eq!(Row::empty().format(Notation::Placeholder), "________");
}

#[test]
fn no_separator_at_either_end() {
    for text in BOARDS {
        let board = Fen::from_string(text).unwrap();
        for notation in [Notation::Placeholder, Notation::Counted] {
            let written = board.format(notation);
            assert!(!written.starts_with('/'));
            assert!(!written.ends_with('/'));
            assert_eq!(written.matches('/').count(), 7);
        }
    }
}

#[test]
fn reading_undoes_writing_in_placeholders() {
    for text in BOARDS {
        let board = Fen::from_string(text).unwrap();
        assert_eq!(Fen::from_string(&board.format(Notation::Placeholder)), Ok(board));
    }
    assert_eq!(Fen::from_string(&Fen::default().format(Notation::Placeholder)), Ok(Fen::default()));
    assert_eq!(Fen::from_string(&Fen::empty().format(Notation::Placeholder)), Ok(Fen::empty()));
}

#[test]
fn reading_undoes_writing_in_counted_notation() {
    for text in BOARDS {
        let board = Fen::from_string(text).unwrap();
        assert_eq!(Fen::parse(&board.to_string(), Notation::Counted), Ok(board));
    }
    assert_eq!(Fen::parse(&Fen::default().to_string(), Notation::Counted), Ok(Fen::default()));
    assert_eq!(Fen::parse(&Fen::empty().to_string(), Notation::Counted), Ok(Fen::empty()));
}

#[test]
fn writing_undoes_reading_in_placeholders() {
    for text in BOARDS {
        assert_eq!(Fen::from_string(text).unwrap().format(Notation::Placeholder), text);
    }
}

#[test]
fn counted_text_is_not_read_as_placeholders() {
    let written = Fen::default().to_string();
    assert!(Fen::from_string(&written).is_err());
}
