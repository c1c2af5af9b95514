//! The piece placement of a chess board, read from a text and written as one.
//!
//! A [`Fen`] holds 8 rows of 8 squares. Its text is the 8 rows, the first rank
//! first, with `/` between them. A piece is written as the letter of its kind,
//! lower case for White and upper case for Black. Empty squares are written in
//! one of two [`Notation`]s: a `_` for each, or a digit for each run of them.
//! [`Fen::from_string`] reads the first, [`Fen::to_string`] writes the second;
//! [`Fen::parse`] and [`Fen::format`] do either.
//!
//! Only the placement is held: not the side to move, castling rights, en
//! passant square or move counters.
//!
//! What the functions compute is stated over sequences of [`Square`]s in
//! [`notation`]; [`round_trip`] proves that reading undoes writing.

pub mod board;
pub mod error;
pub mod notation;
pub mod piece;
pub mod round_trip;
pub mod text;

pub use board::{Fen, Row};
pub use error::FenError;
pub use notation::Notation;
pub use piece::{Piece, PieceColor, PieceType, Square};
