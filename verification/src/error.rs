//! Why a text is not the notation of a board.

use vstd::prelude::*;

verus! {

/// The first fault found in a text that was to be read as a board. Rows and
/// columns are counted from 0.
#[derive(Clone, Copy, Debug, PartialEq, Eq, Structural)]
pub enum FenError {
    /// The text has `found` rows where a board has 8.
    RowCount { found: usize },
    /// Row `row` holds only symbols of the notation, but they do not describe
    /// 8 squares.
    RowLength { row: usize },
    /// The character `symbol`, at place `column` of row `row`, is no symbol of
    /// the notation.
    UnknownSymbol { row: usize, column: usize, symbol: char },
}

} // verus!
