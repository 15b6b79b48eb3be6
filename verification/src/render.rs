//! The board as text: one symbol for each square.

use vstd::prelude::*;
use crate::board::{piece_at, Board, Grid};
use crate::check::contains_square;
use crate::piece::{piece_char, piece_letter};
use crate::square::Square;

verus! {

/// The symbol that shows a square: a star when the square is highlighted,
/// else the letter of the piece on it, or a dot when it is empty.
pub open spec fn square_symbol(grid: Grid, sq: int, highlights: Seq<Square>) -> char {
    if highlights.contains(sq as u8) {
        '*'
    } else {
        match piece_at(grid, sq) {
            Some(piece) => piece_letter(piece),
            None => '.',
        }
    }
}

/// The symbols of the eight squares of a rank, from the a-file to the
/// h-file.
pub open spec fn rank_symbols(grid: Grid, rank: int, highlights: Seq<Square>) -> Seq<char> {
    Seq::new(8, |file: int| square_symbol(grid, rank * 16 + file, highlights))
}

impl Board {
    /// The symbols of the squares of the rank with index `rank`, which is
    /// below 8, from the a-file to the h-file.
    pub fn rank_symbols(&self, rank: u8, highlights: &[Square]) -> (row: Vec<char>)
        requires
            rank < 8,
        ensures
            row@ == rank_symbols(self@, rank as int, highlights@),
    {
        let mut row: Vec<char> = Vec::new();
        let mut file: u8 = 0;
        while file < 8
            invariant
                file <= 8,
                rank < 8,
                row@ == rank_symbols(self@, rank as int, highlights@).take(file as int),
            decreases 8 - file,
        {
            let sq: Square = rank * 16 + file;
            let symbol = if contains_square(highlights, sq) {
                '*'
            } else {
                match self.get_piece(sq) {
                    Some(piece) => piece_char(piece),
                    None => '.',
                }
            };
            row.push(symbol);
            assert(row@ =~= rank_symbols(self@, rank as int, highlights@).take(file + 1));
            file += 1;
        }
        assert(row@ =~= rank_symbols(self@, rank as int, highlights@));
        row
    }
}

} // verus!
