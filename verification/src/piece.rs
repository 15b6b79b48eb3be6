//! Colours, piece kinds and pieces, with the material values used for
//! evaluation and for ordering captures.

use vstd::prelude::*;

verus! {

/// One of the two sides.
#[derive(Clone, Copy, PartialEq, Eq, Debug, Structural)]
pub enum Color {
    White,
    Black,
}

/// The six kinds of chessmen.
#[derive(Clone, Copy, PartialEq, Eq, Debug, Structural)]
pub enum PieceType {
    Pawn,
    Knight,
    Bishop,
    Rook,
    Queen,
    King,
}

/// A chessman: a value with no identity beyond the square it stands on.
#[derive(Clone, Copy, PartialEq, Eq, Debug, Structural)]
pub struct Piece {
    pub color: Color,
    pub kind: PieceType,
}

impl Color {
    /// The other side.
    pub open spec fn other(self) -> Color {
        match self {
            Color::White => Color::Black,
            Color::Black => Color::White,
        }
    }

    /// The other side.
    pub fn opponent(self) -> (r: Color)
        ensures
            r == self.other(),
    {
        match self {
            Color::White => Color::Black,
            Color::Black => Color::White,
        }
    }
}

impl PieceType {
    /// Position of the kind in the order pawn, knight, bishop, rook, queen, king.
    pub open spec fn index(self) -> int {
        match self {
            PieceType::Pawn => 0,
            PieceType::Knight => 1,
            PieceType::Bishop => 2,
            PieceType::Rook => 3,
            PieceType::Queen => 4,
            PieceType::King => 5,
        }
    }

    /// Material value in centipawns.
    pub open spec fn value(self) -> int {
        match self {
            PieceType::Pawn => 100,
            PieceType::Knight => 320,
            PieceType::Bishop => 330,
            PieceType::Rook => 500,
            PieceType::Queen => 900,
            PieceType::King => 20000,
        }
    }
}

/// Material value of a kind of piece, in centipawns.
pub fn get_piece_value(piece_type: PieceType) -> (r: i32)
    ensures
        r == piece_type.value(),
{
    match piece_type {
        PieceType::Pawn => 100,
        PieceType::Knight => 320,
        PieceType::Bishop => 330,
        PieceType::Rook => 500,
        PieceType::Queen => 900,
        PieceType::King => 20000,
    }
}

/// Bonus for a capture: the more valuable the victim the larger, and among
/// equal victims the less valuable attacker first.
pub open spec fn mvv_lva(attacker: PieceType, victim: PieceType) -> int {
    100 * (victim.index() + 1) + 5 - attacker.index()
}

fn kind_index(kind: PieceType) -> (r: i32)
    ensures
        r == kind.index(),
{
    match kind {
        PieceType::Pawn => 0,
        PieceType::Knight => 1,
        PieceType::Bishop => 2,
        PieceType::Rook => 3,
        PieceType::Queen => 4,
        PieceType::King => 5,
    }
}

/// Capture-ordering bonus for `attacker` taking `victim`.
pub fn get_mvv_lva_score(attacker: PieceType, victim: PieceType) -> (r: i32)
    ensures
        r == mvv_lva(attacker, victim),
        100 <= r <= 605,
{
    let a: i32 = kind_index(attacker);
    let v: i32 = kind_index(victim);
    100 * (v + 1) + 5 - a
}

/// The letter that shows a piece: upper case for White, lower case for Black.
pub open spec fn piece_letter(piece: Piece) -> char {
    match (piece.color, piece.kind) {
        (Color::White, PieceType::Pawn) => 'P',
        (Color::White, PieceType::Knight) => 'N',
        (Color::White, PieceType::Bishop) => 'B',
        (Color::White, PieceType::Rook) => 'R',
        (Color::White, PieceType::Queen) => 'Q',
        (Color::White, PieceType::King) => 'K',
        (Color::Black, PieceType::Pawn) => 'p',
        (Color::Black, PieceType::Knight) => 'n',
        (Color::Black, PieceType::Bishop) => 'b',
        (Color::Black, PieceType::Rook) => 'r',
        (Color::Black, PieceType::Queen) => 'q',
        (Color::Black, PieceType::King) => 'k',
    }
}

/// The letter that shows a piece on a printed board.
pub fn piece_char(piece: Piece) -> (r: char)
    ensures
        r == piece_letter(piece),
{
    match (piece.color, piece.kind) {
        (Color::White, PieceType::Pawn) => 'P',
        (Color::White, PieceType::Knight) => 'N',
        (Color::White, PieceType::Bishop) => 'B',
        (Color::White, PieceType::Rook) => 'R',
        (Color::White, PieceType::Queen) => 'Q',
        (Color::White, PieceType::King) => 'K',
        (Color::Black, PieceType::Pawn) => 'p',
        (Color::Black, PieceType::Knight) => 'n',
        (Color::Black, PieceType::Bishop) => 'b',
        (Color::Black, PieceType::Rook) => 'r',
        (Color::Black, PieceType::Queen) => 'q',
        (Color::Black, PieceType::King) => 'k',
    }
}

} // verus!
