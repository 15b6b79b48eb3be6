//! Static evaluation: material plus piece-square values, seen from one side.

use vstd::prelude::*;
use crate::board::{piece_at, Board, Grid};
use crate::piece::{get_piece_value, Color, Piece, PieceType};
use crate::square::Square;

verus! {

/// Piece-square table of the pawn, from White's side, eighth rank first.
pub const PAWN_PST: [i32; 64] = [
    0, 0, 0, 0, 0, 0, 0, 0,
    50, 50, 50, 50, 50, 50, 50, 50,
    10, 10, 20, 30, 30, 20, 10, 10,
    5, 5, 10, 25, 25, 10, 5, 5,
    0, 0, 0, 20, 20, 0, 0, 0,
    5, -5, -10, 0, 0, -10, -5, 5,
    5, 10, 10, -20, -20, 10, 10, 5,
    0, 0, 0, 0, 0, 0, 0, 0,
];

/// Piece-square table of the knight.
pub const KNIGHT_PST: [i32; 64] = [
    -50, -40, -30, -30, -30, -30, -40, -50,
    -40, -20, 0, 0, 0, 0, -20, -40,
    -30, 0, 10, 15, 15, 10, 0, -30,
    -30, 5, 15, 20, 20, 15, 5, -30,
    -30, 0, 15, 20, 20, 15, 0, -30,
    -30, 5, 10, 15, 15, 10, 5, -30,
    -40, -20, 0, 5, 5, 0, -20, -40,
    -50, -40, -30, -30, -30, -30, -40, -50,
];

/// Piece-square table of the bishop.
pub const BISHOP_PST: [i32; 64] = [
    -20, -10, -10, -10, -10, -10, -10, -20,
    -10, 0, 0, 0, 0, 0, 0, -10,
    -10, 0, 5, 10, 10, 5, 0, -10,
    -10, 5, 5, 10, 10, 5, 5, -10,
    -10, 0, 10, 10, 10, 10, 0, -10,
    -10, 10, 10, 10, 10, 10, 10, -10,
    -10, 5, 0, 0, 0, 0, 5, -10,
    -20, -10, -10, -10, -10, -10, -10, -20,
];

/// Piece-square table of the rook.
pub const ROOK_PST: [i32; 64] = [
    0, 0, 0, 0, 0, 0, 0, 0,
    5, 10, 10, 10, 10, 10, 10, 5,
    -5, 0, 0, 0, 0, 0, 0, -5,
    -5, 0, 0, 0, 0, 0, 0, -5,
    -5, 0, 0, 0, 0, 0, 0, -5,
    -5, 0, 0, 0, 0, 0, 0, -5,
    -5, 0, 0, 0, 0, 0, 0, -5,
    0, 0, 0, 5, 5, 0, 0, 0,
];

/// Piece-square table of the queen.
pub const QUEEN_PST: [i32; 64] = [
    -20, -10, -10, -5, -5, -10, -10, -20,
    -10, 0, 0, 0, 0, 0, 0, -10,
    -10, 0, 5, 5, 5, 5, 0, -10,
    -5, 0, 5, 5, 5, 5, 0, -5,
    0, 0, 5, 5, 5, 5, 0, -5,
    -10, 5, 5, 5, 5, 5, 0, -10,
    -10, 0, 5, 0, 0, 0, 0, -10,
    -20, -10, -10, -5, -5, -10, -10, -20,
];

/// Piece-square table of the king.
pub const KING_PST: [i32; 64] = [
    -30, -40, -40, -50, -50, -40, -40, -30,
    -30, -40, -40, -50, -50, -40, -40, -30,
    -30, -40, -40, -50, -50, -40, -40, -30,
    -30, -40, -40, -50, -50, -40, -40, -30,
    -20, -30, -30, -40, -40, -30, -30, -20,
    -10, -20, -20, -20, -20, -20, -20, -10,
    20, 20, 0, 0, 0, 0, 20, 20,
    20, 30, 10, 0, 0, 10, 30, 20,
];

/// The table of a kind of piece.
pub open spec fn pst_table(kind: PieceType) -> Seq<i32> {
    match kind {
        PieceType::Pawn => PAWN_PST@,
        PieceType::Knight => KNIGHT_PST@,
        PieceType::Bishop => BISHOP_PST@,
        PieceType::Rook => ROOK_PST@,
        PieceType::Queen => QUEEN_PST@,
        PieceType::King => KING_PST@,
    }
}

/// Where a square's value stands in a table: row by rank index and column
/// by file for White, with the ranks mirrored for Black.
pub open spec fn pst_index(sq: int, color: Color) -> int {
    match color {
        Color::White => (sq / 16) * 8 + sq % 8,
        Color::Black => (7 - sq / 16) * 8 + sq % 8,
    }
}

/// Positional value of a piece of a kind and colour on a square.
pub open spec fn pst_value(sq: int, kind: PieceType, color: Color) -> int {
    pst_table(kind)[pst_index(sq, color)] as int
}

/// No table entry is beyond 50 in either direction.
pub proof fn lemma_pst_bounded(kind: PieceType, i: int)
    requires
        0 <= i < 64,
    ensures
        pst_table(kind).len() == 64,
        -50 <= pst_table(kind)[i] <= 50,
{
}

/// Positional value of a piece on a square with an index below 128.
pub fn get_pst_value(square: Square, piece_type: PieceType, color: Color) -> (r: i32)
    requires
        square < 128,
    ensures
        r == pst_value(square as int, piece_type, color),
        -50 <= r <= 50,
{
    let file: u8 = square & 0x7;
    let rank: u8 = square >> 4;
    assert(square & 0x7 == square % 8) by (bit_vector);
    assert(square >> 4 == square / 16) by (bit_vector);
    let idx: usize = if color == Color::White {
        (rank * 8 + file) as usize
    } else {
        ((7 - rank) * 8 + file) as usize
    };
    proof {
        lemma_pst_bounded(piece_type, idx as int);
    }
    match piece_type {
        PieceType::Pawn => PAWN_PST[idx],
        PieceType::Knight => KNIGHT_PST[idx],
        PieceType::Bishop => BISHOP_PST[idx],
        PieceType::Rook => ROOK_PST[idx],
        PieceType::Queen => QUEEN_PST[idx],
        PieceType::King => KING_PST[idx],
    }
}

/// Worth of a piece where it stands: material plus positional value.
pub open spec fn piece_score(piece: Piece, sq: int) -> int {
    piece.kind.value() + pst_value(sq, piece.kind, piece.color)
}

/// What a square adds to the evaluation for `color`: the worth of the piece
/// on it, counted for a piece of that colour and against one of the other.
pub open spec fn square_score(grid: Grid, sq: int, color: Color) -> int {
    match piece_at(grid, sq) {
        Some(piece) => if piece.color == color {
            piece_score(piece, sq)
        } else {
            -piece_score(piece, sq)
        },
        None => 0,
    }
}

/// Sum of the square scores over the first `n` slots.
pub open spec fn score_upto(grid: Grid, color: Color, n: int) -> int
    decreases n,
{
    if n <= 0 {
        0
    } else {
        score_upto(grid, color, n - 1) + square_score(grid, n - 1, color)
    }
}

/// The evaluation of a position for `color`: the sum of the square scores
/// over the whole board.
pub open spec fn evaluation(grid: Grid, color: Color) -> int {
    score_upto(grid, color, 128)
}

/// Largest worth of a piece on a square.
pub open spec fn piece_score_limit() -> int {
    20050
}

/// No evaluation is beyond this in either direction.
pub open spec fn evaluation_limit() -> int {
    128 * piece_score_limit()
}

proof fn lemma_square_score_bounded(grid: Grid, sq: int, color: Color)
    requires
        0 <= sq < 128,
    ensures
        -piece_score_limit() <= square_score(grid, sq, color) <= piece_score_limit(),
{
    match piece_at(grid, sq) {
        Some(piece) => {
            assert(0 <= pst_index(sq, piece.color) < 64);
            lemma_pst_bounded(piece.kind, pst_index(sq, piece.color));
        },
        None => {},
    }
}

proof fn lemma_score_upto_bounded(grid: Grid, color: Color, n: int)
    requires
        0 <= n <= 128,
    ensures
        -n * piece_score_limit() <= score_upto(grid, color, n) <= n * piece_score_limit(),
    decreases n,
{
    if n > 0 {
        lemma_score_upto_bounded(grid, color, n - 1);
        lemma_square_score_bounded(grid, n - 1, color);
    }
}

/// The evaluation stays within its limit.
pub proof fn lemma_evaluation_bounded(grid: Grid, color: Color)
    ensures
        -evaluation_limit() <= evaluation(grid, color) <= evaluation_limit(),
{
    lemma_score_upto_bounded(grid, color, 128);
}

proof fn lemma_score_upto_symmetric(grid: Grid, n: int)
    ensures
        score_upto(grid, Color::White, n) == -score_upto(grid, Color::Black, n),
    decreases n,
{
    if n > 0 {
        lemma_score_upto_symmetric(grid, n - 1);
    }
}

/// The evaluation is zero-sum: what one side has, the other lacks.
pub proof fn lemma_evaluation_symmetric(grid: Grid)
    ensures
        evaluation(grid, Color::White) == -evaluation(grid, Color::Black),
{
    lemma_score_upto_symmetric(grid, 128);
}

/// The same, for a colour and its opponent.
pub proof fn lemma_evaluation_negates(grid: Grid, color: Color)
    ensures
        evaluation(grid, color.other()) == -evaluation(grid, color),
{
    lemma_evaluation_symmetric(grid);
}

/// Material and positional score of the position, seen from `color`.
pub fn evaluate(board: &Board, color: Color) -> (r: i32)
    ensures
        r == evaluation(board@, color),
        -evaluation_limit() <= r <= evaluation_limit(),
{
    let mut score: i32 = 0;
    let mut sq: u8 = 0;
    while sq < 128
        invariant
            sq <= 128,
            score == score_upto(board@, color, sq as int),
        decreases 128 - sq,
    {
        proof {
            lemma_score_upto_bounded(board@, color, sq as int);
            lemma_square_score_bounded(board@, sq as int, color);
        }
        if Board::is_valid(sq) {
            if let Some(piece) = board.get_piece(sq) {
                let value = get_piece_value(piece.kind);
                let piece_value = if piece.color == color {
                    value
                } else {
                    -value
                };
                let pst_value = if piece.color == color {
                    get_pst_value(sq, piece.kind, color)
                } else {
                    -get_pst_value(sq, piece.kind, color.opponent())
                };
                score += piece_value + pst_value;
            }
        }
        sq += 1;
    }
    proof {
        lemma_evaluation_bounded(board@, color);
    }
    score
}

} // verus!
