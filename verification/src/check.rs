//! Check detection, and the filter that keeps the pseudo-legal moves which
//! do not leave the mover's own king attacked.

use vstd::prelude::*;
use crate::board::{after_move, piece_at, Board, Grid};
use crate::movegen::{
    all_on_board, enemy_piece_at, lemma_filter_ends, lemma_filter_step, lemma_pseudo_moves_on_board, own_piece_at, pseudo_moves,
};
use crate::piece::{Color, Piece, PieceType};
use crate::square::Square;

verus! {

/// Whether the king of a colour stands on the square.
pub open spec fn is_king_of(grid: Grid, sq: int, color: Color) -> bool {
    piece_at(grid, sq) == Some(Piece { color, kind: PieceType::King })
}

/// Whether `sq` is where the king of a colour is looked for: the square of
/// lowest index that holds one.
pub open spec fn is_king_square(grid: Grid, color: Color, sq: int) -> bool {
    is_king_of(grid, sq, color) && forall|other: int|
        0 <= other < sq ==> !#[trigger] is_king_of(grid, other, color)
}

/// Whether the piece on `sq` is of the other colour and has `target` among
/// its pseudo-legal moves.
pub open spec fn attacks(grid: Grid, sq: int, target: Square, color: Color) -> bool {
    enemy_piece_at(grid, sq, color) && pseudo_moves(grid, sq).contains(target)
}

/// Whether some piece of the other colour attacks `target`.
pub open spec fn attacked(grid: Grid, target: Square, color: Color) -> bool {
    exists|sq: int| 0 <= sq < 128 && #[trigger] attacks(grid, sq, target, color)
}

/// Whether the king of a colour is attacked. A side without a king is not
/// in check.
pub open spec fn in_check(grid: Grid, color: Color) -> bool {
    exists|k: int|
        0 <= k < 128 && #[trigger] is_king_square(grid, color, k) && attacked(grid, k as u8, color)
}

fn find_king(board: &Board, color: Color) -> (r: Option<Square>)
    ensures
        r matches Some(k) ==> is_king_square(board@, color, k as int),
        r is None ==> forall|sq: int| 0 <= sq < 128 ==> !#[trigger] is_king_of(board@, sq, color),
{
    let mut sq: u8 = 0;
    while sq < 128
        invariant
            sq <= 128,
            forall|other: int| 0 <= other < sq ==> !#[trigger] is_king_of(board@, other, color),
        decreases 128 - sq,
    {
        if let Some(piece) = board.get_piece(sq) {
            if piece.kind == PieceType::King && piece.color == color {
                return Some(sq);
            }
        }
        sq += 1;
    }
    None
}

/// Whether a square is in a list.
pub fn contains_square(list: &[Square], sq: Square) -> (r: bool)
    ensures
        r == list@.contains(sq),
{
    let mut i: usize = 0;
    while i < list.len()
        invariant
            i <= list.len(),
            forall|j: int| 0 <= j < i ==> list@[j] != sq,
        decreases list.len() - i,
    {
        if list[i] == sq {
            return true;
        }
        i += 1;
    }
    false
}

/// Whether the king of `color` is attacked by a piece of the other colour.
pub fn is_in_check(board: &Board, color: Color) -> (r: bool)
    ensures
        r == in_check(board@, color),
{
    let king_sq = match find_king(board, color) {
        Some(sq) => sq,
        None => {
            return false;
        },
    };
    assert forall|k: int| 0 <= k < 128 && #[trigger] is_king_square(board@, color, k) implies k
        == king_sq by {
        if k < king_sq {
            assert(!is_king_of(board@, k, color));
        } else if k > king_sq {
            assert(!is_king_of(board@, king_sq as int, color));
        }
    }
    let mut sq: u8 = 0;
    while sq < 128
        invariant
            sq <= 128,
            is_king_square(board@, color, king_sq as int),
            forall|other: int| 0 <= other < sq ==> !#[trigger] attacks(board@, other, king_sq, color),
        decreases 128 - sq,
    {
        if Board::is_valid(sq) {
            if let Some(piece) = board.get_piece(sq) {
                if piece.color != color {
                    let moves = board.generate_pseudo_moves_for_piece(sq);
                    if contains_square(moves.as_slice(), king_sq) {
                        assert(attacks(board@, sq as int, king_sq, color));
                        assert(is_king_square(board@, color, king_sq as int));
                        return true;
                    }
                }
            }
        }
        sq += 1;
    }
    false
}

/// A destination is legal for the piece on `from` when no piece of its own
/// colour stands there and, once it has moved there, its own king is not in
/// check.
pub open spec fn is_legal_target(grid: Grid, from: int, to: Square, color: Color) -> bool {
    !own_piece_at(grid, to as int, color) && !in_check(after_move(grid, from, to as int), color)
}

/// The legal moves of the piece on `from`: its pseudo-legal moves, in the
/// order in which they are generated, without those that are not legal.
pub open spec fn legal_moves(grid: Grid, from: int) -> Seq<Square> {
    match piece_at(grid, from) {
        Some(piece) => pseudo_moves(grid, from).filter(
            |to: u8| is_legal_target(grid, from, to, piece.color),
        ),
        None => Seq::empty(),
    }
}

impl Board {
    /// The legal moves of the piece on `from`, in generation order.
    pub fn generate_legal_moves_for_piece(&self, from: Square) -> (moves: Vec<Square>)
        ensures
            moves@ == legal_moves(self@, from as int),
    {
        let mut legal: Vec<Square> = Vec::new();
        let pseudo = self.generate_pseudo_moves_for_piece(from);
        let moving_piece = match self.get_piece(from) {
            Some(piece) => piece,
            None => {
                return legal;
            },
        };
        let ghost keep = |to: u8| is_legal_target(self@, from as int, to, moving_piece.color);
        proof {
            lemma_pseudo_moves_on_board(self@, from as int);
            lemma_filter_ends(pseudo@, keep);
        }
        let mut i: usize = 0;
        while i < pseudo.len()
            invariant
                i <= pseudo.len(),
                pseudo@ == pseudo_moves(self@, from as int),
                piece_at(self@, from as int) == Some(moving_piece),
                keep == |to: u8| is_legal_target(self@, from as int, to, moving_piece.color),
                all_on_board(pseudo@),
                legal@ == pseudo@.take(i as int).filter(keep),
            decreases pseudo.len() - i,
        {
            let to = pseudo[i];
            proof {
                lemma_filter_step(pseudo@, keep, i as int);
            }
            let own = match self.get_piece(to) {
                Some(target_piece) => target_piece.color == moving_piece.color,
                None => false,
            };
            if !own {
                let mut cloned = self.clone();
                cloned.make_move(from, to);
                if !is_in_check(&cloned, moving_piece.color) {
                    legal.push(to);
                }
            }
            i += 1;
        }
        legal
    }

    /// The legal moves of the piece on `square`.
    pub fn generate_moves_for_square(&self, square: Square) -> (moves: Vec<Square>)
        ensures
            moves@ == legal_moves(self@, square as int),
    {
        self.generate_legal_moves_for_piece(square)
    }
}

} // verus!
