//! The board: 128 slots addressed by 0x88 squares, of which the 64 with a
//! file and a rank below 8 are the chessboard.

use vstd::prelude::*;
use crate::piece::{Color, Piece, PieceType};
use crate::square::{lemma_mask_is_on_board, on_board, Square};

verus! {

/// A position as the contracts see it: what stands in each of the 128 slots.
pub type Grid = Seq<Option<Piece>>;

/// What stands on a square; nothing stands off the board.
pub open spec fn piece_at(grid: Grid, sq: int) -> Option<Piece> {
    if on_board(sq) {
        grid[sq]
    } else {
        None
    }
}

/// The position with no piece in any slot.
pub open spec fn empty_grid() -> Grid {
    Seq::new(128, |i: int| None::<Piece>)
}

/// A move can be carried out when both squares are on the board and a piece
/// stands on the first.
pub open spec fn can_move(grid: Grid, from: int, to: int) -> bool {
    on_board(from) && on_board(to) && grid[from] is Some
}

/// The position after the piece on `from` has gone to `to`, replacing
/// whatever stood there.
pub open spec fn after_move(grid: Grid, from: int, to: int) -> Grid {
    grid.update(to, grid[from]).update(from, None)
}

/// Kind of the piece that starts on a file of the back rank.
pub open spec fn back_rank_kind(file: int) -> PieceType {
    if file == 0 || file == 7 {
        PieceType::Rook
    } else if file == 1 || file == 6 {
        PieceType::Knight
    } else if file == 2 || file == 5 {
        PieceType::Bishop
    } else if file == 3 {
        PieceType::Queen
    } else {
        PieceType::King
    }
}

/// The piece that the starting position puts on a square, if any: Black on
/// the two ranks of lowest index, White on the two of highest.
pub open spec fn starting_piece(sq: int) -> Option<Piece> {
    if !on_board(sq) {
        None
    } else if sq / 16 == 0 {
        Some(Piece { color: Color::Black, kind: back_rank_kind(sq % 16) })
    } else if sq / 16 == 1 {
        Some(Piece { color: Color::Black, kind: PieceType::Pawn })
    } else if sq / 16 == 6 {
        Some(Piece { color: Color::White, kind: PieceType::Pawn })
    } else if sq / 16 == 7 {
        Some(Piece { color: Color::White, kind: back_rank_kind(sq % 16) })
    } else {
        None
    }
}

/// The board, a plain value: no history and no links between pieces.
pub struct Board {
    pub squares: [Option<Piece>; 128],
}

impl View for Board {
    type V = Grid;

    open spec fn view(&self) -> Grid {
        self.squares@
    }
}

impl Clone for Board {
    fn clone(&self) -> (r: Self)
        ensures
            r@ == self@,
    {
        Board { squares: self.squares }
    }
}

impl Board {
    /// An empty board.
    pub fn new() -> (r: Self)
        ensures
            r@ == empty_grid(),
    {
        let r = Board { squares: [None; 128] };
        assert(r@ =~= empty_grid());
        r
    }

    /// Whether a square index lies on the board.
    pub fn is_valid(square: Square) -> (r: bool)
        ensures
            r == on_board(square as int),
            r == (square & 0x88 == 0),
    {
        proof {
            lemma_mask_is_on_board(square);
        }
        square & 0x88 == 0
    }

    /// Puts a piece on a square, replacing what stood there; does nothing
    /// for a square off the board.
    pub fn set_piece(&mut self, square: Square, piece: Piece)
        ensures
            on_board(square as int) ==> final(self)@ == old(self)@.update(square as int, Some(piece)),
            !on_board(square as int) ==> final(self)@ == old(self)@,
    {
        if Self::is_valid(square) {
            self.squares[square as usize] = Some(piece);
        }
    }

    /// The piece on a square, if the square is on the board and occupied.
    pub fn get_piece(&self, square: Square) -> (r: Option<Piece>)
        ensures
            r == piece_at(self@, square as int),
    {
        if Self::is_valid(square) {
            self.squares[square as usize]
        } else {
            None
        }
    }

    /// Moves whatever stands on `from` to `to` and empties `from`, without
    /// asking whether the move is legal. Returns `false`, and changes
    /// nothing, when a square is off the board or `from` is empty.
    pub fn make_move(&mut self, from: Square, to: Square) -> (r: bool)
        ensures
            r == can_move(old(self)@, from as int, to as int),
            r ==> final(self)@ == after_move(old(self)@, from as int, to as int),
            !r ==> final(self)@ == old(self)@,
    {
        if !Self::is_valid(from) || !Self::is_valid(to) {
            return false;
        }
        if let Some(piece) = self.get_piece(from) {
            self.squares[to as usize] = Some(piece);
            self.squares[from as usize] = None;
            true
        } else {
            false
        }
    }

    /// Puts the thirty-two pieces on their starting squares. Whatever stands
    /// on the four ranks in between is left where it is.
    pub fn setup_starting_position(&mut self)
        ensures
            forall|sq: int|
                0 <= sq < 128 ==> #[trigger] final(self)@[sq] == (if starting_piece(sq) is Some {
                    starting_piece(sq)
                } else {
                    old(self)@[sq]
                }),
    {
        let back = [
            PieceType::Rook,
            PieceType::Knight,
            PieceType::Bishop,
            PieceType::Queen,
            PieceType::King,
            PieceType::Bishop,
            PieceType::Knight,
            PieceType::Rook,
        ];
        let mut i: u8 = 0;
        while i < 8
            invariant
                i <= 8,
                forall|f: int| 0 <= f < 8 ==> #[trigger] back@[f] == back_rank_kind(f),
                forall|sq: int|
                    0 <= sq < 128 ==> #[trigger] self@[sq] == (if sq / 16 >= 6 && sq % 16 < i {
                        starting_piece(sq)
                    } else {
                        old(self)@[sq]
                    }),
            decreases 8 - i,
        {
            self.set_piece(0x70 + i, Piece { color: Color::White, kind: back[i as usize] });
            self.set_piece(0x60 + i, Piece { color: Color::White, kind: PieceType::Pawn });
            i += 1;
        }
        let ghost white_done = self@;
        let mut i: u8 = 0;
        while i < 8
            invariant
                i <= 8,
                forall|f: int| 0 <= f < 8 ==> #[trigger] back@[f] == back_rank_kind(f),
                forall|sq: int|
                    0 <= sq < 128 ==> #[trigger] self@[sq] == (if sq / 16 <= 1 && sq % 16 < i {
                        starting_piece(sq)
                    } else {
                        white_done[sq]
                    }),
            decreases 8 - i,
        {
            self.set_piece(0x00 + i, Piece { color: Color::Black, kind: back[i as usize] });
            self.set_piece(0x10 + i, Piece { color: Color::Black, kind: PieceType::Pawn });
            i += 1;
        }
    }
}

/// Number of occupied squares among the first `n` slots, counting only
/// squares on the board.
pub open spec fn count_upto(grid: Grid, n: int) -> int
    decreases n,
{
    if n <= 0 {
        0
    } else {
        count_upto(grid, n - 1) + if piece_at(grid, n - 1) is Some {
            1int
        } else {
            0int
        }
    }
}

/// Number of pieces on the board.
pub open spec fn piece_count(grid: Grid) -> int {
    count_upto(grid, 128)
}

proof fn lemma_count_update(grid: Grid, sq: int, value: Option<Piece>, n: int)
    requires
        grid.len() == 128,
        on_board(sq),
        0 <= n <= 128,
    ensures
        count_upto(grid.update(sq, value), n) == count_upto(grid, n) + if sq < n {
            (if value is Some {
                1int
            } else {
                0int
            }) - (if grid[sq] is Some {
                1int
            } else {
                0int
            })
        } else {
            0int
        },
    decreases n,
{
    if n > 0 {
        lemma_count_update(grid, sq, value, n - 1);
    }
}

/// A capture takes exactly one piece off the board: the mover stands on the
/// destination, its old square is empty, every other square is as it was,
/// and the number of pieces has gone down by one.
pub proof fn lemma_capture_removes_one(grid: Grid, from: int, to: int)
    requires
        grid.len() == 128,
        can_move(grid, from, to),
        from != to,
        grid[to] is Some,
    ensures
        piece_at(after_move(grid, from, to), to) == grid[from],
        piece_at(after_move(grid, from, to), from) is None,
        forall|sq: int|
            0 <= sq < 128 && sq != from && sq != to ==> after_move(grid, from, to)[sq] == grid[sq],
        piece_count(after_move(grid, from, to)) == piece_count(grid) - 1,
{
    lemma_count_update(grid, to, grid[from], 128);
    lemma_count_update(grid.update(to, grid[from]), from, None, 128);
}

/// A move to an empty square keeps the number of pieces.
pub proof fn lemma_quiet_move_keeps_count(grid: Grid, from: int, to: int)
    requires
        grid.len() == 128,
        can_move(grid, from, to),
        grid[to] is None,
    ensures
        piece_at(after_move(grid, from, to), to) == grid[from],
        piece_at(after_move(grid, from, to), from) is None,
        piece_count(after_move(grid, from, to)) == piece_count(grid),
{
    lemma_count_update(grid, to, grid[from], 128);
    lemma_count_update(grid.update(to, grid[from]), from, None, 128);
}

} // verus!
