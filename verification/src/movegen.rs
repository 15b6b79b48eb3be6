//! Pseudo-legal move generation: the squares a piece can reach by its
//! geometry alone, whether or not its own king is then left in check.

use vstd::prelude::*;
use crate::board::{piece_at, Board, Grid};
use crate::piece::{Color, Piece, PieceType};
use crate::square::{file_of, on_board, rank_of, Square};

verus! {

/// The eight knight jumps, as index offsets on the 0x88 board.
pub const KNIGHT_OFFSETS: [i8; 8] = [-33, -31, -18, -14, 14, 18, 31, 33];

/// The eight king steps, as index offsets on the 0x88 board.
pub const KING_OFFSETS: [i8; 8] = [-17, -15, -16, -1, 1, 15, 16, 17];

/// The index reached from `from` by an offset. Indices are bytes, so the
/// sum wraps around modulo 256.
pub open spec fn shifted(from: int, delta: int) -> int {
    (from + delta) % 256
}

/// From a square of the board, an offset of up to two ranks and two files
/// leads to the square that many ranks and files away if there is one, and
/// to an index off the board if there is none: a step over an edge never
/// comes back in on the other side.
pub proof fn lemma_shifted_is_geometric(from: int, ranks: int, files: int)
    requires
        on_board(from),
        -2 <= ranks <= 2,
        -2 <= files <= 2,
    ensures
        on_board(shifted(from, 16 * ranks + files)) <==> 0 <= rank_of(from) + ranks < 8 && 0
            <= file_of(from) + files < 8,
        on_board(shifted(from, 16 * ranks + files)) ==> rank_of(shifted(from, 16 * ranks + files))
            == rank_of(from) + ranks && file_of(shifted(from, 16 * ranks + files)) == file_of(from)
            + files,
{
}

/// Whether a piece of the given colour stands on the square.
pub open spec fn own_piece_at(grid: Grid, sq: int, color: Color) -> bool {
    piece_at(grid, sq) matches Some(p) && p.color == color
}

/// Whether a piece of the other colour stands on the square.
pub open spec fn enemy_piece_at(grid: Grid, sq: int, color: Color) -> bool {
    piece_at(grid, sq) matches Some(p) && p.color != color
}

/// A knight or king may land on a board square that holds no piece of its
/// own colour.
pub open spec fn can_land(grid: Grid, to: int, color: Color) -> bool {
    on_board(to) && !own_piece_at(grid, to, color)
}

/// The squares that the offsets lead to from `from`, in the order of the
/// offsets, keeping those a piece of the given colour may land on.
pub open spec fn leaps(grid: Grid, from: int, color: Color, offsets: Seq<i8>) -> Seq<Square> {
    offsets.map_values(|d: i8| shifted(from, d as int) as u8).filter(
        |to: u8| can_land(grid, to as int, color),
    )
}

/// Taking one more element into a filtered prefix either appends it or
/// changes nothing.
pub proof fn lemma_filter_step<A>(s: Seq<A>, pred: spec_fn(A) -> bool, i: int)
    requires
        0 <= i < s.len(),
    ensures
        s.take(i + 1).filter(pred) == if pred(s[i]) {
            s.take(i).filter(pred).push(s[i])
        } else {
            s.take(i).filter(pred)
        },
{
    reveal(Seq::filter);
    assert(s.take(i + 1).drop_last() =~= s.take(i));
}

/// The empty prefix filters to nothing, and the full prefix is the whole
/// sequence.
pub proof fn lemma_filter_ends<A>(s: Seq<A>, pred: spec_fn(A) -> bool)
    ensures
        s.take(0).filter(pred) == Seq::<A>::empty(),
        s.take(s.len() as int) == s,
{
    reveal(Seq::filter);
    assert(s.take(0) =~= Seq::<A>::empty());
    assert(s.take(s.len() as int) =~= s);
}

fn offset_square(from: Square, delta: i16) -> (r: Square)
    requires
        -128 <= delta <= 128,
    ensures
        r == shifted(from as int, delta as int),
{
    let t: i16 = from as i16 + delta;
    if t < 0 {
        (t + 256) as u8
    } else if t > 255 {
        (t - 256) as u8
    } else {
        t as u8
    }
}

fn generate_leaps(board: &Board, from: Square, color: Color, offsets: &[i8; 8]) -> (moves: Vec<Square>)
    ensures
        moves@ == leaps(board@, from as int, color, offsets@),
{
    let mut moves: Vec<Square> = Vec::new();
    let ghost targets = offsets@.map_values(|d: i8| shifted(from as int, d as int) as u8);
    let ghost keep = |to: u8| can_land(board@, to as int, color);
    let mut i: usize = 0;
    proof {
        lemma_filter_ends(targets, keep);
    }
    while i < 8
        invariant
            i <= 8,
            targets == offsets@.map_values(|d: i8| shifted(from as int, d as int) as u8),
            keep == |to: u8| can_land(board@, to as int, color),
            moves@ == targets.take(i as int).filter(keep),
        decreases 8 - i,
    {
        let to = offset_square(from, offsets[i] as i16);
        proof {
            lemma_filter_step(targets, keep, i as int);
        }
        if Board::is_valid(to) {
            match board.get_piece(to) {
                Some(target) if target.color == color => {},
                _ => moves.push(to),
            }
        }
        i += 1;
    }
    moves
}

/// Squares a knight on `from` can jump to; empty when no piece stands there.
pub open spec fn knight_moves(grid: Grid, from: int) -> Seq<Square> {
    match piece_at(grid, from) {
        Some(piece) => leaps(grid, from, piece.color, KNIGHT_OFFSETS@),
        None => Seq::empty(),
    }
}

/// Squares a king of the given colour on `from` can step to.
pub open spec fn king_moves(grid: Grid, from: int, color: Color) -> Seq<Square> {
    leaps(grid, from, color, KING_OFFSETS@)
}

/// Knight moves of the piece on `from`, in the order of the offset table.
pub fn generate_knight_moves(board: &Board, from: Square) -> (moves: Vec<Square>)
    ensures
        moves@ == knight_moves(board@, from as int),
{
    match board.get_piece(from) {
        Some(piece) => generate_leaps(board, from, piece.color, &KNIGHT_OFFSETS),
        None => Vec::new(),
    }
}

/// King moves from `from` for the given colour, in the order of the offset
/// table.
pub fn generate_king_moves(board: &Board, from: Square, color: Color) -> (moves: Vec<Square>)
    ensures
        moves@ == king_moves(board@, from as int, color),
{
    generate_leaps(board, from, color, &KING_OFFSETS)
}

/// Direction in which pawns of a colour advance: White toward rank index 0.
pub open spec fn pawn_direction(color: Color) -> int {
    match color {
        Color::White => -16,
        Color::Black => 16,
    }
}

/// Rank index on which pawns of a colour start.
pub open spec fn pawn_start_rank(color: Color) -> int {
    match color {
        Color::White => 6,
        Color::Black => 1,
    }
}

/// The diagonal capture by `delta`, if a piece of the other colour stands
/// there.
pub open spec fn pawn_capture(grid: Grid, from: int, color: Color, delta: int) -> Seq<Square> {
    let to = shifted(from, delta);
    if enemy_piece_at(grid, to, color) {
        seq![to as u8]
    } else {
        Seq::empty()
    }
}

/// The advances: one step onto an empty square, and from the starting rank
/// a second step if that square is empty too.
pub open spec fn pawn_advances(grid: Grid, from: int, color: Color) -> Seq<Square> {
    let one = shifted(from, pawn_direction(color));
    let two = shifted(from, 2 * pawn_direction(color));
    if on_board(one) && grid[one] is None {
        if from / 16 == pawn_start_rank(color) && piece_at(grid, two) is None {
            seq![one as u8, two as u8]
        } else {
            seq![one as u8]
        }
    } else {
        Seq::empty()
    }
}

/// Squares a pawn of the given colour on `from` can go to: the two
/// captures first, then the advances.
pub open spec fn pawn_moves(grid: Grid, from: int, color: Color) -> Seq<Square> {
    pawn_capture(grid, from, color, pawn_direction(color) - 1) + pawn_capture(
        grid,
        from,
        color,
        pawn_direction(color) + 1,
    ) + pawn_advances(grid, from, color)
}

/// Pawn moves from `from` for the given colour. There is no en-passant
/// capture and no promotion.
pub fn generate_pawn_moves(board: &Board, from: Square, color: Color) -> (moves: Vec<Square>)
    ensures
        moves@ == pawn_moves(board@, from as int, color),
{
    let mut moves: Vec<Square> = Vec::new();
    let dir: i16 = if color == Color::White {
        -16
    } else {
        16
    };
    let start_rank: u8 = if color == Color::White {
        6
    } else {
        1
    };
    let rank: u8 = from >> 4;
    assert(from >> 4 == from / 16) by (bit_vector);

    let left = offset_square(from, dir - 1);
    if Board::is_valid(left) {
        if let Some(target) = board.get_piece(left) {
            if target.color != color {
                moves.push(left);
            }
        }
    }
    assert(moves@ =~= pawn_capture(board@, from as int, color, pawn_direction(color) - 1));
    let right = offset_square(from, dir + 1);
    if Board::is_valid(right) {
        if let Some(target) = board.get_piece(right) {
            if target.color != color {
                moves.push(right);
            }
        }
    }
    let ghost captures = moves@;
    assert(captures =~= pawn_capture(board@, from as int, color, pawn_direction(color) - 1)
        + pawn_capture(board@, from as int, color, pawn_direction(color) + 1));

    let one_step = offset_square(from, dir);
    if Board::is_valid(one_step) && board.get_piece(one_step).is_none() {
        moves.push(one_step);
        if rank == start_rank {
            let two_step = offset_square(from, 2 * dir);
            if board.get_piece(two_step).is_none() {
                moves.push(two_step);
            }
        }
    }
    assert(moves@ =~= captures + pawn_advances(board@, from as int, color));
    moves
}

/// Whether an offset is one of the eight directions a rook or bishop
/// slides in.
pub open spec fn is_direction(dir: int) -> bool {
    dir == 1 || dir == -1 || dir == 16 || dir == -16 || dir == 15 || dir == -15 || dir == 17 || dir
        == -17
}

/// An upper bound on the number of further steps that stay on the board
/// when sliding from an index in a direction.
pub open spec fn room(cur: int, dir: int) -> int {
    if !on_board(cur) {
        8
    } else if dir == 1 || dir == 17 || dir == -15 {
        7 - cur % 16
    } else if dir == -1 || dir == -17 || dir == 15 {
        cur % 16
    } else if dir == 16 {
        7 - cur / 16
    } else {
        cur / 16
    }
}

/// Each step of a slide that stays on the board uses up room.
pub proof fn lemma_room_decreases(cur: int, dir: int)
    requires
        is_direction(dir),
        0 <= cur < 256,
        on_board(shifted(cur, dir)),
    ensures
        0 <= room(shifted(cur, dir), dir) < room(cur, dir),
{
}

/// The squares of one ray, nearest first: from the square after `cur` on in
/// the direction `dir`, up to the edge of the board or the first piece. A
/// piece of the other colour ends the ray and is part of it; one of the
/// mover's colour ends it and is not.
pub open spec fn ray(grid: Grid, cur: int, dir: int, color: Color) -> Seq<Square>
    decreases room(cur, dir),
{
    let next = shifted(cur, dir);
    if !is_direction(dir) || !(0 <= cur < 256) || !on_board(next) {
        Seq::empty()
    } else {
        proof {
            lemma_room_decreases(cur, dir);
        }
        match grid[next] {
            Some(piece) => if piece.color == color {
                Seq::empty()
            } else {
                seq![next as u8]
            },
            None => seq![next as u8] + ray(grid, next, dir, color),
        }
    }
}

fn extend_ray(board: &Board, from: Square, dir: i16, color: Color, moves: &mut Vec<Square>)
    requires
        is_direction(dir as int),
    ensures
        final(moves)@ == old(moves)@ + ray(board@, from as int, dir as int, color),
{
    let mut current: Square = from;
    let ghost goal = moves@ + ray(board@, from as int, dir as int, color);
    loop
        invariant_except_break
            goal == moves@ + ray(board@, current as int, dir as int, color),
        invariant
            is_direction(dir as int),
        ensures
            goal == moves@,
        decreases room(current as int, dir as int),
    {
        let next = offset_square(current, dir);
        if !Board::is_valid(next) {
            assert(goal =~= moves@);
            break;
        }
        proof {
            lemma_room_decreases(current as int, dir as int);
        }
        match board.get_piece(next) {
            Some(piece) if piece.color == color => {
                assert(goal =~= moves@);
                break;
            },
            Some(_) => {
                moves.push(next);
                assert(goal =~= moves@);
                break;
            },
            None => {
                moves.push(next);
                assert(goal =~= moves@ + ray(board@, next as int, dir as int, color));
            },
        }
        current = next;
    }
}

/// Squares a rook of the given colour on `from` can slide to: the rays by
/// +16, -16, +1 and -1, in that order.
pub open spec fn rook_moves(grid: Grid, from: int, color: Color) -> Seq<Square> {
    ray(grid, from, 16, color) + ray(grid, from, -16, color) + ray(grid, from, 1, color) + ray(
        grid,
        from,
        -1,
        color,
    )
}

/// Squares a bishop of the given colour on `from` can slide to: the rays by
/// +17, +15, -17 and -15, in that order.
pub open spec fn bishop_moves(grid: Grid, from: int, color: Color) -> Seq<Square> {
    ray(grid, from, 17, color) + ray(grid, from, 15, color) + ray(grid, from, -17, color) + ray(
        grid,
        from,
        -15,
        color,
    )
}

/// Squares a queen of the given colour on `from` can slide to: the rook's,
/// then the bishop's.
pub open spec fn queen_moves(grid: Grid, from: int, color: Color) -> Seq<Square> {
    rook_moves(grid, from, color) + bishop_moves(grid, from, color)
}

/// Rook moves from `from` for the given colour, ray by ray.
pub fn generate_rook_moves(board: &Board, from: Square, color: Color) -> (moves: Vec<Square>)
    ensures
        moves@ == rook_moves(board@, from as int, color),
{
    let mut moves: Vec<Square> = Vec::new();
    extend_ray(board, from, 16, color, &mut moves);
    extend_ray(board, from, -16, color, &mut moves);
    extend_ray(board, from, 1, color, &mut moves);
    extend_ray(board, from, -1, color, &mut moves);
    assert(moves@ =~= rook_moves(board@, from as int, color));
    moves
}

/// Bishop moves from `from` for the given colour, ray by ray.
pub fn generate_bishop_moves(board: &Board, from: Square, color: Color) -> (moves: Vec<Square>)
    ensures
        moves@ == bishop_moves(board@, from as int, color),
{
    let mut moves: Vec<Square> = Vec::new();
    extend_ray(board, from, 17, color, &mut moves);
    extend_ray(board, from, 15, color, &mut moves);
    extend_ray(board, from, -17, color, &mut moves);
    extend_ray(board, from, -15, color, &mut moves);
    assert(moves@ =~= bishop_moves(board@, from as int, color));
    moves
}

/// Queen moves from `from` for the given colour: the rook's rays, then the
/// bishop's.
pub fn generate_queen_moves(board: &Board, from: Square, color: Color) -> (moves: Vec<Square>)
    ensures
        moves@ == queen_moves(board@, from as int, color),
{
    let mut moves: Vec<Square> = Vec::new();
    let mut straight = generate_rook_moves(board, from, color);
    let mut diagonal = generate_bishop_moves(board, from, color);
    moves.append(&mut straight);
    moves.append(&mut diagonal);
    assert(moves@ =~= queen_moves(board@, from as int, color));
    moves
}

/// The pseudo-legal moves of whatever stands on a square; none for an empty
/// square or one off the board.
pub open spec fn pseudo_moves(grid: Grid, sq: int) -> Seq<Square> {
    match piece_at(grid, sq) {
        Some(piece) => match piece.kind {
            PieceType::Knight => knight_moves(grid, sq),
            PieceType::Pawn => pawn_moves(grid, sq, piece.color),
            PieceType::King => king_moves(grid, sq, piece.color),
            PieceType::Rook => rook_moves(grid, sq, piece.color),
            PieceType::Bishop => bishop_moves(grid, sq, piece.color),
            PieceType::Queen => queen_moves(grid, sq, piece.color),
        },
        None => Seq::empty(),
    }
}

impl Board {
    /// The pseudo-legal moves of the piece on `square`.
    pub fn generate_pseudo_moves_for_piece(&self, square: Square) -> (moves: Vec<Square>)
        ensures
            moves@ == pseudo_moves(self@, square as int),
    {
        match self.get_piece(square) {
            Some(Piece { color, kind }) => match kind {
                PieceType::Knight => generate_knight_moves(self, square),
                PieceType::Pawn => generate_pawn_moves(self, square, color),
                PieceType::King => generate_king_moves(self, square, color),
                PieceType::Rook => generate_rook_moves(self, square, color),
                PieceType::Bishop => generate_bishop_moves(self, square, color),
                PieceType::Queen => generate_queen_moves(self, square, color),
            },
            None => Vec::new(),
        }
    }
}

/// Whether every square of a list lies on the board.
pub open spec fn all_on_board(squares: Seq<Square>) -> bool {
    forall|i: int| 0 <= i < squares.len() ==> on_board(#[trigger] squares[i] as int)
}

proof fn lemma_leaps_on_board(grid: Grid, from: int, color: Color, offsets: Seq<i8>)
    ensures
        all_on_board(leaps(grid, from, color, offsets)),
{
    broadcast use Seq::lemma_filter_pred;

}

proof fn lemma_ray_on_board(grid: Grid, cur: int, dir: int, color: Color)
    ensures
        all_on_board(ray(grid, cur, dir, color)),
    decreases room(cur, dir),
{
    let next = shifted(cur, dir);
    if is_direction(dir) && 0 <= cur < 256 && on_board(next) {
        lemma_room_decreases(cur, dir);
        if grid[next] is None {
            lemma_ray_on_board(grid, next, dir, color);
            let rest = ray(grid, next, dir, color);
            assert forall|i: int| 0 <= i < ray(grid, cur, dir, color).len() implies on_board(
                #[trigger] ray(grid, cur, dir, color)[i] as int,
            ) by {
                if i > 0 {
                    assert(ray(grid, cur, dir, color)[i] == rest[i - 1]);
                }
            }
        }
    }
}

proof fn lemma_rook_moves_on_board(grid: Grid, from: int, color: Color)
    ensures
        all_on_board(rook_moves(grid, from, color)),
{
    lemma_ray_on_board(grid, from, 16, color);
    lemma_ray_on_board(grid, from, -16, color);
    lemma_ray_on_board(grid, from, 1, color);
    lemma_ray_on_board(grid, from, -1, color);
}

proof fn lemma_bishop_moves_on_board(grid: Grid, from: int, color: Color)
    ensures
        all_on_board(bishop_moves(grid, from, color)),
{
    lemma_ray_on_board(grid, from, 17, color);
    lemma_ray_on_board(grid, from, 15, color);
    lemma_ray_on_board(grid, from, -17, color);
    lemma_ray_on_board(grid, from, -15, color);
}

proof fn lemma_pawn_moves_on_board(grid: Grid, from: int, color: Color)
    requires
        0 <= from < 256,
    ensures
        all_on_board(pawn_moves(grid, from, color)),
{
}

/// Every pseudo-legal destination is a square of the board.
pub proof fn lemma_pseudo_moves_on_board(grid: Grid, sq: int)
    ensures
        all_on_board(pseudo_moves(grid, sq)),
{
    match piece_at(grid, sq) {
        Some(piece) => {
            match piece.kind {
                PieceType::Knight => lemma_leaps_on_board(grid, sq, piece.color, KNIGHT_OFFSETS@),
                PieceType::King => lemma_leaps_on_board(grid, sq, piece.color, KING_OFFSETS@),
                PieceType::Pawn => lemma_pawn_moves_on_board(grid, sq, piece.color),
                PieceType::Rook => lemma_rook_moves_on_board(grid, sq, piece.color),
                PieceType::Bishop => lemma_bishop_moves_on_board(grid, sq, piece.color),
                PieceType::Queen => {
                    lemma_rook_moves_on_board(grid, sq, piece.color);
                    lemma_bishop_moves_on_board(grid, sq, piece.color);
                },
            }
        },
        None => {},
    }
}

} // verus!
