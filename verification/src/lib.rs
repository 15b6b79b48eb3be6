//! A small chess engine core on an 0x88 board: board model, pseudo-legal and
//! legal move generation, check detection, static evaluation, and a
//! fixed-depth negamax search with alpha-beta pruning.
//!
//! Every executable function carries a contract over the mathematical model
//! of a position, a sequence of 128 optional pieces indexed by square.

pub mod board;
pub mod check;
pub mod eval;
pub mod minimax;
pub mod movegen;
pub mod ordering;
pub mod piece;
pub mod render;
pub mod search;
pub mod square;

pub use board::Board;
pub use check::{contains_square, is_in_check};
pub use eval::{evaluate, get_pst_value};
pub use movegen::{
    generate_bishop_moves, generate_king_moves, generate_knight_moves, generate_pawn_moves,
    generate_queen_moves, generate_rook_moves,
};
pub use ordering::{get_moves_with_scores, sort_moves_by_score, Move};
pub use piece::{get_mvv_lva_score, get_piece_value, piece_char, Color, Piece, PieceType};
pub use search::{find_best_move, find_best_move_at_depth, negamax, MAX_DEPTH};
pub use square::{coords_to_square, square_to_coords, Square};
