//! Fixed-depth search: negamax with alpha-beta pruning over the ordered
//! legal moves, and the choice of a move at the root.

use vstd::prelude::*;
use crate::board::{after_move, Board, Grid};
use crate::check::{in_check, is_in_check};
use crate::eval::{evaluate, evaluation, lemma_evaluation_bounded};
use crate::minimax::{
    brackets, is_first_best_choice, lemma_best_move_is_first_best, lemma_search_brackets_minimax,
    minimax_value,
};
use crate::ordering::{
    get_moves_with_scores, has_legal_move, is_legal_move, lemma_legal_move_is_safe,
    lemma_ordered_move_is_legal, lemma_ordered_moves_are_the_legal_moves, ordered_moves, Move,
};
use crate::piece::Color;
use crate::square::{on_board, Square};

verus! {

/// Depth, in plies, to which the engine searches.
pub const MAX_DEPTH: i32 = 4;

/// The widest bound of a search window: a fresh search runs in the window
/// from `-INFINITY` to `INFINITY`, which every minimax value lies inside.
pub const INFINITY: i32 = i32::MAX;

/// Score of a side that is checkmated: worse than any evaluation, and not
/// the score of a stalemate, which is 0.
pub const MATE_SCORE: i32 = -(i32::MAX - 1);

/// The larger of two integers.
pub open spec fn larger(a: int, b: int) -> int {
    if a >= b {
        a
    } else {
        b
    }
}

/// Value of a position for the side to move, searched `depth` plies deep
/// in the window from `alpha` to `beta`. At depth 0 it is the evaluation;
/// without a legal move it is the mate score in check and 0 otherwise;
/// else the moves are tried in order.
pub open spec fn search_value(grid: Grid, depth: nat, alpha: int, beta: int, color: Color) -> int
    decreases depth, 1nat, 0nat,
{
    if depth == 0 {
        evaluation(grid, color)
    } else {
        let moves = ordered_moves(grid, color);
        if moves.len() == 0 {
            if in_check(grid, color) {
                MATE_SCORE as int
            } else {
                0
            }
        } else {
            scan_value(grid, depth, moves, 0, alpha, beta, -INFINITY, color)
        }
    }
}

/// Value found by trying the moves from the `i`-th on, `best` being the
/// best score so far and `alpha` the lower bound raised by it. Each move is
/// answered by the opponent's search one ply less deep in the mirrored
/// window. As soon as `alpha` reaches `beta` the scan stops with `alpha`.
pub open spec fn scan_value(
    grid: Grid,
    depth: nat,
    moves: Seq<Move>,
    i: int,
    alpha: int,
    beta: int,
    best: int,
    color: Color,
) -> int
    decreases depth, 0nat, moves.len() - i,
{
    if depth == 0 || i < 0 || i >= moves.len() {
        best
    } else {
        let score = reply_score(grid, depth, moves[i], alpha, beta, color);
        if larger(alpha, score) >= beta {
            larger(alpha, score)
        } else {
            scan_value(
                grid,
                depth,
                moves,
                i + 1,
                larger(alpha, score),
                beta,
                larger(best, score),
                color,
            )
        }
    }
}

/// Score of a move for the side that makes it: the negated value of the
/// position it leads to, searched for the opponent one ply less deep in
/// the window from `-beta` to `-alpha`.
pub open spec fn reply_score(
    grid: Grid,
    depth: nat,
    mv: Move,
    alpha: int,
    beta: int,
    color: Color,
) -> int
    decreases depth, 0nat, 0nat,
{
    if depth == 0 {
        0
    } else {
        -search_value(
            after_move(grid, mv.from as int, mv.to as int),
            (depth - 1) as nat,
            -beta,
            -alpha,
            color.other(),
        )
    }
}

/// The smaller of two integers.
pub open spec fn smaller(a: int, b: int) -> int {
    if a <= b {
        a
    } else {
        b
    }
}

/// Whether a bound of a search window can be negated without leaving the
/// range of scores.
pub open spec fn is_window_bound(x: int) -> bool {
    -INFINITY <= x <= INFINITY
}

/// A search value lies between the mate score and its negation, unless the
/// window itself forces it further out: it never exceeds the larger of
/// `alpha` and `INFINITY - 1`, and never falls below the smaller of `beta`
/// and the mate score.
pub proof fn lemma_search_value_bounded(
    grid: Grid,
    depth: nat,
    alpha: int,
    beta: int,
    color: Color,
)
    requires
        is_window_bound(alpha),
        is_window_bound(beta),
    ensures
        smaller(beta, MATE_SCORE as int) <= search_value(grid, depth, alpha, beta, color) <= larger(
            alpha,
            INFINITY - 1,
        ),
    decreases depth, 1nat, 0nat,
{
    if depth == 0 {
        lemma_evaluation_bounded(grid, color);
    } else {
        let moves = ordered_moves(grid, color);
        if moves.len() > 0 {
            lemma_scan_value_bounded(grid, depth, moves, 0, alpha, beta, -INFINITY, color);
        }
    }
}

proof fn lemma_scan_value_bounded(
    grid: Grid,
    depth: nat,
    moves: Seq<Move>,
    i: int,
    alpha: int,
    beta: int,
    best: int,
    color: Color,
)
    requires
        depth > 0,
        0 <= i <= moves.len(),
        is_window_bound(alpha),
        is_window_bound(beta),
        -INFINITY <= best <= larger(alpha, INFINITY - 1),
        i < moves.len() || smaller(beta, MATE_SCORE as int) <= best,
    ensures
        smaller(beta, MATE_SCORE as int) <= scan_value(
            grid,
            depth,
            moves,
            i,
            alpha,
            beta,
            best,
            color,
        ) <= larger(alpha, INFINITY - 1),
    decreases depth, 0nat, moves.len() - i,
{
    if i < moves.len() {
        let score = reply_score(grid, depth, moves[i], alpha, beta, color);
        lemma_search_value_bounded(
            after_move(grid, moves[i].from as int, moves[i].to as int),
            (depth - 1) as nat,
            -beta,
            -alpha,
            color.other(),
        );
        if larger(alpha, score) < beta {
            lemma_scan_value_bounded(
                grid,
                depth,
                moves,
                i + 1,
                larger(alpha, score),
                beta,
                larger(best, score),
                color,
            );
        }
    }
}

/// A side to move without a legal move is checkmated when in check and
/// stalemated otherwise, and the two scores differ.
pub proof fn lemma_mate_and_stalemate(grid: Grid, depth: nat, alpha: int, beta: int, color: Color)
    requires
        depth > 0,
        !has_legal_move(grid, color),
    ensures
        in_check(grid, color) ==> search_value(grid, depth, alpha, beta, color) == MATE_SCORE,
        !in_check(grid, color) ==> search_value(grid, depth, alpha, beta, color) == 0,
        MATE_SCORE != 0,
{
    lemma_ordered_moves_are_the_legal_moves(grid, color);
}

fn score_reply(
    board: &Board,
    depth: i32,
    moves: &Vec<Move>,
    i: usize,
    alpha: i32,
    beta: i32,
    color: Color,
) -> (score: i32)
    requires
        depth >= 1,
        moves@ == ordered_moves(board@, color),
        i < moves.len(),
        is_window_bound(alpha as int),
        is_window_bound(beta as int),
    ensures
        score == reply_score(board@, depth as nat, moves@[i as int], alpha as int, beta as int, color),
        smaller(beta as int, MATE_SCORE as int) <= score <= larger(alpha as int, INFINITY - 1),
    decreases depth, 0nat,
{
    let mv = moves[i];
    proof {
        lemma_ordered_move_is_legal(board@, color, i as int);
    }
    let mut clone = board.clone();
    clone.make_move(mv.from, mv.to);
    -negamax(&clone, depth - 1, -beta, -alpha, color.opponent())
}

/// Value of a position for the side to move, by negamax with alpha-beta
/// pruning, `depth` plies deep. The bounds of the window must be negatable.
pub fn negamax(board: &Board, depth: i32, alpha: i32, beta: i32, color: Color) -> (r: i32)
    requires
        depth >= 0,
        is_window_bound(alpha as int),
        is_window_bound(beta as int),
    ensures
        r == search_value(board@, depth as nat, alpha as int, beta as int, color),
        smaller(beta as int, MATE_SCORE as int) <= r <= larger(alpha as int, INFINITY - 1),
        depth > 0 && !has_legal_move(board@, color) ==> r == if in_check(board@, color) {
            MATE_SCORE
        } else {
            0
        },
        alpha < beta ==> brackets(
            minimax_value(board@, depth as nat, color),
            r as int,
            alpha as int,
            beta as int,
        ),
    decreases depth, 1nat,
{
    proof {
        if alpha < beta {
            lemma_search_brackets_minimax(board@, depth as nat, alpha as int, beta as int, color);
        }
        lemma_search_value_bounded(board@, depth as nat, alpha as int, beta as int, color);
        if depth > 0 && !has_legal_move(board@, color) {
            lemma_mate_and_stalemate(board@, depth as nat, alpha as int, beta as int, color);
        }
    }
    if depth == 0 {
        return evaluate(board, color);
    }
    let ghost goal = search_value(board@, depth as nat, alpha as int, beta as int, color);
    let mut low: i32 = alpha;
    let mut best_score: i32 = -INFINITY;
    let moves = get_moves_with_scores(board, color);
    let mut i: usize = 0;
    while i < moves.len()
        invariant
            depth > 0,
            i <= moves.len(),
            moves@ == ordered_moves(board@, color),
            is_window_bound(low as int),
            is_window_bound(beta as int),
            is_window_bound(best_score as int),
            goal == search_value(board@, depth as nat, alpha as int, beta as int, color),
            smaller(beta as int, MATE_SCORE as int) <= goal <= larger(alpha as int, INFINITY - 1),
            depth > 0 && !has_legal_move(board@, color) ==> goal == if in_check(board@, color) {
                MATE_SCORE as int
            } else {
                0
            },
            alpha < beta ==> brackets(
                minimax_value(board@, depth as nat, color),
                goal,
                alpha as int,
                beta as int,
            ),
            moves.len() == 0 || goal == scan_value(
                board@,
                depth as nat,
                moves@,
                i as int,
                low as int,
                beta as int,
                best_score as int,
                color,
            ),
        decreases moves.len() - i,
    {
        let score = score_reply(board, depth, &moves, i, low, beta, color);
        if score > best_score {
            best_score = score;
        }
        if score > low {
            low = score;
        }
        if low >= beta {
            return low;
        }
        i += 1;
    }
    if moves.len() == 0 {
        if is_in_check(board, color) {
            return MATE_SCORE;
        }
        return 0;
    }
    best_score
}

/// The move chosen at the root among the moves from the `i`-th on: each is
/// scored by the opponent's search one ply less deep in the window from
/// `alpha` to `INFINITY`, and a move replaces the choice when it scores
/// more than the best so far.
pub open spec fn root_choice(
    grid: Grid,
    color: Color,
    depth: nat,
    moves: Seq<Move>,
    i: int,
    alpha: int,
    best: int,
    chosen: Option<(Square, Square)>,
) -> Option<(Square, Square)>
    decreases moves.len() - i,
{
    if i < 0 || i >= moves.len() {
        chosen
    } else {
        let score = reply_score(grid, depth, moves[i], alpha, INFINITY as int, color);
        root_choice(
            grid,
            color,
            depth,
            moves,
            i + 1,
            larger(alpha, score),
            larger(best, score),
            if score > best {
                Some((moves[i].from, moves[i].to))
            } else {
                chosen
            },
        )
    }
}

/// The move chosen by a search `depth` plies deep with a fresh window:
/// among the ordered legal moves, the first to reach the highest score.
pub open spec fn best_move_at(grid: Grid, color: Color, depth: nat) -> Option<(Square, Square)> {
    root_choice(
        grid,
        color,
        depth,
        ordered_moves(grid, color),
        0,
        -INFINITY,
        -INFINITY,
        None,
    )
}

/// Whether a choice at the root is nothing or a legal move of the side.
pub open spec fn is_legal_choice(grid: Grid, color: Color, choice: Option<(Square, Square)>) -> bool {
    match choice {
        Some((from, to)) => is_legal_move(grid, color, from as int, to),
        None => true,
    }
}

proof fn lemma_root_choice(
    grid: Grid,
    color: Color,
    depth: nat,
    moves: Seq<Move>,
    i: int,
    alpha: int,
    best: int,
    chosen: Option<(Square, Square)>,
)
    requires
        grid.len() == 128,
        depth > 0,
        0 <= i <= moves.len(),
        -INFINITY <= best <= alpha <= INFINITY - 1,
        moves == ordered_moves(grid, color),
        is_legal_choice(grid, color, chosen),
        (chosen is Some && i > 0) || (chosen is None && i == 0 && best == -INFINITY),
    ensures
        is_legal_choice(grid, color, root_choice(grid, color, depth, moves, i, alpha, best, chosen)),
        root_choice(grid, color, depth, moves, i, alpha, best, chosen) is Some <==> moves.len() > 0,
    decreases moves.len() - i,
{
    if i < moves.len() {
        let score = reply_score(grid, depth, moves[i], alpha, INFINITY as int, color);
        lemma_search_value_bounded(
            after_move(grid, moves[i].from as int, moves[i].to as int),
            (depth - 1) as nat,
            -(INFINITY as int),
            -alpha,
            color.other(),
        );
        lemma_ordered_move_is_legal(grid, color, i);
        lemma_root_choice(
            grid,
            color,
            depth,
            moves,
            i + 1,
            larger(alpha, score),
            larger(best, score),
            if score > best {
                Some((moves[i].from, moves[i].to))
            } else {
                chosen
            },
        );
    }
}

/// The search chooses a move exactly when the side has a legal move, and
/// the move it chooses is legal: it goes to a square of the board and
/// leaves the mover's own king out of check.
pub proof fn lemma_best_move_is_legal(grid: Grid, color: Color, depth: nat)
    requires
        grid.len() == 128,
        depth > 0,
    ensures
        best_move_at(grid, color, depth) is Some <==> has_legal_move(grid, color),
        best_move_at(grid, color, depth) matches Some((from, to)) ==> {
            &&& is_legal_move(grid, color, from as int, to)
            &&& on_board(from as int)
            &&& on_board(to as int)
            &&& !in_check(after_move(grid, from as int, to as int), color)
        },
{
    lemma_root_choice(
        grid,
        color,
        depth,
        ordered_moves(grid, color),
        0,
        -(INFINITY as int),
        -(INFINITY as int),
        None,
    );
    lemma_ordered_moves_are_the_legal_moves(grid, color);
    match best_move_at(grid, color, depth) {
        Some((from, to)) => {
            lemma_legal_move_is_safe(grid, color, from as int, to);
        },
        None => {},
    }
}

/// The best move of a side by a search `depth` plies deep, `depth` being at
/// least 1; `None` exactly when the side has no legal move.
pub fn find_best_move_at_depth(board: &Board, color: Color, depth: i32) -> (r: Option<
    (Square, Square),
>)
    requires
        depth >= 1,
    ensures
        r == best_move_at(board@, color, depth as nat),
        r is Some <==> has_legal_move(board@, color),
        r matches Some((from, to)) ==> is_legal_move(board@, color, from as int, to) && !in_check(
            after_move(board@, from as int, to as int),
            color,
        ),
        is_first_best_choice(board@, depth as nat, ordered_moves(board@, color), r, color),
{
    let mut best_score: i32 = -INFINITY;
    let mut best_move: Option<(Square, Square)> = None;
    let mut alpha: i32 = -INFINITY;
    let beta: i32 = INFINITY;
    let moves = get_moves_with_scores(board, color);
    proof {
        lemma_best_move_is_legal(board@, color, depth as nat);
        lemma_best_move_is_first_best(board@, color, depth as nat);
    }
    let mut i: usize = 0;
    while i < moves.len()
        invariant
            depth >= 1,
            beta == INFINITY,
            i <= moves.len(),
            moves@ == ordered_moves(board@, color),
            -INFINITY <= best_score <= alpha <= INFINITY,
            best_move_at(board@, color, depth as nat) == root_choice(
                board@,
                color,
                depth as nat,
                moves@,
                i as int,
                alpha as int,
                best_score as int,
                best_move,
            ),
        decreases moves.len() - i,
    {
        let mv = moves[i];
        let score = score_reply(board, depth, &moves, i, alpha, beta, color);
        if score > best_score {
            best_score = score;
            best_move = Some((mv.from, mv.to));
        }
        if score > alpha {
            alpha = score;
        }
        i += 1;
    }
    best_move
}

/// The move that the engine plays for a side: the choice of the deepest of
/// the searches of depth 1 up to `MAX_DEPTH`, each made with a fresh
/// window. `None` exactly when the side has no legal move; a move that is
/// returned is legal, so it never leaves the side's own king in check.
pub fn find_best_move(board: &Board, color: Color) -> (r: Option<(Square, Square)>)
    ensures
        r == best_move_at(board@, color, MAX_DEPTH as nat),
        r is Some <==> has_legal_move(board@, color),
        r matches Some((from, to)) ==> is_legal_move(board@, color, from as int, to) && !in_check(
            after_move(board@, from as int, to as int),
            color,
        ),
        is_first_best_choice(board@, MAX_DEPTH as nat, ordered_moves(board@, color), r, color),
{
    let mut best_move: Option<(Square, Square)> = None;
    let mut depth: i32 = 1;
    while depth <= MAX_DEPTH
        invariant
            1 <= depth <= MAX_DEPTH + 1,
            depth > 1 ==> best_move == best_move_at(board@, color, (depth - 1) as nat),
            depth > 1 ==> (best_move is Some <==> has_legal_move(board@, color)),
            depth > 1 ==> (best_move matches Some((from, to)) ==> is_legal_move(
                board@,
                color,
                from as int,
                to,
            ) && !in_check(after_move(board@, from as int, to as int), color)),
            depth > 1 ==> is_first_best_choice(
                board@,
                (depth - 1) as nat,
                ordered_moves(board@, color),
                best_move,
                color,
            ),
        decreases MAX_DEPTH + 1 - depth,
    {
        best_move = find_best_move_at_depth(board, color, depth);
        depth += 1;
    }
    best_move
}

} // verus!
