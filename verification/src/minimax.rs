//! What the search computes: the plain negamax value of a position, which
//! no window and no move order enter, and the laws that tie the pruned
//! search to it.

use vstd::prelude::*;
use crate::board::{after_move, Grid};
use crate::check::in_check;
use crate::eval::{evaluation, lemma_evaluation_bounded};
use crate::ordering::{ordered_moves, Move};
use crate::piece::Color;
use crate::search::{
    best_move_at, is_window_bound, larger, reply_score, root_choice, scan_value, search_value,
    INFINITY, MATE_SCORE,
};
use crate::square::Square;

verus! {

/// Value of a position for the side to move when both sides play the best
/// moves for `depth` plies: the evaluation at depth 0, the mate score or 0
/// without a legal move, and else the best of the replies.
pub open spec fn minimax_value(grid: Grid, depth: nat, color: Color) -> int
    decreases depth, 1nat, 0nat,
{
    if depth == 0 {
        evaluation(grid, color)
    } else {
        let moves = ordered_moves(grid, color);
        if moves.len() == 0 {
            if in_check(grid, color) {
                MATE_SCORE as int
            } else {
                0
            }
        } else {
            best_reply(grid, depth, moves, 0, color)
        }
    }
}

/// Worth of a move for the side that makes it: the negated value, for the
/// opponent, of the position it leads to.
pub open spec fn move_value(grid: Grid, depth: nat, mv: Move, color: Color) -> int
    decreases depth, 0nat, 0nat,
{
    if depth == 0 {
        0
    } else {
        -minimax_value(
            after_move(grid, mv.from as int, mv.to as int),
            (depth - 1) as nat,
            color.other(),
        )
    }
}

/// The largest worth among the moves from the `i`-th on; `-INFINITY` when
/// there is none.
pub open spec fn best_reply(grid: Grid, depth: nat, moves: Seq<Move>, i: int, color: Color) -> int
    decreases depth, 0nat, moves.len() - i,
{
    if depth == 0 || i < 0 || i >= moves.len() {
        -INFINITY
    } else {
        larger(move_value(grid, depth, moves[i], color), best_reply(grid, depth, moves, i + 1, color))
    }
}

/// The minimax value lies between the mate score and its negation.
pub proof fn lemma_minimax_value_bounded(grid: Grid, depth: nat, color: Color)
    ensures
        MATE_SCORE <= minimax_value(grid, depth, color) <= -MATE_SCORE,
    decreases depth, 1nat, 0nat,
{
    if depth == 0 {
        lemma_evaluation_bounded(grid, color);
    } else {
        let moves = ordered_moves(grid, color);
        if moves.len() > 0 {
            lemma_best_reply_bounded(grid, depth, moves, 0, color);
        }
    }
}

proof fn lemma_best_reply_bounded(grid: Grid, depth: nat, moves: Seq<Move>, i: int, color: Color)
    requires
        depth > 0,
        0 <= i <= moves.len(),
    ensures
        -INFINITY <= best_reply(grid, depth, moves, i, color) <= -MATE_SCORE,
        i < moves.len() ==> MATE_SCORE <= best_reply(grid, depth, moves, i, color),
    decreases depth, 0nat, moves.len() - i,
{
    if i < moves.len() {
        let child = after_move(grid, moves[i].from as int, moves[i].to as int);
        lemma_minimax_value_bounded(child, (depth - 1) as nat, color.other());
        lemma_best_reply_bounded(grid, depth, moves, i + 1, color);
        assert(move_value(grid, depth, moves[i], color) == -minimax_value(
            child,
            (depth - 1) as nat,
            color.other(),
        ));
    }
}

/// How a value found in a window stands to the true value: equal to it
/// when that lies inside the window, and otherwise on the same side of the
/// window, no further out than the true value.
pub open spec fn brackets(value: int, found: int, alpha: int, beta: int) -> bool {
    &&& value <= alpha ==> value <= found <= alpha
    &&& alpha < value < beta ==> found == value
    &&& value >= beta ==> beta <= found <= value
}

/// Pruning is sound: searched in a window of which `alpha` is below
/// `beta`, a position gets its minimax value when that lies inside the
/// window, and else a bound on it that lies outside on the same side.
pub proof fn lemma_search_brackets_minimax(
    grid: Grid,
    depth: nat,
    alpha: int,
    beta: int,
    color: Color,
)
    requires
        is_window_bound(alpha),
        is_window_bound(beta),
        alpha < beta,
    ensures
        brackets(
            minimax_value(grid, depth, color),
            search_value(grid, depth, alpha, beta, color),
            alpha,
            beta,
        ),
    decreases depth, 1nat, 0nat,
{
    if depth > 0 {
        let moves = ordered_moves(grid, color);
        if moves.len() > 0 {
            lemma_best_reply_bounded(grid, depth, moves, 0, color);
            lemma_scan_brackets(
                grid,
                depth,
                moves,
                0,
                alpha,
                beta,
                -(INFINITY as int),
                -(INFINITY as int),
                alpha,
                color,
            );
        }
    }
}

/// The same for one move: its score in a window brackets its worth.
pub proof fn lemma_reply_brackets_move_value(
    grid: Grid,
    depth: nat,
    mv: Move,
    alpha: int,
    beta: int,
    color: Color,
)
    requires
        depth > 0,
        is_window_bound(alpha),
        is_window_bound(beta),
        alpha < beta,
    ensures
        brackets(
            move_value(grid, depth, mv, color),
            reply_score(grid, depth, mv, alpha, beta, color),
            alpha,
            beta,
        ),
    decreases depth, 0nat, 0nat,
{
    lemma_search_brackets_minimax(
        after_move(grid, mv.from as int, mv.to as int),
        (depth - 1) as nat,
        -beta,
        -alpha,
        color.other(),
    );
}

proof fn lemma_scan_brackets(
    grid: Grid,
    depth: nat,
    moves: Seq<Move>,
    i: int,
    low: int,
    beta: int,
    best: int,
    seen: int,
    alpha: int,
    color: Color,
)
    requires
        depth > 0,
        0 <= i <= moves.len(),
        is_window_bound(alpha),
        is_window_bound(beta),
        alpha <= low < beta,
        -INFINITY <= seen <= best,
        low == larger(alpha, best),
        low == larger(alpha, seen),
    ensures
        brackets(
            larger(seen, best_reply(grid, depth, moves, i, color)),
            scan_value(grid, depth, moves, i, low, beta, best, color),
            alpha,
            beta,
        ),
    decreases depth, 0nat, moves.len() - i,
{
    if i < moves.len() {
        let worth = move_value(grid, depth, moves[i], color);
        let score = reply_score(grid, depth, moves[i], low, beta, color);
        lemma_reply_brackets_move_value(grid, depth, moves[i], low, beta, color);
        lemma_best_reply_bounded(grid, depth, moves, i + 1, color);
        if larger(low, score) < beta {
            lemma_scan_brackets(
                grid,
                depth,
                moves,
                i + 1,
                larger(low, score),
                beta,
                larger(best, score),
                larger(seen, worth),
                alpha,
                color,
            );
        }
    }
}

/// With the full window the search finds the minimax value itself.
pub proof fn lemma_full_window_is_minimax(grid: Grid, depth: nat, color: Color)
    ensures
        search_value(grid, depth, -INFINITY, INFINITY as int, color) == minimax_value(
            grid,
            depth,
            color,
        ),
{
    lemma_minimax_value_bounded(grid, depth, color);
    lemma_search_brackets_minimax(grid, depth, -(INFINITY as int), INFINITY as int, color);
}

/// Whether the `j`-th move is the first of the moves to have the largest
/// worth among them.
pub open spec fn is_first_best(grid: Grid, depth: nat, moves: Seq<Move>, j: int, color: Color) -> bool {
    &&& 0 <= j < moves.len()
    &&& forall|k: int|
        0 <= k < moves.len() ==> move_value(grid, depth, #[trigger] moves[k], color) <= move_value(
            grid,
            depth,
            moves[j],
            color,
        )
    &&& forall|k: int|
        0 <= k < j ==> move_value(grid, depth, #[trigger] moves[k], color) < move_value(
            grid,
            depth,
            moves[j],
            color,
        )
}

/// Whether a choice is the first best of the moves: nothing when there is
/// no move, and else the squares of a move that is the first to have the
/// largest worth.
pub open spec fn is_first_best_choice(
    grid: Grid,
    depth: nat,
    moves: Seq<Move>,
    choice: Option<(Square, Square)>,
    color: Color,
) -> bool {
    match choice {
        None => moves.len() == 0,
        Some(pair) => exists|j: int|
            #[trigger] is_first_best(grid, depth, moves, j, color) && pair == (
                moves[j].from,
                moves[j].to,
            ),
    }
}

proof fn lemma_move_value_bounded(grid: Grid, depth: nat, mv: Move, color: Color)
    requires
        depth > 0,
    ensures
        MATE_SCORE <= move_value(grid, depth, mv, color) <= -MATE_SCORE,
{
    lemma_minimax_value_bounded(
        after_move(grid, mv.from as int, mv.to as int),
        (depth - 1) as nat,
        color.other(),
    );
}

proof fn lemma_root_choice_is_first_best(
    grid: Grid,
    color: Color,
    depth: nat,
    moves: Seq<Move>,
    i: int,
    alpha: int,
    best: int,
    chosen: Option<(Square, Square)>,
    j: int,
)
    requires
        depth > 0,
        0 <= i <= moves.len(),
        i == 0 ==> alpha == -INFINITY && best == -INFINITY && chosen is None,
        i > 0 ==> {
            &&& 0 <= j < i
            &&& alpha == move_value(grid, depth, moves[j], color)
            &&& best == alpha
            &&& chosen == Some((moves[j].from, moves[j].to))
            &&& forall|k: int|
                0 <= k < i ==> move_value(grid, depth, #[trigger] moves[k], color) <= alpha
            &&& forall|k: int|
                0 <= k < j ==> move_value(grid, depth, #[trigger] moves[k], color) < alpha
        },
    ensures
        is_first_best_choice(
            grid,
            depth,
            moves,
            root_choice(grid, color, depth, moves, i, alpha, best, chosen),
            color,
        ),
    decreases moves.len() - i,
{
    if i < moves.len() {
        let worth = move_value(grid, depth, moves[i], color);
        let score = reply_score(grid, depth, moves[i], alpha, INFINITY as int, color);
        lemma_move_value_bounded(grid, depth, moves[i], color);
        if i > 0 {
            lemma_move_value_bounded(grid, depth, moves[j], color);
        }
        lemma_reply_brackets_move_value(grid, depth, moves[i], alpha, INFINITY as int, color);
        if worth > alpha {
            assert(score == worth);
            lemma_root_choice_is_first_best(
                grid,
                color,
                depth,
                moves,
                i + 1,
                worth,
                worth,
                Some((moves[i].from, moves[i].to)),
                i,
            );
        } else {
            assert(score <= best);
            lemma_root_choice_is_first_best(
                grid,
                color,
                depth,
                moves,
                i + 1,
                alpha,
                best,
                chosen,
                j,
            );
        }
    } else if i > 0 {
        assert(is_first_best(grid, depth, moves, j, color));
    }
}

/// The move that a search of some depth chooses is the first, in the order
/// in which the moves are tried, of the legal moves of largest worth:
/// neither the window nor the pruning changes the choice.
pub proof fn lemma_best_move_is_first_best(grid: Grid, color: Color, depth: nat)
    requires
        depth > 0,
    ensures
        is_first_best_choice(
            grid,
            depth,
            ordered_moves(grid, color),
            best_move_at(grid, color, depth),
            color,
        ),
{
    lemma_root_choice_is_first_best(
        grid,
        color,
        depth,
        ordered_moves(grid, color),
        0,
        -(INFINITY as int),
        -(INFINITY as int),
        None,
        0,
    );
}

} // verus!
