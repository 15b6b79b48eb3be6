//! Move ordering for the search: every legal move of a side with a score,
//! best first.

use vstd::prelude::*;
use crate::board::{after_move, piece_at, Board, Grid};
use crate::check::{is_legal_target, legal_moves};
use crate::eval::{evaluate, evaluation, lemma_evaluation_bounded};
use crate::movegen::{lemma_pseudo_moves_on_board, own_piece_at, pseudo_moves};
use crate::piece::{get_mvv_lva_score, mvv_lva, Color};
use crate::square::{on_board, Square};

verus! {

/// A candidate move with the score it is ordered by.
#[derive(Clone, Copy, PartialEq, Eq, Debug, Structural)]
pub struct Move {
    pub from: Square,
    pub to: Square,
    pub score: i32,
}

/// Bonus for a move that takes a piece of the other colour; nothing for any
/// other move.
pub open spec fn capture_bonus(grid: Grid, from: int, to: int, color: Color) -> int {
    match (piece_at(grid, from), piece_at(grid, to)) {
        (Some(attacker), Some(victim)) => if victim.color != color {
            mvv_lva(attacker.kind, victim.kind)
        } else {
            0
        },
        _ => 0,
    }
}

/// Score by which a move is ordered: the evaluation of the position it
/// leads to, for the side that moves, plus the capture bonus.
pub open spec fn move_score(grid: Grid, from: int, to: int, color: Color) -> int {
    evaluation(after_move(grid, from, to), color) + capture_bonus(grid, from, to, color)
}

/// A move with its ordering score.
pub open spec fn scored_move(grid: Grid, from: int, to: Square, color: Color) -> Move {
    Move { from: from as u8, to, score: move_score(grid, from, to as int, color) as i32 }
}

/// An ordering score fits the integer type of a move's score, so a scored
/// move holds it exactly.
pub proof fn lemma_move_score_fits(grid: Grid, from: int, to: Square, color: Color)
    ensures
        scored_move(grid, from, to, color).score == move_score(grid, from, to as int, color),
{
    lemma_evaluation_bounded(after_move(grid, from, to as int), color);
}

/// The scored legal moves of the piece on `from`, if it is of the given
/// colour, in generation order.
pub open spec fn moves_from(grid: Grid, from: int, color: Color) -> Seq<Move> {
    if own_piece_at(grid, from, color) {
        legal_moves(grid, from).map_values(|to: u8| scored_move(grid, from, to, color))
    } else {
        Seq::empty()
    }
}

/// The scored legal moves of the pieces of a colour on the first `n` slots,
/// square by square.
pub open spec fn scored_moves_upto(grid: Grid, color: Color, n: int) -> Seq<Move>
    decreases n,
{
    if n <= 0 {
        Seq::empty()
    } else {
        scored_moves_upto(grid, color, n - 1) + moves_from(grid, n - 1, color)
    }
}

/// All scored legal moves of a colour, in generation order.
pub open spec fn scored_moves(grid: Grid, color: Color) -> Seq<Move> {
    scored_moves_upto(grid, color, 128)
}

/// Where a move with the given score goes into a list: behind the moves at
/// the front that score at least as much.
pub open spec fn insert_point(list: Seq<Move>, score: int) -> int
    decreases list.len(),
{
    if list.len() > 0 && list[0].score >= score {
        1 + insert_point(list.drop_first(), score)
    } else {
        0
    }
}

/// The moves by descending score, moves of equal score in the order in
/// which they came: each move in turn is put behind those already there
/// that score at least as much.
pub open spec fn by_score(moves: Seq<Move>) -> Seq<Move>
    decreases moves.len(),
{
    if moves.len() == 0 {
        moves
    } else {
        let front = by_score(moves.drop_last());
        front.insert(insert_point(front, moves.last().score as int), moves.last())
    }
}

/// The legal moves of a colour in the order in which the search tries them.
pub open spec fn ordered_moves(grid: Grid, color: Color) -> Seq<Move> {
    by_score(scored_moves(grid, color))
}

/// Sorts the moves by descending score, keeping moves of equal score in
/// their order.
pub fn sort_moves_by_score(moves: &mut Vec<Move>)
    ensures
        final(moves)@ == by_score(old(moves)@),
{
    let mut sorted: Vec<Move> = Vec::new();
    let mut i: usize = 0;
    while i < moves.len()
        invariant
            i <= moves.len(),
            moves@ == old(moves)@,
            sorted@ == by_score(moves@.take(i as int)),
            sorted.len() == i,
        decreases moves.len() - i,
    {
        let mv = moves[i];
        let mut k: usize = 0;
        assert(sorted@.skip(0) =~= sorted@);
        while k < sorted.len() && sorted[k].score >= mv.score
            invariant
                k <= sorted.len(),
                insert_point(sorted@, mv.score as int) == k + insert_point(
                    sorted@.skip(k as int),
                    mv.score as int,
                ),
            decreases sorted.len() - k,
        {
            assert(sorted@.skip(k as int).drop_first() =~= sorted@.skip(k + 1));
            k += 1;
        }
        assert(moves@.take(i + 1).drop_last() =~= moves@.take(i as int));
        sorted.insert(k, mv);
        i += 1;
    }
    assert(moves@.take(moves.len() as int) =~= moves@);
    *moves = sorted;
}

/// Every legal move is a pseudo-legal move to a square of the board that
/// passes the legality test.
pub proof fn lemma_legal_moves_sound(grid: Grid, from: int, i: int)
    requires
        0 <= i < legal_moves(grid, from).len(),
    ensures
        piece_at(grid, from) is Some,
        on_board(legal_moves(grid, from)[i] as int),
        pseudo_moves(grid, from).contains(legal_moves(grid, from)[i]),
        is_legal_target(grid, from, legal_moves(grid, from)[i], piece_at(grid, from)->0.color),
{
    let piece = piece_at(grid, from)->0;
    let keep = |to: u8| is_legal_target(grid, from, to, piece.color);
    let pseudo = pseudo_moves(grid, from);
    let to = legal_moves(grid, from)[i];
    lemma_pseudo_moves_on_board(grid, from);
    pseudo.lemma_filter_pred(keep, i);
    assert(pseudo.filter(keep)[i] == to);
    assert(pseudo.filter(keep).contains(to));
    pseudo.lemma_filter_contains_rev(keep, to);
    let j = choose|j: int| 0 <= j < pseudo.len() && pseudo[j] == to;
    assert(on_board(pseudo[j] as int));
}

/// All legal moves of a colour with their ordering scores, best first;
/// moves of equal score stay in generation order.
pub fn get_moves_with_scores(board: &Board, color: Color) -> (moves: Vec<Move>)
    ensures
        moves@ == ordered_moves(board@, color),
{
    let mut moves: Vec<Move> = Vec::new();
    let mut from: u8 = 0;
    while from < 128
        invariant
            from <= 128,
            moves@ == scored_moves_upto(board@, color, from as int),
        decreases 128 - from,
    {
        if Board::is_valid(from) {
            if let Some(piece) = board.get_piece(from) {
                if piece.color == color {
                    let legal = board.generate_legal_moves_for_piece(from);
                    let ghost done = moves@;
                    let ghost all = moves_from(board@, from as int, color);
                    let mut j: usize = 0;
                    while j < legal.len()
                        invariant
                            j <= legal.len(),
                            from < 128,
                            legal@ == legal_moves(board@, from as int),
                            piece_at(board@, from as int) == Some(piece),
                            piece.color == color,
                            all == moves_from(board@, from as int, color),
                            moves@ == done + all.take(j as int),
                        decreases legal.len() - j,
                    {
                        let to = legal[j];
                        proof {
                            lemma_legal_moves_sound(board@, from as int, j as int);
                        }
                        let mut clone = board.clone();
                        clone.make_move(from, to);
                        let mut score = evaluate(&clone, color);
                        if let Some(captured_piece) = board.get_piece(to) {
                            if captured_piece.color != color {
                                score += get_mvv_lva_score(piece.kind, captured_piece.kind);
                            }
                        }
                        moves.push(Move { from, to, score });
                        assert(moves@ =~= done + all.take(j + 1));
                        j += 1;
                    }
                    assert(all.take(legal.len() as int) =~= all);
                }
            }
        }
        assert(moves@ =~= scored_moves_upto(board@, color, from + 1));
        from += 1;
    }
    sort_moves_by_score(&mut moves);
    moves
}

/// Whether moving the piece on `from` to `to` is a legal move of `color`.
pub open spec fn is_legal_move(grid: Grid, color: Color, from: int, to: Square) -> bool {
    own_piece_at(grid, from, color) && legal_moves(grid, from).contains(to)
}

/// Whether a side has a legal move at all.
pub open spec fn has_legal_move(grid: Grid, color: Color) -> bool {
    exists|from: int, to: Square| 0 <= from < 128 && #[trigger] is_legal_move(grid, color, from, to)
}

/// Ordering neither adds nor drops a move.
pub proof fn lemma_by_score_members(moves: Seq<Move>)
    ensures
        by_score(moves).len() == moves.len(),
        forall|m: Move| #[trigger] by_score(moves).contains(m) <==> moves.contains(m),
    decreases moves.len(),
{
    if moves.len() > 0 {
        let front = by_score(moves.drop_last());
        let last = moves.last();
        let k = insert_point(front, last.score as int);
        lemma_by_score_members(moves.drop_last());
        lemma_insert_point_splits(front, last.score as int);
        let out = front.insert(k, last);
        assert(out.len() == front.len() + 1);
        assert(out[k] == last);
        assert forall|m: Move| #[trigger] out.contains(m) <==> moves.contains(m) by {
            if out.contains(m) {
                let j = choose|j: int| 0 <= j < out.len() && out[j] == m;
                if j < k {
                    assert(front[j] == m);
                    assert(front.contains(m));
                } else if j > k {
                    assert(front[j - 1] == m);
                    assert(front.contains(m));
                }
                if front.contains(m) {
                    assert(moves.drop_last().contains(m));
                    let t = choose|t: int| 0 <= t < moves.drop_last().len() && moves.drop_last()[t] == m;
                    assert(moves[t] == m);
                } else {
                    assert(moves[moves.len() - 1] == m);
                }
            }
            if moves.contains(m) {
                let t = choose|t: int| 0 <= t < moves.len() && moves[t] == m;
                if t == moves.len() - 1 {
                    assert(out[k] == m);
                } else {
                    assert(moves.drop_last()[t] == m);
                    assert(front.contains(m));
                    let j = choose|j: int| 0 <= j < front.len() && front[j] == m;
                    if j < k {
                        assert(out[j] == m);
                    } else {
                        assert(out[j + 1] == m);
                    }
                }
            }
        }
    }
}

proof fn lemma_scored_moves_upto_sound(grid: Grid, color: Color, n: int, m: Move)
    requires
        0 <= n <= 128,
        scored_moves_upto(grid, color, n).contains(m),
    ensures
        0 <= m.from < n,
        is_legal_move(grid, color, m.from as int, m.to),
        m == scored_move(grid, m.from as int, m.to, color),
    decreases n,
{
    if n > 0 {
        let front = scored_moves_upto(grid, color, n - 1);
        let here = moves_from(grid, n - 1, color);
        let all = scored_moves_upto(grid, color, n);
        let j = choose|j: int| 0 <= j < all.len() && all[j] == m;
        if j < front.len() {
            assert(front[j] == m);
            lemma_scored_moves_upto_sound(grid, color, n - 1, m);
        } else {
            let t = j - front.len();
            assert(here[t] == m);
            assert(legal_moves(grid, n - 1)[t] == m.to);
        }
    }
}

proof fn lemma_scored_moves_upto_complete(grid: Grid, color: Color, n: int, from: int, to: Square)
    requires
        0 <= from < n <= 128,
        is_legal_move(grid, color, from, to),
    ensures
        scored_moves_upto(grid, color, n).contains(scored_move(grid, from, to, color)),
    decreases n,
{
    let front = scored_moves_upto(grid, color, n - 1);
    let here = moves_from(grid, n - 1, color);
    let all = scored_moves_upto(grid, color, n);
    let m = scored_move(grid, from, to, color);
    if from == n - 1 {
        let t = choose|t: int| 0 <= t < legal_moves(grid, from).len() && legal_moves(grid, from)[t] == to;
        assert(here[t] == m);
        assert(all[front.len() + t] == m);
    } else {
        lemma_scored_moves_upto_complete(grid, color, n - 1, from, to);
        let j = choose|j: int| 0 <= j < front.len() && front[j] == m;
        assert(all[j] == m);
    }
}

/// The moves that the search tries are exactly the legal moves of the side,
/// each with its ordering score.
pub proof fn lemma_ordered_moves_are_the_legal_moves(grid: Grid, color: Color)
    ensures
        forall|i: int|
            0 <= i < ordered_moves(grid, color).len() ==> {
                let m = #[trigger] ordered_moves(grid, color)[i];
                &&& is_legal_move(grid, color, m.from as int, m.to)
                &&& m == scored_move(grid, m.from as int, m.to, color)
            },
        forall|from: int, to: Square|
            0 <= from < 128 && #[trigger] is_legal_move(grid, color, from, to)
                ==> ordered_moves(grid, color).contains(scored_move(grid, from, to, color)),
        ordered_moves(grid, color).len() > 0 <==> has_legal_move(grid, color),
{
    let scored = scored_moves(grid, color);
    let ordered = ordered_moves(grid, color);
    lemma_by_score_members(scored);
    assert forall|i: int| 0 <= i < ordered.len() implies {
        let m = #[trigger] ordered[i];
        &&& is_legal_move(grid, color, m.from as int, m.to)
        &&& m == scored_move(grid, m.from as int, m.to, color)
    } by {
        let m = ordered[i];
        assert(ordered.contains(m));
        lemma_scored_moves_upto_sound(grid, color, 128, m);
    }
    assert forall|from: int, to: Square|
        0 <= from < 128 && #[trigger] is_legal_move(grid, color, from, to) implies ordered.contains(
        scored_move(grid, from, to, color),
    ) by {
        lemma_scored_moves_upto_complete(grid, color, 128, from, to);
    }
    if ordered.len() > 0 {
        let m = ordered[0];
        assert(is_legal_move(grid, color, m.from as int, m.to));
    }
    if has_legal_move(grid, color) {
        let (from, to) = choose|from: int, to: Square|
            0 <= from < 128 && #[trigger] is_legal_move(grid, color, from, to);
        assert(ordered.contains(scored_move(grid, from, to, color)));
    }
}

/// A legal move goes to a square of the board and leaves the mover's king
/// out of check.
pub proof fn lemma_legal_move_is_safe(grid: Grid, color: Color, from: int, to: Square)
    requires
        is_legal_move(grid, color, from, to),
    ensures
        on_board(from),
        on_board(to as int),
        !own_piece_at(grid, to as int, color),
        !crate::check::in_check(after_move(grid, from, to as int), color),
{
    let i = choose|i: int| 0 <= i < legal_moves(grid, from).len() && legal_moves(grid, from)[i] == to;
    lemma_legal_moves_sound(grid, from, i);
}

/// Each move that the search tries can be carried out on the board, is
/// legal, and leaves the mover's king out of check.
pub proof fn lemma_ordered_move_is_legal(grid: Grid, color: Color, i: int)
    requires
        grid.len() == 128,
        0 <= i < ordered_moves(grid, color).len(),
    ensures
        crate::board::can_move(
            grid,
            ordered_moves(grid, color)[i].from as int,
            ordered_moves(grid, color)[i].to as int,
        ),
        is_legal_move(
            grid,
            color,
            ordered_moves(grid, color)[i].from as int,
            ordered_moves(grid, color)[i].to,
        ),
        !crate::check::in_check(
            after_move(
                grid,
                ordered_moves(grid, color)[i].from as int,
                ordered_moves(grid, color)[i].to as int,
            ),
            color,
        ),
{
    let m = ordered_moves(grid, color)[i];
    lemma_ordered_moves_are_the_legal_moves(grid, color);
    lemma_legal_move_is_safe(grid, color, m.from as int, m.to);
}

/// Whether the scores of a list never rise from one move to the next.
pub open spec fn is_descending(moves: Seq<Move>) -> bool {
    forall|i: int, j: int| 0 <= i < j < moves.len() ==> moves[i].score >= moves[j].score
}

proof fn lemma_insert_point_splits(list: Seq<Move>, score: int)
    ensures
        0 <= insert_point(list, score) <= list.len(),
        forall|j: int| 0 <= j < insert_point(list, score) ==> (#[trigger] list[j]).score >= score,
        insert_point(list, score) < list.len() ==> list[insert_point(list, score)].score < score,
    decreases list.len(),
{
    if list.len() > 0 && list[0].score >= score {
        let rest = list.drop_first();
        lemma_insert_point_splits(rest, score);
        assert forall|j: int| 0 <= j < insert_point(list, score) implies (#[trigger] list[j]).score
            >= score by {
            if j > 0 {
                assert(list[j] == rest[j - 1]);
            }
        }
        if insert_point(list, score) < list.len() {
            assert(list[insert_point(list, score)] == rest[insert_point(rest, score)]);
        }
    }
}

/// The ordered moves come by descending score.
pub proof fn lemma_by_score_is_descending(moves: Seq<Move>)
    ensures
        is_descending(by_score(moves)),
    decreases moves.len(),
{
    if moves.len() > 0 {
        let front = by_score(moves.drop_last());
        let last = moves.last();
        let k = insert_point(front, last.score as int);
        lemma_by_score_is_descending(moves.drop_last());
        lemma_insert_point_splits(front, last.score as int);
        let out = front.insert(k, last);
        assert forall|i: int, j: int| 0 <= i < j < out.len() implies out[i].score
            >= out[j].score by {
            if j < k {
                assert(out[i] == front[i] && out[j] == front[j]);
            } else if j == k {
                assert(out[i] == front[i]);
            } else if i < k {
                assert(out[i] == front[i] && out[j] == front[j - 1]);
                assert(front[k].score >= front[j - 1].score || k == j - 1);
            } else if i == k {
                assert(out[j] == front[j - 1]);
                assert(front[k].score >= front[j - 1].score || k == j - 1);
            } else {
                assert(out[i] == front[i - 1] && out[j] == front[j - 1]);
            }
        }
    }
}

proof fn lemma_filter_of_none<A>(s: Seq<A>, pred: spec_fn(A) -> bool)
    requires
        forall|i: int| 0 <= i < s.len() ==> !pred(#[trigger] s[i]),
    ensures
        s.filter(pred) == Seq::<A>::empty(),
    decreases s.len(),
{
    reveal(Seq::filter);
    if s.len() > 0 {
        assert forall|i: int| 0 <= i < s.drop_last().len() implies !pred(
            #[trigger] s.drop_last()[i],
        ) by {
            assert(s.drop_last()[i] == s[i]);
        }
        lemma_filter_of_none(s.drop_last(), pred);
    }
}

/// Ordering is stable: the moves of any one score stand in the ordered
/// list as they stood in the list that was ordered.
pub proof fn lemma_by_score_is_stable(moves: Seq<Move>, score: i32)
    ensures
        by_score(moves).filter(|m: Move| m.score == score) == moves.filter(
            |m: Move| m.score == score,
        ),
    decreases moves.len(),
{
    let same = |m: Move| m.score == score;
    reveal(Seq::filter);
    if moves.len() > 0 {
        let front = by_score(moves.drop_last());
        let last = moves.last();
        let k = insert_point(front, last.score as int);
        lemma_by_score_is_stable(moves.drop_last(), score);
        lemma_by_score_is_descending(moves.drop_last());
        lemma_insert_point_splits(front, last.score as int);
        let head = front.subrange(0, k);
        let tail = front.subrange(k, front.len() as int);
        assert(front =~= head + tail);
        Seq::filter_distributes_over_add(head, tail, same);
        Seq::filter_distributes_over_add(head.push(last), tail, same);
        assert(head.push(last).drop_last() =~= head);
        if last.score == score {
            assert forall|i: int| 0 <= i < tail.len() implies !same(#[trigger] tail[i]) by {
                assert(tail[i] == front[k + i]);
                assert(front[k].score >= front[k + i].score || i == 0);
            }
            lemma_filter_of_none(tail, same);
            assert(head.filter(same) + Seq::<Move>::empty() =~= head.filter(same));
            assert(head.filter(same).push(last) + Seq::<Move>::empty() =~= head.filter(same).push(
                last,
            ));
        }
    }
}

} // verus!
