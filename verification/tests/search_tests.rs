use chess_engine::{
    coords_to_square, evaluate, find_best_move, find_best_move_at_depth, get_moves_with_scores,
    get_mvv_lva_score, is_in_check, negamax, sort_moves_by_score, Board, Color, Move, Piece,
    PieceType, MAX_DEPTH,
};

const MATE: i32 = -(i32::MAX - 1);

fn sq(name: &str) -> u8 {
    coords_to_square(name).unwrap()
}

fn board_with(pieces: &[(&str, Color, PieceType)]) -> Board {
    let mut board = Board::new();
    for &(name, color, kind) in pieces {
        board.set_piece(sq(name), Piece { color, kind });
    }
    board
}

fn mv(from: u8, to: u8, score: i32) -> Move {
    Move { from, to, score }
}

fn back_rank_mate() -> Board {
    board_with(&[
        ("g1", Color::White, PieceType::King),
        ("f2", Color::White, PieceType::Pawn),
        ("g2", Color::White, PieceType::Pawn),
        ("h2", Color::White, PieceType::Pawn),
        ("a1", Color::Black, PieceType::Rook),
        ("e8", Color::Black, PieceType::King),
    ])
}

fn stalemate() -> Board {
    board_with(&[
        ("a1", Color::White, PieceType::King),
        ("b3", Color::Black, PieceType::Queen),
        ("h8", Color::Black, PieceType::King),
    ])
}

fn mate_in_one() -> Board {
    board_with(&[
        ("g1", Color::White, PieceType::King),
        ("a1", Color::White, PieceType::Rook),
        ("h8", Color::Black, PieceType::King),
        ("g7", Color::Black, PieceType::Pawn),
        ("h7", Color::Black, PieceType::Pawn),
    ])
}

fn plain_negamax(board: &Board, depth: i32, color: Color) -> i32 {
    if depth == 0 {
        return evaluate(board, color);
    }
    let other = if color == Color::White { Color::Black } else { Color::White };
    let mut best: Option<i32> = None;
    for from in 0u8..128 {
        match board.get_piece(from) {
            Some(p) if p.color == color => {
                for to in board.generate_legal_moves_for_piece(from) {
                    let mut next = board.clone();
                    next.make_move(from, to);
                    let score = -plain_negamax(&next, depth - 1, other);
                    best = Some(best.map_or(score, |b| b.max(score)));
                }
            }
            _ => {}
        }
    }
    match best {
        Some(b) => b,
        None => {
            if is_in_check(board, color) {
                MATE
            } else {
                0
            }
        }
    }
}

#[test]
fn max_depth_is_four_plies() {
    assert_eq!(MAX_DEPTH, 4);
}

#[test]
fn sort_is_descending_and_stable() {
    let mut moves = vec![
        mv(1, 1, 10),
        mv(2, 2, 30),
        mv(3, 3, 10),
        mv(4, 4, -5),
        mv(5, 5, 30),
        mv(6, 6, 10),
        mv(7, 7, 40),
    ];
    sort_moves_by_score(&mut moves);
    assert_eq!(
        moves,
        vec![
            mv(7, 7, 40),
            mv(2, 2, 30),
            mv(5, 5, 30),
            mv(1, 1, 10),
            mv(3, 3, 10),
            mv(6, 6, 10),
            mv(4, 4, -5),
        ]
    );
}

#[test]
fn sort_agrees_with_the_standard_stable_sort() {
    let mut seed: u32 = 12345;
    for len in 0..40usize {
        let mut moves = Vec::new();
        for i in 0..len {
            seed = seed.wrapping_mul(1103515245).wrapping_add(12345);
            let score = ((seed >> 16) % 7) as i32 - 3;
            moves.push(mv(i as u8, (i * 2) as u8, score));
        }
        let mut expected = moves.clone();
        expected.sort_by(|a, b| b.score.cmp(&a.score));
        sort_moves_by_score(&mut moves);
        assert_eq!(moves, expected);
    }
}

#[test]
fn sort_of_nothing_and_of_one() {
    let mut moves: Vec<Move> = Vec::new();
    sort_moves_by_score(&mut moves);
    assert!(moves.is_empty());
    let mut moves = vec![mv(1, 2, 3)];
    sort_moves_by_score(&mut moves);
    assert_eq!(moves, vec![mv(1, 2, 3)]);
}

#[test]
fn scored_moves_of_the_starting_position() {
    let mut board = Board::new();
    board.setup_starting_position();
    for color in [Color::White, Color::Black] {
        let moves = get_moves_with_scores(&board, color);
        assert_eq!(moves.len(), 20);
        for pair in moves.windows(2) {
            assert!(pair[0].score >= pair[1].score);
        }
        for m in &moves {
            assert_eq!(board.get_piece(m.from).unwrap().color, color);
            assert!(board.generate_legal_moves_for_piece(m.from).contains(&m.to));
            let mut next = board.clone();
            next.make_move(m.from, m.to);
            assert_eq!(m.score, evaluate(&next, color));
        }
    }
    let white = get_moves_with_scores(&board, Color::White);
    assert_eq!((white[0].from, white[0].to, white[0].score), (sq("b1"), sq("c3"), 50));
    assert_eq!((white[1].from, white[1].to, white[1].score), (sq("g1"), sq("f3"), 50));
    assert_eq!((white[2].from, white[2].to, white[2].score), (sq("d2"), sq("d4"), 40));
    assert_eq!((white[3].from, white[3].to, white[3].score), (sq("e2"), sq("e4"), 40));
}

#[test]
fn captures_get_the_mvv_lva_bonus() {
    let board = board_with(&[
        ("g1", Color::White, PieceType::King),
        ("d4", Color::White, PieceType::Pawn),
        ("e5", Color::Black, PieceType::Queen),
        ("c5", Color::Black, PieceType::Knight),
        ("a8", Color::Black, PieceType::King),
    ]);
    let moves = get_moves_with_scores(&board, Color::White);
    let take_queen = moves.iter().find(|m| m.from == sq("d4") && m.to == sq("e5")).unwrap();
    let take_knight = moves.iter().find(|m| m.from == sq("d4") && m.to == sq("c5")).unwrap();
    let push = moves.iter().find(|m| m.from == sq("d4") && m.to == sq("d5")).unwrap();
    let mut after = board.clone();
    after.make_move(sq("d4"), sq("e5"));
    assert_eq!(
        take_queen.score,
        evaluate(&after, Color::White) + get_mvv_lva_score(PieceType::Pawn, PieceType::Queen)
    );
    let mut after = board.clone();
    after.make_move(sq("d4"), sq("c5"));
    assert_eq!(take_knight.score, evaluate(&after, Color::White) + 205);
    let mut after = board.clone();
    after.make_move(sq("d4"), sq("d5"));
    assert_eq!(push.score, evaluate(&after, Color::White));
    assert_eq!(moves[0], *take_queen);
    assert_eq!(moves[1], *take_knight);
}

#[test]
fn scored_moves_leave_out_moves_into_check() {
    let board = board_with(&[
        ("e1", Color::White, PieceType::King),
        ("e2", Color::White, PieceType::Knight),
        ("e8", Color::Black, PieceType::Rook),
        ("a8", Color::Black, PieceType::King),
    ]);
    let moves = get_moves_with_scores(&board, Color::White);
    assert_eq!(moves.len(), 4);
    for m in &moves {
        assert_eq!(m.from, sq("e1"));
        let mut next = board.clone();
        next.make_move(m.from, m.to);
        assert!(!is_in_check(&next, Color::White));
    }
}

#[test]
fn a_side_without_pieces_has_no_scored_moves() {
    let board = board_with(&[("e1", Color::White, PieceType::King)]);
    assert!(get_moves_with_scores(&board, Color::Black).is_empty());
    assert!(get_moves_with_scores(&Board::new(), Color::White).is_empty());
}

#[test]
fn negamax_at_depth_zero_is_the_evaluation() {
    let mut board = Board::new();
    board.setup_starting_position();
    board.make_move(sq("e2"), sq("e4"));
    for color in [Color::White, Color::Black] {
        assert_eq!(negamax(&board, 0, -i32::MAX, i32::MAX, color), evaluate(&board, color));
        assert_eq!(negamax(&board, 0, 5, 6, color), evaluate(&board, color));
    }
    assert_eq!(negamax(&board, 0, -i32::MAX, i32::MAX, Color::White), 40);
}

#[test]
fn checkmate_is_the_negative_sentinel() {
    let board = back_rank_mate();
    assert!(is_in_check(&board, Color::White));
    assert!(get_moves_with_scores(&board, Color::White).is_empty());
    for depth in 1..=4 {
        assert_eq!(negamax(&board, depth, -i32::MAX, i32::MAX, Color::White), MATE);
        assert_eq!(negamax(&board, depth, -10, 10, Color::White), -2147483646);
    }
    assert_eq!(find_best_move(&board, Color::White), None);
}

#[test]
fn stalemate_is_zero() {
    let board = stalemate();
    assert!(!is_in_check(&board, Color::White));
    assert!(get_moves_with_scores(&board, Color::White).is_empty());
    for depth in 1..=4 {
        assert_eq!(negamax(&board, depth, -i32::MAX, i32::MAX, Color::White), 0);
        assert_eq!(negamax(&board, depth, 100, 200, Color::White), 0);
    }
    assert_eq!(find_best_move(&board, Color::White), None);
    assert_eq!(find_best_move_at_depth(&board, Color::White, 1), None);
}

#[test]
fn negamax_with_a_full_window_is_plain_negamax() {
    let boards = [mate_in_one(), back_rank_mate(), stalemate()];
    for board in &boards {
        for color in [Color::White, Color::Black] {
            for depth in 0..=3 {
                assert_eq!(
                    negamax(board, depth, -i32::MAX, i32::MAX, color),
                    plain_negamax(board, depth, color)
                );
            }
        }
    }
}

#[test]
fn negamax_of_one_ply_is_the_best_reply_evaluation() {
    let board = board_with(&[
        ("e1", Color::White, PieceType::King),
        ("d4", Color::White, PieceType::Pawn),
        ("e5", Color::Black, PieceType::Queen),
        ("a8", Color::Black, PieceType::King),
    ]);
    let mut after = board.clone();
    after.make_move(sq("d4"), sq("e5"));
    let expected = evaluate(&after, Color::White);
    assert_eq!(negamax(&board, 1, -i32::MAX, i32::MAX, Color::White), expected);
    assert_eq!(expected, 105);
}

#[test]
fn negamax_stops_at_the_beta_cutoff() {
    let board = board_with(&[
        ("e1", Color::White, PieceType::King),
        ("d4", Color::White, PieceType::Pawn),
        ("e5", Color::Black, PieceType::Queen),
        ("a8", Color::Black, PieceType::King),
    ]);
    assert_eq!(negamax(&board, 1, -i32::MAX, 0, Color::White), 105);
    assert_eq!(negamax(&board, 1, 500, 400, Color::White), 500);
    assert_eq!(negamax(&board, 1, 500, 600, Color::White), 105);
}

#[test]
fn the_search_finds_mate_in_one() {
    let board = mate_in_one();
    assert_eq!(find_best_move_at_depth(&board, Color::White, 2), Some((sq("a1"), sq("a8"))));
    assert_eq!(negamax(&board, 2, -i32::MAX, i32::MAX, Color::White), i32::MAX - 1);
    let mut after = board.clone();
    after.make_move(sq("a1"), sq("a8"));
    assert_eq!(negamax(&after, 1, -i32::MAX, i32::MAX, Color::Black), MATE);
}

#[test]
fn the_search_takes_a_hanging_queen() {
    let board = board_with(&[
        ("e1", Color::White, PieceType::King),
        ("d4", Color::White, PieceType::Pawn),
        ("e5", Color::Black, PieceType::Queen),
        ("a8", Color::Black, PieceType::King),
    ]);
    for depth in 1..=3 {
        assert_eq!(
            find_best_move_at_depth(&board, Color::White, depth),
            Some((sq("d4"), sq("e5")))
        );
    }
    assert_eq!(find_best_move(&board, Color::White), Some((sq("d4"), sq("e5"))));
}

#[test]
fn the_first_of_equal_moves_is_chosen() {
    let mut board = Board::new();
    board.setup_starting_position();
    assert_eq!(find_best_move_at_depth(&board, Color::White, 1), Some((sq("b1"), sq("c3"))));
    assert_eq!(find_best_move_at_depth(&board, Color::Black, 1), Some((sq("b8"), sq("c6"))));
}

#[test]
fn the_best_move_never_leaves_the_king_in_check() {
    let boards = [
        mate_in_one(),
        board_with(&[
            ("e1", Color::White, PieceType::King),
            ("e2", Color::White, PieceType::Queen),
            ("e8", Color::Black, PieceType::Rook),
            ("a8", Color::Black, PieceType::King),
            ("h4", Color::Black, PieceType::Bishop),
        ]),
        board_with(&[
            ("e1", Color::White, PieceType::King),
            ("a4", Color::White, PieceType::Rook),
            ("e8", Color::Black, PieceType::Rook),
            ("h8", Color::Black, PieceType::King),
        ]),
    ];
    for board in &boards {
        for color in [Color::White, Color::Black] {
            let best = find_best_move(board, color);
            let any_move = !get_moves_with_scores(board, color).is_empty();
            assert_eq!(best.is_some(), any_move);
            if let Some((from, to)) = best {
                assert_eq!(board.get_piece(from).unwrap().color, color);
                assert!(board.generate_legal_moves_for_piece(from).contains(&to));
                let mut next = board.clone();
                assert!(next.make_move(from, to));
                assert!(!is_in_check(&next, color));
            }
        }
    }
}

#[test]
fn the_deepest_search_decides() {
    let board = mate_in_one();
    assert_eq!(
        find_best_move(&board, Color::White),
        find_best_move_at_depth(&board, Color::White, MAX_DEPTH)
    );
    assert_eq!(
        find_best_move(&board, Color::Black),
        find_best_move_at_depth(&board, Color::Black, MAX_DEPTH)
    );
}

#[test]
fn find_best_move_does_not_change_the_board() {
    let board = mate_in_one();
    let before = board.clone();
    let _ = find_best_move(&board, Color::White);
    for s in 0usize..128 {
        assert_eq!(board.squares[s], before.squares[s]);
    }
}
