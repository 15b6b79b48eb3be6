use chess_engine::{
    coords_to_square, evaluate, get_mvv_lva_score, get_piece_value, get_pst_value, piece_char,
    Board, Color, Piece, PieceType,
};

const KINDS: [PieceType; 6] = [
    PieceType::Pawn,
    PieceType::Knight,
    PieceType::Bishop,
    PieceType::Rook,
    PieceType::Queen,
    PieceType::King,
];

fn sq(name: &str) -> u8 {
    coords_to_square(name).unwrap()
}

fn board_with(pieces: &[(&str, Color, PieceType)]) -> Board {
    let mut board = Board::new();
    for &(name, color, kind) in pieces {
        board.set_piece(sq(name), Piece { color, kind });
    }
    board
}

#[test]
fn piece_values() {
    assert_eq!(get_piece_value(PieceType::Pawn), 100);
    assert_eq!(get_piece_value(PieceType::Knight), 320);
    assert_eq!(get_piece_value(PieceType::Bishop), 330);
    assert_eq!(get_piece_value(PieceType::Rook), 500);
    assert_eq!(get_piece_value(PieceType::Queen), 900);
    assert_eq!(get_piece_value(PieceType::King), 20000);
}

#[test]
fn mvv_lva_table() {
    let table = [
        [105, 205, 305, 405, 505, 605],
        [104, 204, 304, 404, 504, 604],
        [103, 203, 303, 403, 503, 603],
        [102, 202, 302, 402, 502, 602],
        [101, 201, 301, 401, 501, 601],
        [100, 200, 300, 400, 500, 600],
    ];
    for (a, attacker) in KINDS.iter().enumerate() {
        for (v, victim) in KINDS.iter().enumerate() {
            assert_eq!(get_mvv_lva_score(*attacker, *victim), table[a][v]);
        }
    }
}

#[test]
fn mvv_lva_prefers_big_victims_and_small_attackers() {
    assert!(get_mvv_lva_score(PieceType::Pawn, PieceType::Queen)
        > get_mvv_lva_score(PieceType::Pawn, PieceType::Rook));
    assert!(get_mvv_lva_score(PieceType::Pawn, PieceType::Queen)
        > get_mvv_lva_score(PieceType::Knight, PieceType::Queen));
    assert!(get_mvv_lva_score(PieceType::King, PieceType::Knight)
        > get_mvv_lva_score(PieceType::Pawn, PieceType::Pawn));
}

#[test]
fn piece_letters() {
    let white = ['P', 'N', 'B', 'R', 'Q', 'K'];
    let black = ['p', 'n', 'b', 'r', 'q', 'k'];
    for (i, kind) in KINDS.iter().enumerate() {
        assert_eq!(piece_char(Piece { color: Color::White, kind: *kind }), white[i]);
        assert_eq!(piece_char(Piece { color: Color::Black, kind: *kind }), black[i]);
    }
}

#[test]
fn pst_values_for_white() {
    assert_eq!(get_pst_value(sq("a8"), PieceType::Pawn, Color::White), 0);
    assert_eq!(get_pst_value(sq("e7"), PieceType::Pawn, Color::White), 50);
    assert_eq!(get_pst_value(sq("d5"), PieceType::Pawn, Color::White), 25);
    assert_eq!(get_pst_value(sq("e2"), PieceType::Pawn, Color::White), -20);
    assert_eq!(get_pst_value(sq("b3"), PieceType::Pawn, Color::White), -5);
    assert_eq!(get_pst_value(sq("a8"), PieceType::Knight, Color::White), -50);
    assert_eq!(get_pst_value(sq("d4"), PieceType::Knight, Color::White), 20);
    assert_eq!(get_pst_value(sq("b3"), PieceType::Bishop, Color::White), 10);
    assert_eq!(get_pst_value(sq("d1"), PieceType::Rook, Color::White), 5);
    assert_eq!(get_pst_value(sq("b7"), PieceType::Rook, Color::White), 10);
    assert_eq!(get_pst_value(sq("a4"), PieceType::Queen, Color::White), 0);
    assert_eq!(get_pst_value(sq("h4"), PieceType::Queen, Color::White), -5);
    assert_eq!(get_pst_value(sq("g1"), PieceType::King, Color::White), 30);
    assert_eq!(get_pst_value(sq("e8"), PieceType::King, Color::White), -50);
}

#[test]
fn pst_values_are_mirrored_for_black() {
    assert_eq!(get_pst_value(sq("e2"), PieceType::Pawn, Color::Black), 50);
    assert_eq!(get_pst_value(sq("e7"), PieceType::Pawn, Color::Black), -20);
    assert_eq!(get_pst_value(sq("g8"), PieceType::King, Color::Black), 30);
    assert_eq!(get_pst_value(sq("a5"), PieceType::Queen, Color::Black), 0);
    assert_eq!(get_pst_value(sq("h5"), PieceType::Queen, Color::Black), -5);
    for kind in KINDS {
        for rank in 0u8..8 {
            for file in 0u8..8 {
                let here = rank * 16 + file;
                let mirrored = (7 - rank) * 16 + file;
                assert_eq!(
                    get_pst_value(here, kind, Color::Black),
                    get_pst_value(mirrored, kind, Color::White)
                );
            }
        }
    }
}

#[test]
fn pst_values_stay_within_fifty() {
    for kind in KINDS {
        for square in 0u8..128 {
            for color in [Color::White, Color::Black] {
                let v = get_pst_value(square, kind, color);
                assert!(-50 <= v && v <= 50);
            }
        }
    }
}

#[test]
fn pst_value_ignores_the_high_file_bit() {
    assert_eq!(
        get_pst_value(0x6c, PieceType::Pawn, Color::White),
        get_pst_value(0x64, PieceType::Pawn, Color::White)
    );
}

#[test]
fn empty_board_evaluates_to_zero() {
    assert_eq!(evaluate(&Board::new(), Color::White), 0);
    assert_eq!(evaluate(&Board::new(), Color::Black), 0);
}

#[test]
fn starting_position_evaluates_to_zero() {
    let mut board = Board::new();
    board.setup_starting_position();
    assert_eq!(evaluate(&board, Color::White), 0);
    assert_eq!(evaluate(&board, Color::Black), 0);
}

#[test]
fn single_pieces_evaluate_to_material_plus_position() {
    let board = board_with(&[("e2", Color::White, PieceType::Pawn)]);
    assert_eq!(evaluate(&board, Color::White), 80);
    assert_eq!(evaluate(&board, Color::Black), -80);
    let board = board_with(&[("e7", Color::Black, PieceType::Pawn)]);
    assert_eq!(evaluate(&board, Color::White), -80);
    assert_eq!(evaluate(&board, Color::Black), 80);
    let board = board_with(&[("d4", Color::White, PieceType::Knight)]);
    assert_eq!(evaluate(&board, Color::White), 340);
    let board = board_with(&[("g8", Color::Black, PieceType::King)]);
    assert_eq!(evaluate(&board, Color::Black), 20030);
    assert_eq!(evaluate(&board, Color::White), -20030);
}

#[test]
fn evaluation_adds_up_over_the_board() {
    let board = board_with(&[
        ("e1", Color::White, PieceType::King),
        ("d1", Color::White, PieceType::Queen),
        ("e8", Color::Black, PieceType::King),
        ("a8", Color::Black, PieceType::Rook),
        ("h7", Color::Black, PieceType::Pawn),
    ]);
    let white = (20000 + 0) + (900 - 5);
    let black = (20000 + 0) + (500 + 0) + (100 + 5);
    assert_eq!(evaluate(&board, Color::White), white - black);
    assert_eq!(evaluate(&board, Color::Black), black - white);
}

#[test]
fn evaluation_is_symmetric() {
    let mut board = Board::new();
    board.setup_starting_position();
    let moves = [("e2", "e4"), ("d7", "d5"), ("e4", "d5"), ("d8", "d5"), ("b1", "c3"), ("d5", "a5")];
    for (from, to) in moves {
        assert!(board.make_move(sq(from), sq(to)));
        assert_eq!(evaluate(&board, Color::White), -evaluate(&board, Color::Black));
    }
    assert_eq!(evaluate(&board, Color::White), 45);
}

#[test]
fn evaluation_skips_slots_off_the_board() {
    let mut board = Board::new();
    board.squares[0x0a] = Some(Piece { color: Color::White, kind: PieceType::Queen });
    assert_eq!(evaluate(&board, Color::White), 0);
}
