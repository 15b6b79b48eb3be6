use chess_engine::{contains_square, coords_to_square, Board, Color, Piece, PieceType};

#[test]
fn starting_position_rank_symbols() {
    let mut board = Board::new();
    board.setup_starting_position();
    let rows: Vec<String> =
        (0u8..8).map(|rank| board.rank_symbols(rank, &[]).into_iter().collect()).collect();
    assert_eq!(
        rows,
        vec![
            "rnbqkbnr", "pppppppp", "........", "........", "........", "........", "PPPPPPPP",
            "RNBQKBNR",
        ]
    );
}

#[test]
fn highlighted_squares_show_a_star() {
    let mut board = Board::new();
    board.setup_starting_position();
    let from = coords_to_square("g1").unwrap();
    let legal = board.generate_moves_for_square(from);
    let row: String = board.rank_symbols(5, &legal).into_iter().collect();
    assert_eq!(row, ".....*.*");
    let covered = [coords_to_square("a8").unwrap()];
    let row: String = board.rank_symbols(0, &covered).into_iter().collect();
    assert_eq!(row, "*nbqkbnr");
}

#[test]
fn every_rank_has_eight_symbols() {
    let mut board = Board::new();
    board.set_piece(0x33, Piece { color: Color::White, kind: PieceType::Queen });
    for rank in 0u8..8 {
        assert_eq!(board.rank_symbols(rank, &[0x08, 0xff]).len(), 8);
    }
    assert_eq!(board.rank_symbols(3, &[])[3], 'Q');
}

#[test]
fn contains_square_finds_members_only() {
    assert!(contains_square(&[1, 2, 3], 2));
    assert!(contains_square(&[7], 7));
    assert!(!contains_square(&[1, 2, 3], 4));
    assert!(!contains_square(&[], 0));
}
