use bitschess::{BoardHelper, ChessBoard, Move, PieceColor, PieceType, STARTPOS_FEN, STARTPOS_FEN_BLACK};

const TEST_PROMOTION_FEN: &str = "4k3/2P5/4K3/8/8/8/5p2/8 b - - 0 1";

#[test]
fn board_test_chessboard_make_move_queen_promotion() {
    let mut board = ChessBoard::new();
    board.parse_fen(TEST_PROMOTION_FEN).expect("valid fen");

    board.make_move(Move::from_uci("f2f1q"), false);
    let piece = board.get_piece(BoardHelper::text_to_square("f1"));
    assert_eq!(piece.get_piece_type(), PieceType::Queen);
}

#[test]
fn test_chessboard_make_move_queen_promotion() {
    let mut board = ChessBoard::new();
    board.parse_fen(TEST_PROMOTION_FEN).expect("valid fen");

    board.make_move(Move::from_uci("f2f1q"), false);
    let piece = board.get_piece(BoardHelper::text_to_square("f1"));
    assert_eq!(piece.get_piece_type(), PieceType::Queen);
}

#[test]
fn board_test_chessboard_make_move_rook_promotion() {
    let mut board = ChessBoard::new();
    board.parse_fen(TEST_PROMOTION_FEN).expect("valid fen");
    board.set_turn(PieceColor::White);

    board.make_move(Move::from_uci("f2f1r"), false);
    let piece = board.get_piece(BoardHelper::text_to_square("f1"));
    assert_eq!(piece.get_piece_type(), PieceType::Rook);
}

#[test]
fn test_chessboard_make_move_rook_promotion() {
    let mut board = ChessBoard::new();
    board.parse_fen(TEST_PROMOTION_FEN).expect("valid fen");
    board.set_turn(PieceColor::White);

    board.make_move(Move::from_uci("f2f1r"), false);
    let piece = board.get_piece(BoardHelper::text_to_square("f1"));
    assert_eq!(piece.get_piece_type(), PieceType::Rook);
}

#[test]
fn board_test_chessboard_make_move_bishop_promotion() {
    let mut board = ChessBoard::new();
    board.parse_fen(TEST_PROMOTION_FEN).expect("valid fen");

    board.make_move(Move::from_uci("f2f1b"), false);
    let piece = board.get_piece(BoardHelper::text_to_square("f1"));
    assert_eq!(piece.get_piece_type(), PieceType::Bishop);
}

#[test]
fn test_chessboard_make_move_bishop_promotion() {
    let mut board = ChessBoard::new();
    board.parse_fen(TEST_PROMOTION_FEN).expect("valid fen");

    board.make_move(Move::from_uci("f2f1b"), false);
    let piece = board.get_piece(BoardHelper::text_to_square("f1"));
    assert_eq!(piece.get_piece_type(), PieceType::Bishop);
}

#[test]
fn board_test_chessboard_make_move_knight_promotion() {
    let mut board = ChessBoard::new();
    board.parse_fen(TEST_PROMOTION_FEN).expect("valid fen");

    board.make_move(Move::from_uci("f2f1n"), false);
    let piece = board.get_piece(BoardHelper::text_to_square("f1"));
    assert_eq!(piece.get_piece_type(), PieceType::Knight);
}

#[test]
fn test_chessboard_make_move_knight_promotion() {
    let mut board = ChessBoard::new();
    board.parse_fen(TEST_PROMOTION_FEN).expect("valid fen");

    board.make_move(Move::from_uci("f2f1n"), false);
    let piece = board.get_piece(BoardHelper::text_to_square("f1"));
    assert_eq!(piece.get_piece_type(), PieceType::Knight);
}

#[test]
fn board_test_chessboard_make_move_pawn_2_up() {
    let mut board = ChessBoard::new();
    board.parse_fen("4k3/6p1/8/5P2/8/8/8/4K3 b - - 0 1").expect("valid fen");
    board.make_move_uci("g7g5").unwrap();
    assert_eq!(board.en_passant, BoardHelper::text_to_square("g6"));
}

#[test]
fn test_chessboard_make_move_pawn_2_up() {
    let mut board = ChessBoard::new();
    board.parse_fen("4k3/6p1/8/5P2/8/8/8/4K3 b - - 0 1").expect("valid fen");
    board.make_move_uci("g7g5").unwrap();
    assert_eq!(board.en_passant, BoardHelper::text_to_square("g6"));
}

#[test]
fn board_test_chessboard_make_move_en_passant_basic_white() {
    let mut board = ChessBoard::new();
    board.parse_fen("4k3/8/8/5Pp1/8/8/8/4K3 w - g6 0 1").expect("valid fen");
    board.make_move_uci("f5g6").unwrap();

    assert_eq!(board.en_passant, -1);
    assert_eq!(board.get_piece(BoardHelper::text_to_square("g5")).is_none(), true);
}

#[test]
fn test_chessboard_make_move_en_passant_basic_white() {
    let mut board = ChessBoard::new();
    board.parse_fen("4k3/8/8/5Pp1/8/8/8/4K3 w - g6 0 1").expect("valid fen");
    board.make_move_uci("f5g6").unwrap();

    assert_eq!(board.en_passant, -1);
    assert_eq!(board.get_piece(BoardHelper::text_to_square("g5")).is_none(), true);
}

#[test]
fn board_test_chessboard_make_move_en_passant_basic_black() {
    let mut board = ChessBoard::new();
    board.parse_fen("8/8/8/8/3pP3/k6K/8/8 b - e3 0 1").expect("valid fen");
    board.make_move_uci("d4e3").unwrap();

    assert_eq!(board.en_passant, -1);
    assert_eq!(board.get_piece(BoardHelper::text_to_square("e4")).is_none(), true);
}

#[test]
fn test_chessboard_make_move_en_passant_basic_black() {
    let mut board = ChessBoard::new();
    board.parse_fen("8/8/8/8/3pP3/k6K/8/8 b - e3 0 1").expect("valid fen");
    board.make_move_uci("d4e3").unwrap();

    assert_eq!(board.en_passant, -1);
    assert_eq!(board.get_piece(BoardHelper::text_to_square("e4")).is_none(), true);
}

fn _test_unmake_move(fen: &str, uci_move: &str) {
    let mut board = ChessBoard::new();
    board.parse_fen(fen).expect("valid fen");

    let copy = board.clone();
    board.make_move_uci(uci_move).expect("valid");
    let _ = board.unmake_move();

    assert_eq!(board, copy);
}

#[test]
fn board_test_chessboard_unmake_move_basic_1() {
    _test_unmake_move(STARTPOS_FEN, "e2e4");
}

#[test]
fn test_chessboard_unmake_move_basic_1() {
    _test_unmake_move(STARTPOS_FEN, "e2e4");
}

#[test]
fn board_test_chessboard_unmake_move_basic_2() {
    _test_unmake_move(STARTPOS_FEN_BLACK, "e7e5");
}

#[test]
fn test_chessboard_unmake_move_basic_2() {
    _test_unmake_move(STARTPOS_FEN_BLACK, "e7e5");
}

#[test]
fn board_test_chessboard_unmake_move_basic_3() {
    _test_unmake_move(STARTPOS_FEN, "b1a3");
}

#[test]
fn test_chessboard_unmake_move_basic_3() {
    _test_unmake_move(STARTPOS_FEN, "b1a3");
}

#[test]
fn board_test_chessboard_unmake_move_en_passant_basic_white() {
    _test_unmake_move("4k3/8/8/5Pp1/8/8/8/4K3 w - g6 0 1", "f5g6");
}

#[test]
fn test_chessboard_unmake_move_en_passant_basic_white() {
    _test_unmake_move("4k3/8/8/5Pp1/8/8/8/4K3 w - g6 0 1", "f5g6");
}

#[test]
fn board_test_chessboard_unmake_move_en_passant_basic_black() {
    _test_unmake_move("8/8/8/8/3pP3/k6K/8/8 b - e3 0 1", "d4e3");
}

#[test]
fn test_chessboard_unmake_move_en_passant_basic_black() {
    _test_unmake_move("8/8/8/8/3pP3/k6K/8/8 b - e3 0 1", "d4e3");
}

#[test]
fn board_test_chessboard_make_move_castle_white() {
    _test_unmake_move("r3k2r/8/8/8/8/8/8/R3K2R w KQkq - 0 1", "e1g1");
    _test_unmake_move("r3k2r/8/8/8/8/8/8/R3K2R w KQkq - 0 1", "e1c1");
}

#[test]
fn test_chessboard_make_move_castle_white() {
    _test_unmake_move("r3k2r/8/8/8/8/8/8/R3K2R w KQkq - 0 1", "e1g1");
    _test_unmake_move("r3k2r/8/8/8/8/8/8/R3K2R w KQkq - 0 1", "e1c1");
}

#[test]
fn board_test_chessboard_make_move_castle_black() {
    _test_unmake_move("r3k2r/8/8/8/8/8/8/R3K2R b KQkq - 0 1", "e8g8");
    _test_unmake_move("r3k2r/8/8/8/8/8/8/R3K2R b KQkq - 0 1", "e8c8");
}

#[test]
fn test_chessboard_make_move_castle_black() {
    _test_unmake_move("r3k2r/8/8/8/8/8/8/R3K2R b KQkq - 0 1", "e8g8");
    _test_unmake_move("r3k2r/8/8/8/8/8/8/R3K2R b KQkq - 0 1", "e8c8");
}

#[test]
fn board_test_chessboard_unmake_move_queen_promotion() {
    _test_unmake_move(TEST_PROMOTION_FEN, "f2f1q");
}

#[test]
fn test_chessboard_unmake_move_queen_promotion() {
    _test_unmake_move(TEST_PROMOTION_FEN, "f2f1q");
}

#[test]
fn board_test_chessboard_unmake_move_rook_promotion() {
    _test_unmake_move(TEST_PROMOTION_FEN, "f2f1r");
}

#[test]
fn test_chessboard_unmake_move_rook_promotion() {
    _test_unmake_move(TEST_PROMOTION_FEN, "f2f1r");
}

#[test]
fn board_test_chessboard_unmake_move_bishop_promotion() {
    _test_unmake_move(TEST_PROMOTION_FEN, "f2f1b");
}

#[test]
fn test_chessboard_unmake_move_bishop_promotion() {
    _test_unmake_move(TEST_PROMOTION_FEN, "f2f1b");
}

#[test]
fn board_test_chessboard_unmake_move_knight_promotion() {
    _test_unmake_move(TEST_PROMOTION_FEN, "f2f1n");
}

#[test]
fn test_chessboard_unmake_move_knight_promotion() {
    _test_unmake_move(TEST_PROMOTION_FEN, "f2f1n");
}
