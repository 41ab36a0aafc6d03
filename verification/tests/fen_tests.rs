use bitschess::{BoardHelper, ChessBoard, FenParsingError, PieceColor, PieceType, STARTPOS_FEN};

#[test]
fn fen_test_parse_fen_basic1() {
    let mut board = ChessBoard::new();
    board.parse_fen("4k3/2P5/4K3/8/8/8/5p2/8 b - - 0 1").expect("valid fen");

    assert_eq!(board.get_turn(), PieceColor::Black);

    let piece = board.get_piece(BoardHelper::text_to_square("f2"));
    assert_eq!(piece.get_piece_type(), PieceType::Pawn);
    assert_eq!(piece.get_color(), PieceColor::Black);
}

#[test]
fn test_parse_fen_basic1() {
    let mut board = ChessBoard::new();
    board.parse_fen("4k3/2P5/4K3/8/8/8/5p2/8 b - - 0 1").expect("valid fen");

    assert_eq!(board.get_turn(), PieceColor::Black);

    let piece = board.get_piece(BoardHelper::text_to_square("f2"));
    assert_eq!(piece.get_piece_type(), PieceType::Pawn);
    assert_eq!(piece.get_color(), PieceColor::Black);
}

#[test]
fn test_parse_fen_parsing_error_opponent_in_check() {
    let mut board = ChessBoard::new();
    assert_eq!(board.parse_fen("k7/4n3/8/3K4/8/1N6/8/8 b - - 0 1"), Err(FenParsingError::OpponentInCheck));
    assert_eq!(board.parse_fen("k7/8/1N6/3K4/8/1n6/8/8 w - - 0 1"), Err(FenParsingError::OpponentInCheck));
}

#[test]
fn test_parse_fen_parsing_no_white_king() {
    let mut board = ChessBoard::new();
    assert_eq!(board.parse_fen("rnbqkbnr/pppppppp/8/8/8/8/PPPPPPPP/RNBQ1BNR w HAkq - 0 1"), Err(FenParsingError::NoWhiteKing));
}

#[test]
fn test_parse_fen_parsing_no_black_king() {
    let mut board = ChessBoard::new();
    assert_eq!(board.parse_fen("rnbq1bnr/pppppppp/8/8/8/8/PPPPPPPP/RNBQKBNR w KQha - 0 1"), Err(FenParsingError::NoBlackKing));
}

#[test]
fn test_to_fen_start_pos() {
    let mut board = ChessBoard::new();
    board.parse_fen(STARTPOS_FEN).expect("valid fen");
    board.make_move_uci("e2e4").expect("valid move");
    assert_eq!(board.to_fen(), "rnbqkbnr/pppppppp/8/8/4P3/8/PPPP1PPP/RNBQKBNR b KQkq e3 0 1");
}

#[test]
fn test_to_fen_startpos() {
    let mut board = ChessBoard::new();
    let _ = board.parse_fen(STARTPOS_FEN);
    let _ = board.make_move_uci("e2e4");
    assert_eq!(board.to_fen(), "rnbqkbnr/pppppppp/8/8/4P3/8/PPPP1PPP/RNBQKBNR b KQkq e3 0 1");
}

#[test]
fn fen_test_parse_fen_en_passant() {
    let mut board = ChessBoard::new();
    board.parse_fen("4k3/8/8/5Pp1/8/8/8/4K3 w - g6 0 1").expect("valid fen");
    assert_eq!(board.en_passant, BoardHelper::text_to_square("g6"));
}

#[test]
fn test_parse_fen_en_passant() {
    let mut board = ChessBoard::new();
    board.parse_fen("4k3/8/8/5Pp1/8/8/8/4K3 w - g6 0 1").expect("valid fen");
    assert_eq!(board.en_passant, BoardHelper::text_to_square("g6"));
}

#[test]
fn fen_test_parse_fen_half_and_full_moves() {
    let mut board = ChessBoard::new();
    board.parse_fen("8/4k3/3p1p2/2pP1Pp1/2P1K1P1/8/8/8 w - - 69 420").expect("valid fen");
    assert_eq!(board.half_move, 69);
    assert_eq!(board.full_move, 420);
}

#[test]
fn test_parse_fen_half_and_full_moves() {
    let mut board = ChessBoard::new();
    board.parse_fen("8/4k3/3p1p2/2pP1Pp1/2P1K1P1/8/8/8 w - - 69 420").expect("valid fen");
    assert_eq!(board.half_move, 69);
    assert_eq!(board.full_move, 420);
}

#[test]
fn test_parse_fen_syntax_errors() {
    let mut board = ChessBoard::new();
    assert_eq!(board.parse_fen("4k3/8/8/8/8/8/8/4K2x w - - 0 1"), Err(FenParsingError::Syntax));
    assert_eq!(board.parse_fen("4k3/8/8/8/8/8/8/4K3 x - - 0 1"), Err(FenParsingError::Syntax));
    assert_eq!(board.parse_fen("4k3/8/8/8/8/8/8/4K3 w - - a 1"), Err(FenParsingError::Syntax));
    assert_eq!(board.parse_fen("4k3/8/8/8/8/8/8/4K3 w - - 256 1"), Err(FenParsingError::Syntax));
    assert_eq!(board.parse_fen("4k3/8/8/8/8/8/8/4K3 w - - 0 65536"), Err(FenParsingError::Syntax));
    assert_eq!(board.parse_fen("4k3/8/8/8/8/8/8/4K3/P w - - 0 1"), Err(FenParsingError::Syntax));
    for square in 0..64 {
        assert!(board.get_piece(square).is_none());
    }
}

#[test]
fn test_parse_fen_missing_fields() {
    let mut board = ChessBoard::new();
    board.parse_fen("4k3/8/8/8/8/8/8/4K3").expect("valid fen");
    assert_eq!(board.get_turn(), PieceColor::White);
    assert_eq!(board.castling_rights, [false, false, false, false]);
    assert_eq!(board.en_passant, -1);
    assert_eq!(board.half_move, 0);
    assert_eq!(board.full_move, 1);
    assert_eq!(board.to_fen(), "4k3/8/8/8/8/8/8/4K3 w - - 0 1");
}

#[test]
fn test_fen_round_trip() {
    let fens = [
        STARTPOS_FEN,
        "r3k2r/p1ppqpb1/bn2pnp1/3PN3/1p2P3/2N2Q1p/PPPBBPPP/R3K2R w KQkq - 0 1",
        "8/2p5/3p4/KP5r/1R3p1k/8/4P1P1/8 w - - 12 34",
        "rnbq1k1r/pp1Pbppp/2p5/8/2B5/8/PPP1NnPP/RNBQK2R w KQ - 1 8",
        "4k3/8/8/5Pp1/8/8/8/4K3 w - g6 0 1",
        "r3k2r/8/8/8/8/8/8/R3K2R b Kq - 255 65535",
    ];
    for fen in fens {
        let mut board = ChessBoard::new();
        board.parse_fen(fen).expect("valid fen");
        let text = board.to_fen();
        assert_eq!(text, fen);
        let mut again = ChessBoard::new();
        again.parse_fen(&text).expect("valid fen");
        assert_eq!(again, board);
        assert_eq!(again.zobrist_hash, board.zobrist_hash);
    }
}
