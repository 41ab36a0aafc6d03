use bitschess::{ChessBoard, Move, MoveFlag, MoveGenerator, PieceColor, PieceType, STARTPOS_FEN};

#[test]
#[should_panic]
fn test_chess_board_move_generation_en_passant_pin() {
    let mut board = ChessBoard::new();
    board.parse_fen("qk6/8/8/3pP3/8/5K2/8/8 w - d6 0 1").expect("valid fen");
    board.make_move_uci("e5d6").unwrap();
}

#[test]
#[should_panic]
fn test_chess_board_move_generation_en_passant_capture_reveal() {
    let mut board = ChessBoard::new();
    board.parse_fen("8/8/8/1kqpP1K1/8/8/8/8 w - d6 0 1").expect("valid fen");
    board.make_move_uci("e5d4").unwrap();
}

#[test]
#[should_panic]
fn test_chess_board_move_generation_en_passant_capture_reveal_black() {
    let mut board = ChessBoard::new();
    board.parse_fen("8/8/8/8/1k1pPQK1/8/8/8 b - e3 0 1").expect("valid fen");
    board.make_move_uci("d4e3").unwrap();
}

#[test]
fn test_chess_board_move_generation_en_passant_in_check() {
    let mut board = ChessBoard::new();
    board.parse_fen("8/8/3p4/1Pp4r/1K3p2/6k1/4P1P1/1R6 w - c6 0 3").expect("valid fen");
    board
        .make_move_uci("b5c6")
        .expect("en passant resolves the check and as such, should be allowed")
}

#[test]
fn test_chess_board_move_generation_en_passant_vertical_pin() {
    let mut board = ChessBoard::new();
    board.parse_fen("r1bqkbnr/ppp1pppp/8/2Pp4/8/8/PPPKPPPP/RNBQ1BNR w kq d6 0 4").expect("valid fen");
    board.make_move_uci("c5d6").expect(
        "en passant captures pinned piece and also resolves the pin so should be allowed",
    )
}

#[test]
#[should_panic]
fn test_chess_board_move_generation_double_pin_on_rook() {
    let mut board = ChessBoard::new();
    board
        .parse_fen("r3k2r/Pppp1ppp/1b3nbN/nP6/BBP1P3/q4N2/P2P1RPP/q2Q2K1 w kq - 0 2")
        .expect("valid fen");
    board.make_move_uci("f2f1").unwrap();
}

#[test]
#[should_panic]
fn test_chess_board_move_generation_pawn_jumping_pin_masks() {
    let mut board = ChessBoard::new();
    board.parse_fen("6k1/6p1/8/1r2p2K/4b1P1/P7/8/3q4 w - - 3 49").expect("valid fen");
    board.make_move_uci("g4g5").unwrap();
}

#[test]
#[should_panic]
fn test_chess_board_move_generation_pawn_jumping_pin_masks_capture() {
    let mut board = ChessBoard::new();
    board.parse_fen("8/R4p1k/5rP1/8/1P2Q3/P7/5P2/5K2 b - - 0 52").expect("valid fen");
    board.make_move_uci("f7g6").unwrap();
}

fn board_of(fen: &str) -> ChessBoard {
    let mut board = ChessBoard::new();
    board.parse_fen(fen).expect("valid fen");
    board
}

fn texts(moves: &[Move]) -> Vec<String> {
    let mut list: Vec<String> = moves.iter().map(|m| m.to_uci()).collect();
    list.sort();
    list
}

#[test]
fn test_en_passant_that_reveals_a_check_on_the_rank_is_not_generated() {
    let board = board_of("8/8/8/1kqpP1K1/8/8/8/8 w - d6 0 1");
    let moves = MoveGenerator::get_legal_moves(&board, true);
    assert!(moves.iter().all(|m| m.get_flag() != MoveFlag::EnPassant));
    assert!(!texts(&moves).contains(&String::from("e5d6")));
    assert!(texts(&moves).contains(&String::from("e5e6")));
}

#[test]
fn test_en_passant_that_captures_the_checking_pawn_is_generated() {
    let board = board_of("8/8/3p4/1Pp4r/1K3p2/6k1/4P1P1/1R6 w - c6 0 3");
    let moves = MoveGenerator::get_legal_moves(&board, true);
    assert!(moves.contains(&Move::new(33, 42, MoveFlag::EnPassant)));
}

#[test]
fn test_promotion_gives_four_moves() {
    let board = board_of("4k3/2P5/4K3/8/8/8/5p2/8 b - - 0 1");
    let from_f2 = MoveGenerator::get_legal_moves_for_square(&board, 13);
    assert_eq!(
        from_f2,
        vec![
            Move::new(13, 5, MoveFlag::PromoteKnight),
            Move::new(13, 5, MoveFlag::PromoteBishop),
            Move::new(13, 5, MoveFlag::PromoteRook),
            Move::new(13, 5, MoveFlag::PromoteQueen),
        ]
    );
    assert_eq!(MoveGenerator::get_legal_moves(&board, false), vec![]);
    let capturing = board_of("6n1/5P2/8/8/8/8/8/K6k w - - 0 1");
    assert_eq!(
        MoveGenerator::get_legal_moves(&capturing, false),
        vec![Move::new(53, 62, MoveFlag::PromoteQueen)]
    );
    let mut board = board;
    board.make_move_uci("f2f1q").expect("legal");
    let piece = board.get_piece(5);
    assert_eq!(piece.get_piece_type(), PieceType::Queen);
    assert_eq!(piece.get_color(), PieceColor::Black);
}

#[test]
fn test_castling_is_generated_when_the_path_is_free_and_safe() {
    let board = board_of("r3k2r/8/8/8/8/8/8/R3K2R w KQkq - 0 1");
    let moves = MoveGenerator::get_legal_moves(&board, true);
    assert!(moves.contains(&Move::new(4, 6, MoveFlag::Castle)));
    assert!(moves.contains(&Move::new(4, 2, MoveFlag::Castle)));
    assert_eq!(moves.len(), 26);
    let black = board_of("r3k2r/8/8/8/8/8/8/R3K2R b KQkq - 0 1");
    let moves = MoveGenerator::get_legal_moves(&black, true);
    assert!(moves.contains(&Move::new(60, 62, MoveFlag::Castle)));
    assert!(moves.contains(&Move::new(60, 58, MoveFlag::Castle)));
}

#[test]
fn test_castling_through_an_attacked_square_is_not_generated() {
    // the rook on f8 attacks f1, the bishop on a5 gives no check
    let board = board_of("4kr2/8/8/8/8/8/8/R3K2R w KQ - 0 1");
    let moves = MoveGenerator::get_legal_moves(&board, true);
    assert!(!moves.contains(&Move::new(4, 6, MoveFlag::Castle)));
    assert!(moves.contains(&Move::new(4, 2, MoveFlag::Castle)));
    // in check no castling at all
    let board = board_of("4r1k1/8/8/8/8/8/8/R3K2R w KQ - 0 1");
    let moves = MoveGenerator::get_legal_moves(&board, true);
    assert!(moves.iter().all(|m| m.get_flag() != MoveFlag::Castle));
    // without the right no castling
    let board = board_of("r3k2r/8/8/8/8/8/8/R3K2R w kq - 0 1");
    let moves = MoveGenerator::get_legal_moves(&board, true);
    assert!(moves.iter().all(|m| m.get_flag() != MoveFlag::Castle));
    // a piece between king and rook
    let board = board_of("r3k2r/8/8/8/8/8/8/RN2K1NR w KQkq - 0 1");
    let moves = MoveGenerator::get_legal_moves(&board, true);
    assert!(moves.iter().all(|m| m.get_flag() != MoveFlag::Castle));
}

#[test]
fn test_start_position_moves() {
    let board = board_of(STARTPOS_FEN);
    let moves = MoveGenerator::get_legal_moves(&board, true);
    assert_eq!(moves.len(), 20);
    assert_eq!(MoveGenerator::get_legal_moves(&board, false).len(), 0);
    assert_eq!(board.get_legal_moves().len(), 20);
    assert_eq!(board.get_legal_captures().len(), 0);
    assert_eq!(
        texts(&board.get_legal_moves_for_square(12).iter()),
        vec![String::from("e2e3"), String::from("e2e4")]
    );
    assert_eq!(
        texts(&MoveGenerator::get_legal_moves_for_square(&board, 1)),
        vec![String::from("b1a3"), String::from("b1c3")]
    );
    assert!(!board.is_check_mate());
    assert!(!board.is_king_in_check(PieceColor::White));
    assert!(!board.is_draw());
}

#[test]
fn test_no_move_is_generated_twice() {
    let fens = [
        STARTPOS_FEN,
        "r3k2r/p1ppqpb1/bn2pnp1/3PN3/1p2P3/2N2Q1p/PPPBBPPP/R3K2R w KQkq - 0 1",
        "8/2p5/3p4/KP5r/1R3p1k/8/4P1P1/8 w - - 0 1",
        "r3k2r/Pppp1ppp/1b3nbN/nP6/BBP1P3/q4N2/Pp1P2PP/R2Q1RK1 w kq - 0 1",
        "rnbq1k1r/pp1Pbppp/2p5/8/2B5/8/PPP1NnPP/RNBQK2R w KQ - 1 8",
        "R6R/3Q4/1Q4Q1/4Q3/2Q4Q/Q4Q2/pp1Q4/kBNN1KB1 w - - 0 1",
    ];
    for fen in fens {
        let board = board_of(fen);
        let moves = MoveGenerator::get_legal_moves(&board, true);
        for i in 0..moves.len() {
            for j in 0..i {
                assert_ne!(moves[i], moves[j]);
            }
        }
    }
}

#[test]
fn test_the_position_with_the_most_moves() {
    let board = board_of("R6R/3Q4/1Q4Q1/4Q3/2Q4Q/Q4Q2/pp1Q4/kBNN1KB1 w - - 0 1");
    assert_eq!(MoveGenerator::get_legal_moves(&board, true).len(), 218);
    assert_eq!(board.get_legal_moves().len(), 218);
}

#[test]
fn test_every_generated_move_leaves_the_king_safe() {
    let fens = [
        STARTPOS_FEN,
        "r3k2r/p1ppqpb1/bn2pnp1/3PN3/1p2P3/2N2Q1p/PPPBBPPP/R3K2R w KQkq - 0 1",
        "8/2p5/3p4/KP5r/1R3p1k/8/4P1P1/8 w - - 0 1",
        "r3k2r/Pppp1ppp/1b3nbN/nP6/BBP1P3/q4N2/Pp1P2PP/R2Q1RK1 w kq - 0 1",
        "rnbq1k1r/pp1Pbppp/2p5/8/2B5/8/PPP1NnPP/RNBQK2R w KQ - 1 8",
        "8/8/3p4/1Pp4r/1K3p2/6k1/4P1P1/1R6 w - c6 0 3",
    ];
    for fen in fens {
        let mut board = board_of(fen);
        let mover = board.get_turn();
        for m in MoveGenerator::get_legal_moves(&board, true) {
            assert!(board.can_make(m));
            board.make_move(m, true);
            assert!(!board.is_king_in_check(mover));
            assert_eq!(board.zobrist_hash, board.create_zobrist_hash());
            let _ = board.unmake_move();
        }
    }
}

#[test]
fn test_masks() {
    let board = board_of("4k3/8/8/8/8/8/4r3/4K3 w - - 0 1");
    let attacked = MoveGenerator::get_attack_mask(&board);
    // the rook attacks along the second rank and down through the king
    assert_ne!(attacked & (1 << 4), 0);
    assert_ne!(attacked & (1 << 8), 0);
    assert_ne!(attacked & (1 << 15), 0);
    assert_eq!(attacked & (1 << 3), 0);
    let (twice, check) = MoveGenerator::get_check_mask(&board);
    assert!(!twice);
    assert_eq!(check, 1 << 12);
    assert!(board.is_king_in_check(PieceColor::White));
    assert!(board.is_square_in_check(PieceColor::White, 4));
    assert!(!board.is_square_in_check(PieceColor::White, 3));

    let board = board_of("4k3/8/8/8/8/4r3/8/4K3 w - - 0 1");
    let (twice, check) = MoveGenerator::get_check_mask(&board);
    assert!(!twice);
    assert_eq!(check, (1 << 12) | (1 << 20));

    let board = board_of("4k3/8/8/8/7b/4r3/8/4K3 w - - 0 1");
    let (twice, _) = MoveGenerator::get_check_mask(&board);
    assert!(twice);
    let moves = MoveGenerator::get_legal_moves(&board, true);
    assert!(moves.iter().all(|m| m.get_from_idx() == 4));

    let board = board_of("4k3/8/8/8/8/8/8/4K3 w - - 0 1");
    assert_eq!(MoveGenerator::get_check_mask(&board), (false, u64::MAX));
    assert_eq!(MoveGenerator::get_pinned_mask(&board), (0, 0));

    // a rook pinned on the file, a knight pinned on the diagonal
    let board = board_of("4r1k1/8/8/8/7b/4R3/5N2/4K3 w - - 0 1");
    let (hv, d) = MoveGenerator::get_pinned_mask(&board);
    assert_eq!(hv, (1 << 12) | (1 << 20) | (1 << 28) | (1 << 36) | (1 << 44) | (1 << 52) | (1 << 60));
    assert_eq!(d, (1 << 13) | (1 << 22) | (1 << 31));
    let moves = MoveGenerator::get_legal_moves(&board, true);
    assert!(moves.iter().all(|m| m.get_from_idx() != 13));
    assert!(moves.iter().filter(|m| m.get_from_idx() == 20).all(|m| m.get_to_idx() % 8 == 4));
    assert_eq!(moves.iter().filter(|m| m.get_from_idx() == 20).count(), 6);
}

#[test]
fn test_check_mate() {
    let board = board_of("rnb1kbnr/pppp1ppp/8/4p3/6Pq/5P2/PPPPP2P/RNBQKBNR w KQkq - 1 3");
    assert!(board.is_check_mate());
    assert_eq!(board.get_legal_moves().len(), 0);
    let stalemate = board_of("7k/5Q2/6K1/8/8/8/8/8 b - - 0 1");
    assert!(!stalemate.is_check_mate());
    assert_eq!(stalemate.get_legal_moves().len(), 0);
}

#[test]
fn test_make_move_checked() {
    let mut board = board_of(STARTPOS_FEN);
    assert!(!board.make_move_checked(Move::new(12, 36, MoveFlag::Normal)));
    assert!(!board.make_move_checked(Move::new(12, 28, MoveFlag::Normal)));
    assert_eq!(board.to_fen(), STARTPOS_FEN);
    assert!(board.make_move_checked(Move::new(12, 28, MoveFlag::PawnTwoUp)));
    assert_eq!(board.to_fen(), "rnbqkbnr/pppppppp/8/8/4P3/8/PPPP1PPP/RNBQKBNR b KQkq e3 0 1");
    assert_eq!(board.make_move_uci("e2e4"), None);
    assert_eq!(board.make_move_uci("e7"), None);
    assert_eq!(board.make_move_uci(""), None);
    assert_eq!(board.make_move_uci("E7E5"), None);
    assert_eq!(board.make_move_uci("e7e5"), Some(()));
}

fn uci_moves(board: &ChessBoard) -> Vec<String> {
    MoveGenerator::get_legal_moves(board, true).iter().map(|m| m.to_uci()).collect()
}

#[test]
fn test_en_passant_on_the_kings_rank_is_generated_though_a_knight_gives_check() {
    // only the rank is examined for a pawn beside its king
    let mut board = ChessBoard::new();
    board.parse_fen("8/8/8/2pPK3/8/5n2/8/k7 w - c6 0 1").expect("valid fen");
    assert!(board.is_king_in_check(PieceColor::White));
    assert!(uci_moves(&board).contains(&String::from("d5c6")));
    board.make_move(Move::new(35, 42, MoveFlag::EnPassant), true);
    assert!(board.is_king_in_check(PieceColor::White));
}

#[test]
fn test_en_passant_on_the_kings_rank_may_block_a_check() {
    let mut board = ChessBoard::new();
    board.parse_fen("4b2k/8/8/1KpP4/8/8/8/8 w - c6 0 1").expect("valid fen");
    assert!(board.is_king_in_check(PieceColor::White));
    assert!(uci_moves(&board).contains(&String::from("d5c6")));
    board.make_move(Move::new(35, 42, MoveFlag::EnPassant), true);
    assert!(!board.is_king_in_check(PieceColor::White));
}

#[test]
fn test_en_passant_by_a_pinned_pawn_is_not_generated_even_along_the_pin() {
    let mut board = ChessBoard::new();
    board.parse_fen("8/1b6/8/2pP4/4K3/8/8/7k w - c6 0 2").expect("valid fen");
    assert!(!board.is_king_in_check(PieceColor::White));
    assert!(!uci_moves(&board).contains(&String::from("d5c6")));
    board.make_move(Move::new(35, 42, MoveFlag::EnPassant), true);
    assert!(!board.is_king_in_check(PieceColor::White));
}

#[test]
fn test_en_passant_of_a_pawn_on_a_shielded_diagonal_is_not_generated() {
    let mut board = ChessBoard::new();
    board.parse_fen("7k/b7/1n6/1Pp5/8/4K3/8/8 w - c6 0 2").expect("valid fen");
    assert!(!board.is_king_in_check(PieceColor::White));
    assert!(!uci_moves(&board).contains(&String::from("b5c6")));
    board.make_move(Move::new(33, 42, MoveFlag::EnPassant), true);
    assert!(!board.is_king_in_check(PieceColor::White));
}

#[test]
fn test_en_passant_that_would_block_a_check_is_not_generated() {
    let mut board = ChessBoard::new();
    board.parse_fen("b6k/8/8/1Pp5/4K3/8/8/8 w - c6 0 2").expect("valid fen");
    assert!(board.is_king_in_check(PieceColor::White));
    assert!(!uci_moves(&board).contains(&String::from("b5c6")));
    board.make_move(Move::new(33, 42, MoveFlag::EnPassant), true);
    assert!(!board.is_king_in_check(PieceColor::White));
}
