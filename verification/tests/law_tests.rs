use bitschess::repetition_table::{RepetitionEntry, ENTRY_COUNT};
use bitschess::{
    ChessBoard, Move, MoveFlag, MoveGenerator, Piece, PieceColor, PieceType, RepetitionTable,
    STARTPOS_FEN,
};

fn board_of(fen: &str) -> ChessBoard {
    let mut board = ChessBoard::new();
    board.parse_fen(fen).expect("valid fen");
    board
}

fn agrees(board: &ChessBoard) {
    for square in 0..64 {
        let piece = board.get_piece(square);
        for index in 0..12 {
            let member = (board.bitboards[index] >> square) & 1 == 1;
            assert_eq!(member, !piece.is_none() && piece.get_piece_index() == index);
        }
        for side in 0..2 {
            let member = (board.side_bitboards[side] >> square) & 1 == 1;
            assert_eq!(member, !piece.is_none() && piece.get_color().to_index() == side);
        }
    }
    let white: u64 = board.bitboards[0..6].iter().fold(0, |a, b| a | b);
    let black: u64 = board.bitboards[6..12].iter().fold(0, |a, b| a | b);
    assert_eq!(board.side_bitboards[0], white);
    assert_eq!(board.side_bitboards[1], black);
    assert_eq!(board.get_side_mask(PieceColor::White), white);
}

fn walk(board: &mut ChessBoard, depth: u32, search: bool) {
    agrees(board);
    assert_eq!(board.zobrist_hash, board.create_zobrist_hash());
    if depth == 0 {
        return;
    }
    for m in MoveGenerator::get_legal_moves(board, true) {
        let copy = board.clone();
        let hash = board.zobrist_hash;
        let table = board.repetitions;
        board.make_move(m, search);
        if !search {
            assert!(board.repetitions.get_repetitions(board.zobrist_hash).unwrap() >= 1);
        }
        walk(board, depth - 1, search);
        assert_eq!(board.unmake_move(), Some(m));
        assert_eq!(*board, copy);
        assert_eq!(board.zobrist_hash, hash);
        assert_eq!(board.move_history.len(), copy.move_history.len());
        if search {
            assert_eq!(board.repetitions.entries, table.entries);
        }
    }
}

#[test]
fn test_make_and_unmake_restore_the_board_in_a_search() {
    let fens = [
        STARTPOS_FEN,
        "r3k2r/p1ppqpb1/bn2pnp1/3PN3/1p2P3/2N2Q1p/PPPBBPPP/R3K2R w KQkq - 0 1",
        "8/2p5/3p4/KP5r/1R3p1k/8/4P1P1/8 w - - 0 1",
        "r3k2r/Pppp1ppp/1b3nbN/nP6/BBP1P3/q4N2/Pp1P2PP/R2Q1RK1 w kq - 0 1",
        "4k3/2P5/4K3/8/8/8/5p2/8 b - - 0 1",
        "4k3/8/8/5Pp1/8/8/8/4K3 w - g6 0 1",
    ];
    for fen in fens {
        let mut board = board_of(fen);
        walk(&mut board, 2, true);
    }
}

#[test]
fn test_make_and_unmake_restore_the_board_outside_a_search() {
    let mut board = board_of(STARTPOS_FEN);
    walk(&mut board, 2, false);
    let mut board = board_of("r3k2r/8/8/8/8/8/8/R3K2R w KQkq - 0 1");
    walk(&mut board, 2, false);
}

#[test]
fn test_unmake_without_a_move_changes_nothing() {
    let mut board = board_of(STARTPOS_FEN);
    let copy = board.clone();
    assert_eq!(board.unmake_move(), None);
    assert_eq!(board, copy);
}

#[test]
fn test_make_move_from_an_empty_square_changes_nothing() {
    let mut board = board_of(STARTPOS_FEN);
    let copy = board.clone();
    board.make_move(Move::new(28, 36, MoveFlag::Normal), false);
    assert_eq!(board, copy);
    assert_eq!(board.zobrist_hash, copy.zobrist_hash);
    assert_eq!(board.move_history.len(), 0);
}

#[test]
fn test_make_move_state() {
    let mut board = board_of("r3k2r/8/8/8/8/8/8/R3K2R w KQkq - 7 9");
    board.make_move_uci("a1a8").expect("legal");
    // the rook left a1 and captured the rook on a8: both queen's sides are gone
    assert_eq!(board.castling_rights, [true, false, true, false]);
    assert_eq!(board.half_move, 0);
    assert_eq!(board.full_move, 9);
    assert_eq!(board.get_turn(), PieceColor::Black);
    assert_eq!(board.to_fen(), "R3k2r/8/8/8/8/8/8/4K2R b Kk - 0 9");
    board.make_move_uci("e8e7").expect("legal");
    assert_eq!(board.castling_rights, [true, false, false, false]);
    assert_eq!(board.half_move, 1);
    assert_eq!(board.full_move, 10);
    board.make_move_uci("e1g1").expect("legal");
    assert_eq!(board.castling_rights, [false, false, false, false]);
    assert_eq!(board.get_piece(5), Piece::from_char('R'));
    assert_eq!(board.get_piece(6), Piece::from_char('K'));
    assert_eq!(board.get_piece(7), Piece::new(0));
    assert_eq!(board.get_piece(4), Piece::new(0));
    assert_eq!(board.half_move, 2);
    assert_eq!(board.to_fen(), "R6r/4k3/8/8/8/8/8/5RK1 b - - 2 10");
    let record = board.move_history[0];
    assert_eq!(record.board_move, Move::new(0, 56, MoveFlag::Normal));
    assert_eq!(record.captured, Piece::from_char('r'));
    assert_eq!(record.castling, [true, true, true, true]);
    assert_eq!(record.half_move, 7);
    assert_eq!(record.en_passant_square, -1);
    assert!(record.repetition_saved);
}

#[test]
fn test_promotion_without_capture_starts_the_clock_again() {
    let mut board = board_of("8/2P5/8/8/8/8/8/K6k w - - 12 40");
    board.make_move_uci("c7c8q").expect("legal");
    assert_eq!(board.half_move, 0);
    assert_eq!(board.get_piece(58).get_piece_type(), PieceType::Queen);
}

#[test]
fn test_counters_turn_over() {
    let mut board = board_of("4k3/8/8/8/8/8/8/4K2N b - - 255 65535");
    let copy = board.clone();
    board.make_move_uci("e8e7").expect("legal");
    assert_eq!(board.half_move, 0);
    assert_eq!(board.full_move, 0);
    board.unmake_move();
    assert_eq!(board, copy);
}

#[test]
fn test_en_passant_record_keeps_the_hash_of_before() {
    let mut board = board_of("4k3/8/8/5Pp1/8/8/8/4K3 w - g6 0 1");
    let hash = board.zobrist_hash;
    board.make_move_uci("f5g6").expect("legal");
    assert_eq!(board.move_history[0].zobrist_hash, hash);
    assert_eq!(board.move_history[0].captured, Piece::from_char('p'));
    assert_eq!(board.zobrist_hash, board.create_zobrist_hash());
    board.unmake_move();
    assert_eq!(board.zobrist_hash, hash);
}

#[test]
fn test_repetition_table() {
    let mut table = RepetitionTable::new();
    assert_eq!(table.entries.len() as u64, ENTRY_COUNT);
    assert_eq!(table.get_repetitions(5), None);
    assert_eq!(table.get_repetitions(0), Some(0));
    assert!(!table.increment_existing_repetition(5));
    assert_eq!(table.get_repetitions(5), None);
    assert!(!table.decrement_repetition(5));
    assert!(table.increment_repetition(5));
    assert_eq!(table.get_repetitions(5), Some(1));
    assert!(table.increment_repetition(5));
    assert!(table.increment_existing_repetition(5));
    assert_eq!(table.get_repetitions(5), Some(3));
    assert!(table.decrement_repetition(5));
    assert_eq!(table.get_repetitions(5), Some(2));
    // another hash in the same slot takes the slot over
    assert!(table.increment_repetition(5 + ENTRY_COUNT));
    assert_eq!(table.get_repetitions(5), None);
    assert_eq!(table.get_repetitions(5 + ENTRY_COUNT), Some(1));
    assert_eq!(
        table.entries[5],
        RepetitionEntry { zobrist_hash: 5 + ENTRY_COUNT, repetitions: 1 }
    );
    table.clear();
    assert_eq!(table.get_repetitions(5 + ENTRY_COUNT), None);
    assert_eq!(table.entries[5], RepetitionEntry::new());
    for _ in 0..256 {
        table.increment_repetition(9);
    }
    assert_eq!(table.get_repetitions(9), Some(0));
    assert!(table.decrement_repetition(9));
    assert_eq!(table.get_repetitions(9), Some(255));
}

#[test]
fn test_draw() {
    let mut board = board_of("4k3/8/8/8/8/8/8/4K2N w - - 99 80");
    assert!(!board.is_draw());
    board.make_move_uci("h1g3").expect("legal");
    assert_eq!(board.half_move, 100);
    assert!(board.is_draw());

    let mut board = board_of("4k3/8/8/8/8/8/8/4K2N w - - 0 1");
    for _ in 0..2 {
        assert!(!board.is_draw());
        board.make_move_uci("h1g3").expect("legal");
        board.make_move_uci("e8e7").expect("legal");
        board.make_move_uci("g3h1").expect("legal");
        board.make_move_uci("e7e8").expect("legal");
    }
    assert!(board.is_draw());
    assert_eq!(board.repetitions.get_repetitions(board.zobrist_hash), Some(3));
}

#[test]
fn test_new_board() {
    let mut board = ChessBoard::new();
    assert_eq!(board.get_turn(), PieceColor::White);
    assert_eq!(board.castling_rights, [true, true, true, true]);
    assert_eq!(board.en_passant, -1);
    assert_eq!(board.half_move, 0);
    assert_eq!(board.full_move, 1);
    assert_eq!(board.get_king_square(PieceColor::White), 64);
    assert_eq!(board.zobrist_hash, board.create_zobrist_hash());
    assert_eq!(board.set_piece(12, Piece::from_char('K')), Piece::new(0));
    assert_eq!(board.set_piece(12, Piece::from_char('k')), Piece::from_char('K'));
    assert_eq!(board.get_king_square(PieceColor::Black), 12);
    assert_eq!(board.get_king_square(PieceColor::White), 64);
    agrees(&board);
    board.set_turn(PieceColor::Black);
    assert_eq!(board.get_turn(), PieceColor::Black);
    assert_eq!(board.zobrist_hash, board.create_zobrist_hash());
    board.new_game();
    assert_eq!(board.get_turn(), PieceColor::White);
    assert_eq!(board.get_piece(12), Piece::new(0));
    assert_eq!(board.zobrist_hash, board.create_zobrist_hash());
    agrees(&board);
    let keys = board.keys.clone();
    assert_eq!(Piece::from_char('p').get_hash(&keys, 3), keys.key(3 * 12 + 6));
}

fn keeps_playable(board: &mut ChessBoard, depth: u32) {
    assert!(board.is_playable());
    if depth == 0 {
        return;
    }
    for m in MoveGenerator::get_legal_moves(board, true) {
        board.make_move(m, true);
        keeps_playable(board, depth - 1);
        let _ = board.unmake_move();
    }
}

#[test]
fn test_generated_moves_lead_to_playable_positions() {
    let fens = [
        STARTPOS_FEN,
        "r3k2r/p1ppqpb1/bn2pnp1/3PN3/1p2P3/2N2Q1p/PPPBBPPP/R3K2R w KQkq - 0 1",
        "8/2p5/3p4/KP5r/1R3p1k/8/4P1P1/8 w - - 0 1",
        "r3k2r/Pppp1ppp/1b3nbN/nP6/BBP1P3/q4N2/Pp1P2PP/R2Q1RK1 w kq - 0 1",
        "rnbq1k1r/pp1Pbppp/2p5/8/2B5/8/PPP1NnPP/RNBQK2R w KQ - 1 8",
    ];
    for fen in fens {
        let mut board = board_of(fen);
        keeps_playable(&mut board, 2);
    }
}

#[test]
fn test_positions_of_a_game_are_playable() {
    assert!(board_of(STARTPOS_FEN).is_playable());
    assert!(board_of("8/8/8/2pPK3/8/5n2/8/k7 w - c6 0 1").is_playable());
    assert!(board_of("8/1b6/8/2pP4/4K3/8/8/7k w - c6 0 2").is_playable());
    assert!(board_of("7k/b7/1n6/1Pp5/8/4K3/8/8 w - c6 0 2").is_playable());
    assert!(board_of("b6k/8/8/1Pp5/4K3/8/8/8 w - c6 0 2").is_playable());
}

#[test]
fn test_positions_that_are_not_playable() {
    // a second white king
    assert!(!board_of("4k3/8/8/8/8/8/8/3KK3 w - - 0 1").is_playable());
    // a pawn on the last rank
    assert!(!board_of("P3k3/8/8/8/8/8/8/4K3 w - - 0 1").is_playable());
    // a pawn on the first rank
    assert!(!board_of("4k3/8/8/8/8/8/8/p3K3 w - - 0 1").is_playable());
    // a castling right without its rook
    assert!(!board_of("4k3/8/8/8/8/8/8/4K3 w K - 0 1").is_playable());
    // a castling right with the king away from home
    assert!(!board_of("4k3/8/8/8/8/8/8/3K3R w K - 0 1").is_playable());
    assert!(board_of("4k3/8/8/8/8/8/8/4K2R w K - 0 1").is_playable());
    // a target with no pawn before it
    assert!(!board_of("4k3/8/8/8/8/8/8/4K3 w - e6 0 1").is_playable());
    assert!(board_of("4k3/8/8/4p3/8/8/8/4K3 w - e6 0 1").is_playable());
    // the side that is not to move is in check
    let mut board = board_of("4k3/8/8/8/8/8/8/4K2R w - - 0 1");
    let _ = board.set_piece(7, Piece::new(0));
    let _ = board.set_piece(4 + 8, Piece::from_char('R'));
    assert!(board.is_king_in_check(PieceColor::Black));
    assert!(!board.is_playable());
}
