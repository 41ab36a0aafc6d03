use bitschess::zobrist::{ZOBRIST_KEY_COUNT, ZOBRIST_SEED};
use bitschess::{ChessBoard, ZobristKeys, STARTPOS_FEN};

#[test]
fn zobrist_test_verify_zobrist_keys() {
    let keys = ZobristKeys::new();
    for x in 0..keys.len() {
        for y in 0..keys.len() {
            if x == y {
                continue;
            }
            assert_ne!(keys.key(x), keys.key(y));
        }
    }
}

#[test]
fn test_verify_zobrist_keys() {
    let keys = ZobristKeys::new();
    for x in 0..keys.len() {
        for y in 0..keys.len() {
            if x == y {
                continue;
            }
            assert_ne!(keys.key(x), keys.key(y));
        }
    }
}

#[test]
fn zobrist_test_make_move_zobrist_updation_basic() {
    let mut board = ChessBoard::new();
    board.parse_fen(STARTPOS_FEN).expect("valid fen");
    board.make_move_uci("e2e4").expect("valid");
    board.make_move_uci("e7e5").expect("valid");
    assert_eq!(board.zobrist_hash, board.create_zobrist_hash());
}

#[test]
fn test_make_move_zobrist_updation_basic() {
    let mut board = ChessBoard::new();
    board.parse_fen(STARTPOS_FEN).expect("valid fen");
    board.make_move_uci("e2e4").expect("valid");
    board.make_move_uci("e7e5").expect("valid");
    assert_eq!(board.zobrist_hash, board.create_zobrist_hash());
}

#[test]
fn test_make_move_zobrist_updating_castling() {
    let mut board = ChessBoard::new();
    board.parse_fen("r3k2r/8/8/8/8/8/8/R3K2R w KQkq - 0 1").expect("valid fen");
    board.make_move_uci("e1g1").expect("valid");
    board.make_move_uci("e8c8").expect("valid");
    assert_eq!(board.zobrist_hash, board.create_zobrist_hash());

    board.parse_fen("r3k2r/8/8/8/8/8/8/R3K2R b KQkq - 0 1").expect("valid fen");
    board.make_move_uci("e8g8").expect("valid");
    board.make_move_uci("e1c1").expect("valid");
    assert_eq!(board.zobrist_hash, board.create_zobrist_hash());
}

#[test]
fn test_make_move_zobrist_updation_castling() {
    let mut board = ChessBoard::new();
    let _ = board.parse_fen("r3k2r/8/8/8/8/8/8/R3K2R w KQkq - 0 1");
    let _ = board.make_move_uci("e1g1");
    let _ = board.make_move_uci("e8c8");
    assert_eq!(board.zobrist_hash, board.create_zobrist_hash());

    let _ = board.parse_fen("r3k2r/8/8/8/8/8/8/R3K2R b KQkq - 0 1");
    let _ = board.make_move_uci("e8g8");
    let _ = board.make_move_uci("e1b1");
    assert_eq!(board.zobrist_hash, board.create_zobrist_hash());
}

#[test]
fn zobrist_test_make_undo_move_zobrist_updation_basic() {
    let mut board = ChessBoard::new();
    board.parse_fen(STARTPOS_FEN).expect("valid fen");
    board.make_move_uci("e2e4").expect("valid");
    board.make_move_uci("e7e5").expect("valid");
    board.unmake_move().expect("valid");
    board.unmake_move().expect("valid");
    assert_eq!(board.zobrist_hash, board.create_zobrist_hash());
}

#[test]
fn test_make_undo_move_zobrist_updation_basic() {
    let mut board = ChessBoard::new();
    board.parse_fen(STARTPOS_FEN).expect("valid fen");
    board.make_move_uci("e2e4").expect("valid");
    board.make_move_uci("e7e5").expect("valid");
    board.unmake_move().expect("valid");
    board.unmake_move().expect("valid");
    assert_eq!(board.zobrist_hash, board.create_zobrist_hash());
}

fn step(state: u64) -> u64 {
    state.wrapping_add(0x2d35_8dcc_aa6c_78a5)
}

fn output(state: u64) -> u64 {
    let product = (state as u128) * ((state ^ 0x8bb8_4b93_962e_acc9) as u128);
    (product as u64) ^ ((product >> 64) as u64)
}

#[test]
fn test_zobrist_keys_follow_the_generator() {
    let keys = ZobristKeys::new();
    assert_eq!(keys.len(), ZOBRIST_KEY_COUNT);
    assert_eq!(keys.len(), 781);
    let mut state = ZOBRIST_SEED;
    for i in 0..keys.len() {
        state = step(state);
        assert_eq!(keys.key(i), output(state));
    }
    assert_ne!(keys.key(0), ZOBRIST_SEED);
}

#[test]
fn test_zobrist_keys_are_the_same_in_every_draw() {
    let first = ZobristKeys::new();
    let second = ZobristKeys::new();
    for i in 0..first.len() {
        assert_eq!(first.key(i), second.key(i));
    }
}

#[test]
fn test_hash_of_empty_board_holds_the_castling_keys() {
    let board = ChessBoard::new();
    let keys = ZobristKeys::new();
    let expected = keys.key(769) ^ keys.key(770) ^ keys.key(771) ^ keys.key(772);
    assert_eq!(board.zobrist_hash, expected);
    assert_eq!(board.create_zobrist_hash(), expected);
}

#[test]
fn test_hash_from_scratch_by_hand() {
    let mut board = ChessBoard::new();
    board.parse_fen("4k3/8/8/8/8/8/8/4K3 b - - 0 1").expect("valid fen");
    let keys = ZobristKeys::new();
    // white king (index 5) on e1 (4), black king (index 11) on e8 (60), black to move
    let expected = keys.key(4 * 12 + 5) ^ keys.key(60 * 12 + 11) ^ keys.key(768);
    assert_eq!(board.zobrist_hash, expected);
}
