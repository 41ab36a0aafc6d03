use bitschess::{ChessBoard, STARTPOS_FEN};

fn _test_do_perft(fen: &str, depth: u32) -> u64 {
    let mut board = ChessBoard::new();
    board.parse_fen(fen).expect("valid fen");
    let copy = board.clone();
    let hash = board.zobrist_hash;
    let nodes = board.perft(depth);
    assert_eq!(board, copy);
    assert_eq!(board.zobrist_hash, hash);
    nodes
}

#[test]
fn test_chess_board_perft_startpos_1() {
    assert_eq!(_test_do_perft(STARTPOS_FEN, 1), 20);
}

#[test]
fn test_chess_board_perft_startpos_2() {
    assert_eq!(_test_do_perft(STARTPOS_FEN, 2), 400);
}

#[test]
fn test_chess_board_perft_startpos_3() {
    assert_eq!(_test_do_perft(STARTPOS_FEN, 3), 8902);
}

#[test]
fn test_chess_board_perft_startpos_4() {
    assert_eq!(_test_do_perft(STARTPOS_FEN, 4), 197281);
}

const POSITION2: &str = "r3k2r/p1ppqpb1/bn2pnp1/3PN3/1p2P3/2N2Q1p/PPPBBPPP/R3K2R w KQkq -";

#[test]
fn test_chess_board_perft_position2_1() {
    assert_eq!(_test_do_perft(POSITION2, 1), 48);
}

#[test]
fn test_chess_board_perft_position2_2() {
    assert_eq!(_test_do_perft(POSITION2, 2), 2039);
}

#[test]
fn test_chess_board_perft_position2_3() {
    assert_eq!(_test_do_perft(POSITION2, 3), 97862);
}

#[test]
fn test_chess_board_perft_position2_4() {
    assert_eq!(_test_do_perft(POSITION2, 4), 4085603);
}

const POSITION3: &str = "8/2p5/3p4/KP5r/1R3p1k/8/4P1P1/8 w - -";

#[test]
fn test_chess_board_perft_position3_1() {
    assert_eq!(_test_do_perft(POSITION3, 1), 14);
}

#[test]
fn test_chess_board_perft_position3_2() {
    assert_eq!(_test_do_perft(POSITION3, 2), 191);
}

#[test]
fn test_chess_board_perft_position3_3() {
    assert_eq!(_test_do_perft(POSITION3, 3), 2812);
}

#[test]
fn test_chess_board_perft_position3_4() {
    assert_eq!(_test_do_perft(POSITION3, 4), 43238);
}

#[test]
fn test_chess_board_perft_position3_5() {
    assert_eq!(_test_do_perft(POSITION3, 5), 674624);
}

const POSITION4: &str = "r3k2r/Pppp1ppp/1b3nbN/nP6/BBP1P3/q4N2/Pp1P2PP/R2Q1RK1 w kq - 0 1";

#[test]
fn test_chess_board_perft_position4_1() {
    assert_eq!(_test_do_perft(POSITION4, 1), 6);
}

#[test]
fn test_chess_board_perft_position4_2() {
    assert_eq!(_test_do_perft(POSITION4, 2), 264);
}

#[test]
fn test_chess_board_perft_position4_3() {
    assert_eq!(_test_do_perft(POSITION4, 3), 9467);
}

#[test]
fn test_chess_board_perft_position4_4() {
    assert_eq!(_test_do_perft(POSITION4, 4), 422333);
}

const POSITION5: &str = "rnbq1k1r/pp1Pbppp/2p5/8/2B5/8/PPP1NnPP/RNBQK2R w KQ - 1 8";

#[test]
fn test_chess_board_perft_position5_1() {
    assert_eq!(_test_do_perft(POSITION5, 1), 44);
}

#[test]
fn test_chess_board_perft_position5_2() {
    assert_eq!(_test_do_perft(POSITION5, 2), 1486);
}

#[test]
fn test_chess_board_perft_position5_3() {
    assert_eq!(_test_do_perft(POSITION5, 3), 62379);
}

#[test]
fn test_chess_board_perft_position5_4() {
    assert_eq!(_test_do_perft(POSITION5, 4), 2103487);
}

const POSITION6: &str = "r4rk1/1pp1qppp/p1np1n2/2b1p1B1/2B1P1b1/P1NP1N2/1PP1QPPP/R4RK1 w - - 0 10";

#[test]
fn test_chess_board_perft_position6_1() {
    assert_eq!(_test_do_perft(POSITION6, 1), 46);
}

#[test]
fn test_chess_board_perft_position6_2() {
    assert_eq!(_test_do_perft(POSITION6, 2), 2079);
}

#[test]
fn test_chess_board_perft_position6_3() {
    assert_eq!(_test_do_perft(POSITION6, 3), 89890);
}

#[test]
fn test_chess_board_perft_position6_4() {
    assert_eq!(_test_do_perft(POSITION6, 4), 3894594);
}

#[test]
fn test_perft_depth_zero_and_divide() {
    let mut board = ChessBoard::new();
    board.parse_fen(STARTPOS_FEN).expect("valid fen");
    assert_eq!(board.perft(0), 1);
    let counts = board.perft_divide(3);
    assert_eq!(counts.len(), 20);
    let mut total = 0;
    for (m, count) in &counts {
        if m.to_uci() == "e2e4" {
            assert_eq!(*count, 600);
        }
        if m.to_uci() == "a2a3" {
            assert_eq!(*count, 380);
        }
        total += count;
    }
    assert_eq!(total, 8902);
}
