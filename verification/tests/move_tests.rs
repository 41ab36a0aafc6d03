use bitschess::{Move, MoveContainer, MoveFlag, Piece, ReversibleMove};

#[test]
fn chess_move_test_move_from_uci_basic() {
    let m = Move::from_uci("a2a4");
    assert_eq!(m.get_flag(), MoveFlag::Normal);
    assert_eq!(m.get_from_idx(), 8);
    assert_eq!(m.get_to_idx(), 24);
}

#[test]
fn chessmove_test_move_from_uci_basic() {
    let m = Move::from_uci("a2a4");
    assert_eq!(m.get_flag(), MoveFlag::Normal);
    assert_eq!(m.get_from_idx(), 8);
    assert_eq!(m.get_to_idx(), 24);
}

#[test]
fn test_move_from_uci_basic() {
    let m = Move::from_uci("a2a4");
    assert_eq!(m.get_flag(), MoveFlag::Normal);
    assert_eq!(m.get_from_idx(), 8);
    assert_eq!(m.get_to_idx(), 24);
}

#[test]
fn chess_move_test_move_from_uci_promotion_queen_flag() {
    let m = Move::from_uci("e7e8q");
    assert_eq!(m.get_from_idx(), 52);
    assert_eq!(m.get_to_idx(), 60);
    assert_eq!(m.get_flag(), MoveFlag::PromoteQueen);
}

#[test]
fn chessmove_test_move_from_uci_promotion_queen_flag() {
    let m = Move::from_uci("e7e8q");
    assert_eq!(m.get_from_idx(), 52);
    assert_eq!(m.get_to_idx(), 60);
    assert_eq!(m.get_flag(), MoveFlag::PromoteQueen);
}

#[test]
fn test_move_from_uci_promotion_queen_flag() {
    let m = Move::from_uci("e7e8q");
    assert_eq!(m.get_from_idx(), 52);
    assert_eq!(m.get_to_idx(), 60);
    assert_eq!(m.get_flag(), MoveFlag::PromoteQueen);
}

#[test]
fn chess_move_test_move_from_uci_promotion_rook_flag() {
    let m = Move::from_uci("e7e8r");
    assert_eq!(m.get_flag(), MoveFlag::PromoteRook);
}

#[test]
fn chessmove_test_move_from_uci_promotion_rook_flag() {
    let m = Move::from_uci("e7e8r");
    assert_eq!(m.get_flag(), MoveFlag::PromoteRook);
}

#[test]
fn test_move_from_uci_promotion_rook_flag() {
    let m = Move::from_uci("e7e8r");
    assert_eq!(m.get_flag(), MoveFlag::PromoteRook);
}

#[test]
fn chess_move_test_move_from_uci_promotion_bishop_flag() {
    let m = Move::from_uci("e7e8b");
    assert_eq!(m.get_flag(), MoveFlag::PromoteBishop);
}

#[test]
fn chessmove_test_move_from_uci_promotion_bishop_flag() {
    let m = Move::from_uci("e7e8b");
    assert_eq!(m.get_flag(), MoveFlag::PromoteBishop);
}

#[test]
fn test_move_from_uci_promotion_bishop_flag() {
    let m = Move::from_uci("e7e8b");
    assert_eq!(m.get_flag(), MoveFlag::PromoteBishop);
}

#[test]
fn chess_move_test_move_from_uci_promotion_knight_flag() {
    let m = Move::from_uci("e7e8n");
    assert_eq!(m.get_flag(), MoveFlag::PromoteKnight);
}

#[test]
fn chessmove_test_move_from_uci_promotion_knight_flag() {
    let m = Move::from_uci("e7e8n");
    assert_eq!(m.get_flag(), MoveFlag::PromoteKnight);
}

#[test]
fn test_move_from_uci_promotion_knight_flag() {
    let m = Move::from_uci("e7e8n");
    assert_eq!(m.get_flag(), MoveFlag::PromoteKnight);
}

#[test]
fn test_move_encoding_exact() {
    let m = Move::new(12, 28, MoveFlag::PawnTwoUp);
    assert_eq!(m.0, 12 + (28 << 6) + (2 << 12));
    assert_eq!(m.get_from_idx(), 12);
    assert_eq!(m.get_to_idx(), 28);
    assert_eq!(m.get_flag(), MoveFlag::PawnTwoUp);
    assert!(m.is_two_pawn_up());
    assert!(!m.is_castle());
    assert!(!m.is_en_passant());
    assert!(Move::new(27, 20, MoveFlag::EnPassant).is_en_passant());
    assert!(Move::new(4, 6, MoveFlag::Castle).is_castle());
    assert_eq!(Move::new(63, 63, MoveFlag::PromoteQueen).0, 0x7fff);
    assert_eq!(Move::new(-1, 64, MoveFlag::Normal).0, 63);
}

#[test]
fn test_move_encoding_round_trip_all() {
    let flags = [
        MoveFlag::Normal,
        MoveFlag::EnPassant,
        MoveFlag::PawnTwoUp,
        MoveFlag::Castle,
        MoveFlag::PromoteKnight,
        MoveFlag::PromoteBishop,
        MoveFlag::PromoteRook,
        MoveFlag::PromoteQueen,
    ];
    for from in 0..64 {
        for to in 0..64 {
            for (code, flag) in flags.iter().enumerate() {
                let m = Move::new(from, to, *flag);
                assert_eq!(m.get_from_idx(), from);
                assert_eq!(m.get_to_idx(), to);
                assert_eq!(m.get_flag(), *flag);
                assert_eq!(flag.to_u8() as usize, code);
                assert_eq!(MoveFlag::from_u8(code as u8), *flag);
            }
        }
    }
    assert_eq!(MoveFlag::from_u8(8 + 3), MoveFlag::Castle);
    assert!(MoveFlag::Castle.eq_const(MoveFlag::Castle));
    assert!(!MoveFlag::Castle.eq_const(MoveFlag::Normal));
}

#[test]
fn test_move_to_uci() {
    assert_eq!(Move::new(12, 28, MoveFlag::PawnTwoUp).to_uci(), "e2e4");
    assert_eq!(Move::new(52, 60, MoveFlag::PromoteQueen).to_uci(), "e7e8q");
    assert_eq!(Move::new(52, 60, MoveFlag::PromoteRook).to_uci(), "e7e8r");
    assert_eq!(Move::new(52, 60, MoveFlag::PromoteBishop).to_uci(), "e7e8b");
    assert_eq!(Move::new(52, 60, MoveFlag::PromoteKnight).to_uci(), "e7e8n");
    assert_eq!(Move::new(4, 6, MoveFlag::Castle).to_uci(), "e1g1");
    assert_eq!(Move::new(0, 63, MoveFlag::Normal).to_uci(), "a1h8");
    assert!(Move::new(12, 28, MoveFlag::PawnTwoUp).matches_uci("e2e4"));
    assert!(!Move::new(12, 28, MoveFlag::PawnTwoUp).matches_uci("e2e3"));
    assert!(!Move::new(12, 28, MoveFlag::PawnTwoUp).matches_uci("e2e4q"));
    assert!(Move::new(52, 60, MoveFlag::PromoteQueen).matches_uci("e7e8q"));
    assert!(!Move::new(52, 60, MoveFlag::PromoteQueen).matches_uci("e7e8"));
    assert!(!Move::new(52, 60, MoveFlag::PromoteQueen).matches_uci("E7E8Q"));
}

#[test]
fn test_reversible_move_new() {
    let m = Move::new(1, 2, MoveFlag::Normal);
    let r = ReversibleMove::new(m, Piece::new(3), 17, [true, false, true, false], 9, 77, true);
    assert_eq!(r.board_move, m);
    assert_eq!(r.captured, Piece::new(3));
    assert_eq!(r.en_passant_square, 17);
    assert_eq!(r.castling, [true, false, true, false]);
    assert_eq!(r.half_move, 9);
    assert_eq!(r.zobrist_hash, 77);
    assert_eq!(r.repetition_saved, true);
}

#[test]
fn test_move_container() {
    let mut c = MoveContainer::new();
    assert!(c.is_empty());
    assert_eq!(c.len(), 0);
    assert_eq!(c.get(0), None);
    for i in 0..218 {
        c.push(Move::new(i % 64, (i + 1) % 64, MoveFlag::Normal));
    }
    assert_eq!(c.len(), 218);
    assert!(!c.is_empty());
    assert_eq!(c.get(217), Some(Move::new(217 % 64, 218 % 64, MoveFlag::Normal)));
    assert_eq!(c.get(218), None);
    let first = c.get_unchecked(0);
    let last = c.get_unchecked(217);
    c.swap(0, 217);
    assert_eq!(c.get(0), Some(last));
    assert_eq!(c.get(217), Some(first));
    c.swap_unchecked(0, 217);
    assert_eq!(c.get(0), Some(first));
    let all = c.iter();
    assert_eq!(all.len(), 218);
    assert_eq!(all[5], Move::new(5, 6, MoveFlag::Normal));
}
