use bitschess::bits::{has_square, square_bit};
use bitschess::{BitBoard, PieceColor};

#[test]
fn test_set_bits_0() {
    let mut bits = BitBoard(0);
    bits.set_bit(5);
    assert_eq!(bits.0, 0b100000);
    bits.set_bit(4);
    assert_eq!(bits.0, 0b110000);
    bits.set_bit(3);
    assert_eq!(bits.0, 0b111000);
    bits.set_bit(2);
    assert_eq!(bits.0, 0b111100);
    bits.set_bit(1);
    assert_eq!(bits.0, 0b111110);
    bits.set_bit(0);
    assert_eq!(bits.0, 0b111111);
}

#[test]
fn test_clear_bits_0() {
    let mut bits = BitBoard(0b111111);

    bits.clear_bit(5);
    assert_eq!(bits.0, 0b011111);
    bits.clear_bit(4);
    assert_eq!(bits.0, 0b001111);
    bits.clear_bit(3);
    assert_eq!(bits.0, 0b000111);
    bits.clear_bit(2);
    assert_eq!(bits.0, 0b000011);
    bits.clear_bit(1);
    assert_eq!(bits.0, 0b000001);
    bits.clear_bit(0);
    assert_eq!(bits.0, 0b000000);
}

#[test]
fn test_get_bits_0() {
    let bits = BitBoard(0b101010);

    assert_eq!(bits.get_bit(5), true);
    assert_eq!(bits.get_bit(4), false);
    assert_eq!(bits.get_bit(3), true);
    assert_eq!(bits.get_bit(2), false);
    assert_eq!(bits.get_bit(1), true);
    assert_eq!(bits.get_bit(0), false);
}

#[test]
fn test_bitboard_whole_sets() {
    let mut bits = BitBoard::new(0b1100);
    bits.toggle_bit(2);
    assert_eq!(bits.get_bits(), 0b1000);
    bits.toggle_bit(0);
    assert_eq!(bits.get_bits(), 0b1001);
    bits.set_bits(0b0110);
    assert_eq!(bits.get_bits(), 0b1111);
    bits.clear_bits(0b0101);
    assert_eq!(bits.get_bits(), 0b1010);
    bits.toggle_bits(0b0011);
    assert_eq!(bits.get_bits(), 0b1001);
    assert_eq!(bits.get_masked(0b1100), 0b1000);
    bits.set_bit(63);
    assert!(bits.get_bit(63));
    assert_eq!(square_bit(63), 1u64 << 63);
    assert!(has_square(0b100, 2));
    assert!(!has_square(0b100, 3));
}

fn squares(list: &[i32]) -> u64 {
    let mut mask = 0u64;
    for s in list {
        mask |= 1u64 << s;
    }
    mask
}

#[test]
fn test_pawn_attacks() {
    assert_eq!(BitBoard::get_pawn_attack(PieceColor::White, 12), squares(&[19, 21]));
    assert_eq!(BitBoard::get_pawn_attack(PieceColor::White, 8), squares(&[17]));
    assert_eq!(BitBoard::get_pawn_attack(PieceColor::White, 15), squares(&[22]));
    assert_eq!(BitBoard::get_pawn_attack(PieceColor::White, 60), 0);
    assert_eq!(BitBoard::get_pawn_attack(PieceColor::Black, 52), squares(&[43, 45]));
    assert_eq!(BitBoard::get_pawn_attack(PieceColor::Black, 48), squares(&[41]));
    assert_eq!(BitBoard::get_pawn_attack(PieceColor::Black, 55), squares(&[46]));
    assert_eq!(BitBoard::get_pawn_attack(PieceColor::Black, 3), 0);
}

#[test]
fn test_knight_attacks() {
    assert_eq!(BitBoard::get_knight_attack(0), squares(&[10, 17]));
    assert_eq!(BitBoard::get_knight_attack(63), squares(&[46, 53]));
    assert_eq!(
        BitBoard::get_knight_attack(27),
        squares(&[10, 12, 17, 21, 33, 37, 42, 44])
    );
    assert_eq!(BitBoard::get_knight_attack(7), squares(&[13, 22]));
}

#[test]
fn test_king_attacks() {
    assert_eq!(BitBoard::get_king_attack(0), squares(&[1, 8, 9]));
    assert_eq!(BitBoard::get_king_attack(7), squares(&[6, 14, 15]));
    assert_eq!(BitBoard::get_king_attack(63), squares(&[54, 55, 62]));
    assert_eq!(
        BitBoard::get_king_attack(27),
        squares(&[18, 19, 20, 26, 28, 34, 35, 36])
    );
}

#[test]
fn test_rook_attacks() {
    assert_eq!(
        BitBoard::get_rook_attack_mask(0, 0),
        squares(&[1, 2, 3, 4, 5, 6, 7, 8, 16, 24, 32, 40, 48, 56])
    );
    assert_eq!(
        BitBoard::get_rook_attack_mask(27, squares(&[25, 43, 29, 11, 3])),
        squares(&[26, 25, 28, 29, 35, 43, 19, 11])
    );
    assert_eq!(BitBoard::get_ray_attack(27, 1, 0, squares(&[43])), squares(&[35, 43]));
    assert_eq!(BitBoard::get_ray_attack(27, 0, -1, 0), squares(&[26, 25, 24]));
}

#[test]
fn test_bishop_attacks() {
    assert_eq!(
        BitBoard::get_bishop_attack_mask(0, 0),
        squares(&[9, 18, 27, 36, 45, 54, 63])
    );
    assert_eq!(
        BitBoard::get_bishop_attack_mask(27, squares(&[45, 9, 41, 13])),
        squares(&[36, 45, 18, 9, 34, 41, 20, 13])
    );
    assert_eq!(
        BitBoard::get_queen_attack_mask(27, squares(&[45, 9, 41, 13, 25, 43, 29, 11])),
        squares(&[36, 45, 18, 9, 34, 41, 20, 13, 26, 25, 28, 29, 35, 43, 19, 11])
    );
}

#[test]
fn test_between() {
    assert_eq!(BitBoard::get_between(0, 7), squares(&[1, 2, 3, 4, 5, 6]));
    assert_eq!(BitBoard::get_between(7, 0), squares(&[1, 2, 3, 4, 5, 6]));
    assert_eq!(BitBoard::get_between(0, 63), squares(&[9, 18, 27, 36, 45, 54]));
    assert_eq!(BitBoard::get_between(56, 7), squares(&[49, 42, 35, 28, 21, 14]));
    assert_eq!(BitBoard::get_between(4, 60), squares(&[12, 20, 28, 36, 44, 52]));
    assert_eq!(BitBoard::get_between(4, 5), 0);
    assert_eq!(BitBoard::get_between(4, 4), 0);
    assert_eq!(BitBoard::get_between(0, 10), 0);
    assert_eq!(BitBoard::get_between(0, 17), 0);
}

#[test]
fn test_pretty() {
    let lines = [
        "  a b c d e f g h",
        "8 0|0|0|0|0|0|0|1|",
        "7 0|0|0|0|0|0|0|0|",
        "6 0|0|0|0|0|0|0|0|",
        "5 0|0|0|0|0|0|0|0|",
        "4 0|0|0|0|1|0|0|0|",
        "3 0|0|0|0|0|0|0|0|",
        "2 0|0|0|0|0|0|0|0|",
        "1 1|0|0|0|0|0|0|0|",
        "  a b c d e f g h",
        "",
    ];
    let expected = lines.join("\n");
    assert_eq!(BitBoard::pretty(1 | (1 << 28) | (1 << 63)), expected);
}
