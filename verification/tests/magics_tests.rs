use bitschess::magics::{
    build_table, magic_index, BISHOP_MAGICS, BISHOP_SHIFTS, ROOK_MAGICS, ROOK_SHIFTS,
};
use bitschess::sliders::{bishop_mask, rook_mask};
use bitschess::tables::{get_bishop_magic, get_rook_magic};
use bitschess::{AttackTables, BitBoard};
use std::collections::HashMap;

fn generate_blocker_bitboards(mask: u64) -> Vec<u64> {
    let mut indices: Vec<i32> = vec![];
    for square in 0..64 {
        if ((mask >> square) & 1) == 1 {
            indices.push(square);
        }
    }
    let patterns = 1usize << indices.len();
    let mut blockers = Vec::with_capacity(patterns);
    for pattern in 0..patterns {
        let mut b = 0u64;
        for bit_index in 0..indices.len() {
            let bit = (pattern >> bit_index) & 1;
            b |= (bit as u64) << indices[bit_index];
        }
        blockers.push(b);
    }
    blockers
}

#[test]
fn test_magic_bitboard_rook_storing_correct_mask() {
    let tables = AttackTables::new();
    for square in 0..64 {
        let mask = rook_mask(square);
        let blockers = generate_blocker_bitboards(mask);

        for b in blockers {
            let magic_mask = get_rook_magic(&tables, square, b);
            let expected_mask = BitBoard::get_rook_attack_mask(square, b);
            assert_eq!(magic_mask, expected_mask);
        }
    }
}

#[test]
fn test_magic_bitboard_rook_index_collision() {
    for square in 0..64 {
        let mut square_indexes: HashMap<usize, u64> = HashMap::new();

        let mask = rook_mask(square);
        let blockers = generate_blocker_bitboards(mask);

        for b in blockers {
            let idx = magic_index(ROOK_MAGICS[square as usize], b, ROOK_SHIFTS[square as usize]);
            let mask = BitBoard::get_rook_attack_mask(square, b);

            if let Some(other_mask) = square_indexes.get(&idx) {
                assert_eq!(*other_mask, mask);
            }

            square_indexes.insert(idx, mask);
        }
    }
}

#[test]
fn test_magic_bitboard_bishop_storing_correct_mask() {
    let tables = AttackTables::new();
    for square in 0..64 {
        let mask = bishop_mask(square);
        let blockers = generate_blocker_bitboards(mask);

        for b in blockers {
            let magic_mask = get_bishop_magic(&tables, square, b);
            let expected_mask = BitBoard::get_bishop_attack_mask(square, b);
            assert_eq!(magic_mask, expected_mask);
        }
    }
}

#[test]
fn test_magic_bitboard_bishop_index_collision() {
    for square in 0..64 {
        let mut square_indexes: HashMap<usize, u64> = HashMap::new();

        let mask = bishop_mask(square);
        let blockers = generate_blocker_bitboards(mask);

        for b in blockers {
            let idx =
                magic_index(BISHOP_MAGICS[square as usize], b, BISHOP_SHIFTS[square as usize]);
            let mask = BitBoard::get_bishop_attack_mask(square, b);

            if let Some(other_mask) = square_indexes.get(&idx) {
                assert_eq!(*other_mask, mask);
            }

            square_indexes.insert(idx, mask);
        }
    }
}

#[test]
fn test_magic_tables_are_all_ready() {
    let tables = AttackTables::new();
    assert!(tables.all_ready());
    for square in 0..64 {
        assert!(build_table(true, square).1);
        assert!(build_table(false, square).1);
    }
}

#[test]
fn test_magic_lookup_ignores_irrelevant_blockers() {
    let tables = AttackTables::new();
    let mut blockers: u64 = 0x9e37_79b9_7f4a_7c15;
    for square in 0..64 {
        for _ in 0..200 {
            blockers ^= blockers << 13;
            blockers ^= blockers >> 7;
            blockers ^= blockers << 17;
            assert_eq!(
                tables.rook_attack(square, blockers),
                BitBoard::get_rook_attack_mask(square, blockers)
            );
            assert_eq!(
                tables.bishop_attack(square, blockers),
                BitBoard::get_bishop_attack_mask(square, blockers)
            );
        }
    }
}

#[test]
fn test_relevance_masks() {
    assert_eq!(rook_mask(0), 0x0001_0101_0101_017e);
    assert_eq!(rook_mask(27), 0x0008_0808_7608_0800);
    assert_eq!(bishop_mask(0), 0x0040_2010_0804_0200);
    assert_eq!(bishop_mask(27), 0x0040_2214_0014_2200);
    assert_eq!(magic_index(1, 1u64 << 63, 1), 1);
    assert_eq!(magic_index(3, 1u64 << 62, 2), 3);
}

#[test]
fn test_leaper_tables() {
    let tables = AttackTables::new();
    for square in 0..64 {
        assert_eq!(tables.knight_attack(square), BitBoard::get_knight_attack(square));
        assert_eq!(tables.king_attack(square), BitBoard::get_king_attack(square));
        assert_eq!(
            tables.pawn_attack(bitschess::PieceColor::White, square),
            BitBoard::get_pawn_attack(bitschess::PieceColor::White, square)
        );
        assert_eq!(
            tables.pawn_attack(bitschess::PieceColor::Black, square),
            BitBoard::get_pawn_attack(bitschess::PieceColor::Black, square)
        );
        for other in 0..64 {
            assert_eq!(tables.squares_between(square, other), BitBoard::get_between(square, other));
        }
    }
}
