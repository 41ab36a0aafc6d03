//! Attack sets of the pieces, stated on squares and computed on bitboards.

use vstd::prelude::*;
use crate::bits::{bit, bit64, bitboard_of, lemma_bitboard_of_members, single};
use crate::board_helper::{file_of, on_board, rank_of};
use crate::piece::PieceColor;

verus! {

pub const A_FILE: u64 = 0x0101_0101_0101_0101;
pub const B_FILE: u64 = 0x0202_0202_0202_0202;
pub const AB_FILE: u64 = 0x0303_0303_0303_0303;
pub const NOT_A_FILE: u64 = 0xfefe_fefe_fefe_fefe;
pub const NOT_AB_FILE: u64 = 0xfcfc_fcfc_fcfc_fcfc;
pub const H_FILE: u64 = 0x8080_8080_8080_8080;
pub const G_FILE: u64 = 0x4040_4040_4040_4040;
pub const HG_FILE: u64 = 0xc0c0_c0c0_c0c0_c0c0;
pub const NOT_H_FILE: u64 = 0x7f7f_7f7f_7f7f_7f7f;
pub const NOT_HG_FILE: u64 = 0x3f3f_3f3f_3f3f_3f3f;

/// A knight on `s` attacks `t`.
pub open spec fn knight_jump(s: int, t: int) -> bool {
    let dr = rank_of(t) - rank_of(s);
    let df = file_of(t) - file_of(s);
    on_board(s) && on_board(t) && (((dr == 1 || dr == -1) && (df == 2 || df == -2)) || ((dr == 2
        || dr == -2) && (df == 1 || df == -1)))
}

/// A king on `s` attacks `t`.
pub open spec fn king_step(s: int, t: int) -> bool {
    let dr = rank_of(t) - rank_of(s);
    let df = file_of(t) - file_of(s);
    on_board(s) && on_board(t) && s != t && -1 <= dr <= 1 && -1 <= df <= 1
}

/// A pawn of the given colour on `s` attacks `t`: one rank forward, one file aside.
pub open spec fn pawn_capture(side: PieceColor, s: int, t: int) -> bool {
    let dr = rank_of(t) - rank_of(s);
    let df = file_of(t) - file_of(s);
    on_board(s) && on_board(t) && (df == 1 || df == -1) && dr == (if side == PieceColor::White {
        1int
    } else {
        -1int
    })
}

/// The squares that a knight on `s` attacks.
pub open spec fn knight_attacks(s: int) -> u64 {
    bitboard_of(|t: int| knight_jump(s, t))
}

/// The squares that a king on `s` attacks.
pub open spec fn king_attacks(s: int) -> u64 {
    bitboard_of(|t: int| king_step(s, t))
}

/// The squares that a pawn of the given colour on `s` attacks.
pub open spec fn pawn_attacks(side: PieceColor, s: int) -> u64 {
    bitboard_of(|t: int| pawn_capture(side, s, t))
}

spec fn knight_shifts(b: u64) -> u64 {
    (if b & (NOT_H_FILE << 17) != 0 { b >> 17 } else { 0 })
    | (if b & (NOT_A_FILE << 15) != 0 { b >> 15 } else { 0 })
    | (if b & (NOT_HG_FILE << 10) != 0 { b >> 10 } else { 0 })
    | (if b & (NOT_AB_FILE << 6) != 0 { b >> 6 } else { 0 })
    | (if b & (NOT_A_FILE >> 17) != 0 { b << 17 } else { 0 })
    | (if b & (NOT_H_FILE >> 15) != 0 { b << 15 } else { 0 })
    | (if b & (NOT_AB_FILE >> 10) != 0 { b << 10 } else { 0 })
    | (if b & (NOT_HG_FILE >> 6) != 0 { b << 6 } else { 0 })
}

spec fn knight_jump64(s: u64, t: u64) -> bool {
    let rs = s / 8;
    let fs = s % 8;
    let rt = t / 8;
    let ft = t % 8;
    ((rt + 1 == rs || rs + 1 == rt) && (ft + 2 == fs || fs + 2 == ft)) || ((rt + 2 == rs || rs + 2
        == rt) && (ft + 1 == fs || fs + 1 == ft))
}

proof fn lemma_knight_shifts(s: u64, t: u64)
    by (bit_vector)
    requires
        s < 64,
        t < 64,
    ensures
        bit64(knight_shifts(1u64 << s), t) == knight_jump64(s, t),
{
}

spec fn king_shifts(b: u64) -> u64 {
    (if (b >> 8) != 0 { b >> 8 } else { 0 })
    | (if ((b >> 7) & NOT_A_FILE) != 0 { b >> 7 } else { 0 })
    | (if ((b >> 9) & NOT_H_FILE) != 0 { b >> 9 } else { 0 })
    | (if ((b >> 1) & NOT_H_FILE) != 0 { b >> 1 } else { 0 })
    | (if (b << 8) != 0 { b << 8 } else { 0 })
    | (if ((b << 7) & NOT_H_FILE) != 0 { b << 7 } else { 0 })
    | (if ((b << 9) & NOT_A_FILE) != 0 { b << 9 } else { 0 })
    | (if ((b << 1) & NOT_A_FILE) != 0 { b << 1 } else { 0 })
}

spec fn king_step64(s: u64, t: u64) -> bool {
    let rs = s / 8;
    let fs = s % 8;
    let rt = t / 8;
    let ft = t % 8;
    s != t && (rt == rs || rt + 1 == rs || rs + 1 == rt) && (ft == fs || ft + 1 == fs || fs + 1
        == ft)
}

proof fn lemma_king_shifts(s: u64, t: u64)
    by (bit_vector)
    requires
        s < 64,
        t < 64,
    ensures
        bit64(king_shifts(1u64 << s), t) == king_step64(s, t),
{
}

spec fn pawn_shifts(white: bool, b: u64) -> u64 {
    if white {
        (if ((b << 7) & NOT_H_FILE) != 0 { b << 7 } else { 0 })
        | (if ((b << 9) & NOT_A_FILE) != 0 { b << 9 } else { 0 })
    } else {
        (if ((b >> 7) & NOT_A_FILE) != 0 { b >> 7 } else { 0 })
        | (if ((b >> 9) & NOT_H_FILE) != 0 { b >> 9 } else { 0 })
    }
}

spec fn pawn_capture64(white: bool, s: u64, t: u64) -> bool {
    let rs = s / 8;
    let fs = s % 8;
    let rt = t / 8;
    let ft = t % 8;
    (ft + 1 == fs || fs + 1 == ft) && (if white { rs + 1 == rt } else { rt + 1 == rs })
}

proof fn lemma_pawn_shifts(white: bool, s: u64, t: u64)
    by (bit_vector)
    requires
        s < 64,
        t < 64,
    ensures
        bit64(pawn_shifts(white, 1u64 << s), t) == pawn_capture64(white, s, t),
{
}

/// A bitboard with the operations on single squares.
#[derive(Clone, Copy, Debug, PartialEq, Eq, Structural)]
pub struct BitBoard(pub u64);

impl BitBoard {
    /// The bitboard with exactly these bits.
    pub fn new(bits: u64) -> (b: BitBoard)
        ensures
            b.0 == bits,
    {
        BitBoard(bits)
    }

    /// Square `bit` belongs to the bitboard.
    pub fn get_bit(&self, bit: i32) -> (r: bool)
        requires
            0 <= bit < 64,
        ensures
            r == crate::bits::bit(self.0, bit as int),
    {
        ((self.0 >> bit) & 1) == 1
    }

    /// Adds a square.
    pub fn set_bit(&mut self, bit: i32)
        requires
            0 <= bit < 64,
        ensures
            final(self).0 == old(self).0 | single(bit as int),
    {
        self.0 = self.0 | (1u64 << bit);
    }

    /// Removes a square.
    pub fn clear_bit(&mut self, bit: i32)
        requires
            0 <= bit < 64,
        ensures
            final(self).0 == old(self).0 & !single(bit as int),
    {
        self.0 = self.0 & !(1u64 << bit);
    }

    /// Adds a square that is absent, removes one that is present.
    pub fn toggle_bit(&mut self, bit: i32)
        requires
            0 <= bit < 64,
        ensures
            final(self).0 == old(self).0 ^ single(bit as int),
    {
        self.0 = self.0 ^ (1u64 << bit);
    }

    /// Adds the squares of `bits`.
    pub fn set_bits(&mut self, bits: u64)
        ensures
            final(self).0 == old(self).0 | bits,
    {
        self.0 = self.0 | bits;
    }

    /// Removes the squares of `bits`.
    pub fn clear_bits(&mut self, bits: u64)
        ensures
            final(self).0 == old(self).0 & !bits,
    {
        self.0 = self.0 & !bits;
    }

    /// Toggles the squares of `bits`.
    pub fn toggle_bits(&mut self, bits: u64)
        ensures
            final(self).0 == old(self).0 ^ bits,
    {
        self.0 = self.0 ^ bits;
    }

    /// The squares of the bitboard that are also in `mask`.
    pub fn get_masked(&self, mask: u64) -> (r: u64)
        ensures
            r == self.0 & mask,
    {
        self.0 & mask
    }

    /// The bits of the bitboard.
    pub fn get_bits(&self) -> (r: u64)
        ensures
            r == self.0,
    {
        self.0
    }

    /// The squares that a pawn of the given colour on `square` attacks.
    pub fn get_pawn_attack(side: PieceColor, square: i32) -> (r: u64)
        requires
            0 <= square < 64,
        ensures
            r == pawn_attacks(side, square as int),
    {
        let bitboard = 1u64 << square;
        let attacks = if side == PieceColor::White {
            let a1: u64 = if ((bitboard << 7) & NOT_H_FILE) != 0 { bitboard << 7 } else { 0 };
            let a2: u64 = if ((bitboard << 9) & NOT_A_FILE) != 0 { bitboard << 9 } else { 0 };
            a1 | a2
        } else {
            let a1: u64 = if ((bitboard >> 7) & NOT_A_FILE) != 0 { bitboard >> 7 } else { 0 };
            let a2: u64 = if ((bitboard >> 9) & NOT_H_FILE) != 0 { bitboard >> 9 } else { 0 };
            a1 | a2
        };
        proof {
            let white = side == PieceColor::White;
            assert(attacks == pawn_shifts(white, bitboard));
            assert forall|t: int| 0 <= t < 64 implies bit(attacks, t) == pawn_capture(
                side,
                square as int,
                t,
            ) by {
                lemma_pawn_shifts(white, square as u64, t as u64);
            }
            lemma_bitboard_of_members(attacks, |t: int| pawn_capture(side, square as int, t));
        }
        attacks
    }

    /// The squares that a knight on `square` attacks.
    pub fn get_knight_attack(square: i32) -> (r: u64)
        requires
            0 <= square < 64,
        ensures
            r == knight_attacks(square as int),
    {
        let bitboard = 1u64 << square;
        let a1: u64 = if bitboard & (NOT_H_FILE << 17) != 0 { bitboard >> 17 } else { 0 };
        let a2: u64 = if bitboard & (NOT_A_FILE << 15) != 0 { bitboard >> 15 } else { 0 };
        let a3: u64 = if bitboard & (NOT_HG_FILE << 10) != 0 { bitboard >> 10 } else { 0 };
        let a4: u64 = if bitboard & (NOT_AB_FILE << 6) != 0 { bitboard >> 6 } else { 0 };
        let a5: u64 = if bitboard & (NOT_A_FILE >> 17) != 0 { bitboard << 17 } else { 0 };
        let a6: u64 = if bitboard & (NOT_H_FILE >> 15) != 0 { bitboard << 15 } else { 0 };
        let a7: u64 = if bitboard & (NOT_AB_FILE >> 10) != 0 { bitboard << 10 } else { 0 };
        let a8: u64 = if bitboard & (NOT_HG_FILE >> 6) != 0 { bitboard << 6 } else { 0 };
        let attacks = a1 | a2 | a3 | a4 | a5 | a6 | a7 | a8;
        proof {
            assert(attacks == knight_shifts(bitboard));
            assert forall|t: int| 0 <= t < 64 implies bit(attacks, t) == knight_jump(
                square as int,
                t,
            ) by {
                lemma_knight_shifts(square as u64, t as u64);
            }
            lemma_bitboard_of_members(attacks, |t: int| knight_jump(square as int, t));
        }
        attacks
    }

    /// The squares that a king on `square` attacks.
    pub fn get_king_attack(square: i32) -> (r: u64)
        requires
            0 <= square < 64,
        ensures
            r == king_attacks(square as int),
    {
        let bitboard = 1u64 << square;
        let a1: u64 = if (bitboard >> 8) != 0 { bitboard >> 8 } else { 0 };
        let a2: u64 = if ((bitboard >> 7) & NOT_A_FILE) != 0 { bitboard >> 7 } else { 0 };
        let a3: u64 = if ((bitboard >> 9) & NOT_H_FILE) != 0 { bitboard >> 9 } else { 0 };
        let a4: u64 = if ((bitboard >> 1) & NOT_H_FILE) != 0 { bitboard >> 1 } else { 0 };
        let a5: u64 = if (bitboard << 8) != 0 { bitboard << 8 } else { 0 };
        let a6: u64 = if ((bitboard << 7) & NOT_H_FILE) != 0 { bitboard << 7 } else { 0 };
        let a7: u64 = if ((bitboard << 9) & NOT_A_FILE) != 0 { bitboard << 9 } else { 0 };
        let a8: u64 = if ((bitboard << 1) & NOT_A_FILE) != 0 { bitboard << 1 } else { 0 };
        let attacks = a1 | a2 | a3 | a4 | a5 | a6 | a7 | a8;
        proof {
            assert(attacks == king_shifts(bitboard));
            assert forall|t: int| 0 <= t < 64 implies bit(attacks, t) == king_step(
                square as int,
                t,
            ) by {
                lemma_king_shifts(square as u64, t as u64);
            }
            lemma_bitboard_of_members(attacks, |t: int| king_step(square as int, t));
        }
        attacks
    }
}

} // verus!
