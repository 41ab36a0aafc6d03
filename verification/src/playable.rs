//! Whether a board holds a position of a game in which the side that has
//! just moved has not left its king in check: the positions of which the
//! laws of the move generator speak.

use vstd::prelude::*;
use crate::bits::{
    bit, bit64, count, group_bits, has_square, lemma_bits_equal, lemma_member_nonzero,
    lemma_nonzero_member,
};
use crate::board::ChessBoard;
use crate::board_helper::rank_of;
use crate::checks::{
    lemma_count_one, lemma_count_positive, lemma_count_two, lemma_king_square, playable,
};
use crate::piece::{PieceColor, PieceType};
use crate::pins::lemma_piece;
use crate::position::{corner_of, Position};
use crate::rules::{home, pieces};
use crate::validity::{color_of_right, holds, one_king, pawns_inside};

verus! {

/// The first rank and the last.
pub const BACK_RANKS: u64 = 0xff00_0000_0000_00ff;

/// There is exactly one king of a colour exactly if its bitboard counts one.
pub proof fn lemma_one_king(p: Position, color: PieceColor)
    ensures
        one_king(p, color) <==> count(pieces(p, PieceType::King, color)) == 1,
{
    let kings = pieces(p, PieceType::King, color);
    if one_king(p, color) {
        lemma_king_square(p, color);
        let k = crate::rules::king_square(p, color);
        lemma_piece(p, PieceType::King, color, k);
        lemma_member_nonzero(kings, k);
        lemma_count_positive(kings);
        if count(kings) >= 2 {
            let (a, b) = lemma_count_two(kings);
            lemma_piece(p, PieceType::King, color, a);
            lemma_piece(p, PieceType::King, color, b);
        }
    }
    if count(kings) == 1 {
        let k = lemma_nonzero_member(kings);
        lemma_piece(p, PieceType::King, color, k);
        assert forall|t: int| #[trigger] holds(p, t, PieceType::King, color) implies t == k by {
            lemma_piece(p, PieceType::King, color, t);
            lemma_count_one(kings, t, k);
        }
    }
}

/// The squares of the first rank and of the last.
proof fn lemma_back_ranks(j: u64)
    by (bit_vector)
    requires
        j < 64,
    ensures
        bit64(0xff00_0000_0000_00ffu64, j) == (j < 8 || j >= 56),
{
}

/// No pawn stands on the first or the last rank exactly if the bitboards
/// of the pawns hold no square of those ranks.
pub proof fn lemma_pawns_inside(p: Position)
    ensures
        pawns_inside(p) <==> (pieces(p, PieceType::Pawn, PieceColor::White) | pieces(
            p,
            PieceType::Pawn,
            PieceColor::Black,
        )) & BACK_RANKS == 0,
{
    broadcast use group_bits;

    let white = pieces(p, PieceType::Pawn, PieceColor::White);
    let black = pieces(p, PieceType::Pawn, PieceColor::Black);
    let found = (white | black) & BACK_RANKS;
    if pawns_inside(p) {
        assert forall|j: int| 0 <= j < 64 implies bit(found, j) == bit(0u64, j) by {
            lemma_back_ranks(j as u64);
            lemma_piece(p, PieceType::Pawn, PieceColor::White, j);
            lemma_piece(p, PieceType::Pawn, PieceColor::Black, j);
            if bit(white, j) {
                assert(1 <= rank_of(j) <= 6);
            }
            if bit(black, j) {
                assert(1 <= rank_of(j) <= 6);
            }
        }
        lemma_bits_equal(found, 0);
    }
    if found == 0 {
        assert forall|s: int, color: PieceColor| #[trigger]
            holds(p, s, PieceType::Pawn, color) implies 1 <= rank_of(s) <= 6 by {
            lemma_back_ranks(s as u64);
            lemma_piece(p, PieceType::Pawn, color, s);
            assert(!bit(found, s));
        }
    }
}

impl ChessBoard {
    /// A castling right has its rook in its corner and its king at home.
    fn right_grounded(&self, right: usize) -> (r: bool)
        requires
            self.pieces_ok(),
            right < 4,
        ensures
            r == (holds(self@, corner_of(right as int), PieceType::Rook, color_of_right(right as int))
                && holds(
                self@,
                4 + home(color_of_right(right as int)),
                PieceType::King,
                color_of_right(right as int),
            )),
    {
        let color = if right < 2 {
            PieceColor::White
        } else {
            PieceColor::Black
        };
        let corner: i32 = if right == 0 {
            7
        } else if right == 1 {
            0
        } else if right == 2 {
            63
        } else {
            56
        };
        let king: i32 = if right < 2 {
            4
        } else {
            60
        };
        proof {
            lemma_piece(self@, PieceType::Rook, color, corner as int);
            lemma_piece(self@, PieceType::King, color, king as int);
        }
        has_square(self.piece_set(PieceType::Rook, color), corner) && has_square(
            self.piece_set(PieceType::King, color),
            king,
        )
    }

    /// The board holds a position of a game in which the side that has
    /// just moved has not left its king in check: one king of each
    /// colour, no pawn on the first or the last rank, every castling right
    /// with its rook and its king at home, and a target only behind a
    /// pawn that may have made a double step.
    pub fn is_playable(&self) -> (ok: bool)
        requires
            self.consistent(),
        ensures
            ok == playable(self@),
    {
        let white_kings = self.piece_set(PieceType::King, PieceColor::White);
        let black_kings = self.piece_set(PieceType::King, PieceColor::Black);
        let white_pawns = self.piece_set(PieceType::Pawn, PieceColor::White);
        let black_pawns = self.piece_set(PieceType::Pawn, PieceColor::Black);
        proof {
            lemma_one_king(self@, PieceColor::White);
            lemma_one_king(self@, PieceColor::Black);
            lemma_pawns_inside(self@);
        }
        if white_kings.count_ones() != 1 || black_kings.count_ones() != 1 {
            return false;
        }
        if (white_pawns | black_pawns) & BACK_RANKS != 0 {
            return false;
        }
        let mut right: usize = 0;
        while right < 4
            invariant
                self.pieces_ok(),
                right <= 4,
                forall|r: int|
                    0 <= r < right && #[trigger] self@.castling[r] ==> holds(
                        self@,
                        corner_of(r),
                        PieceType::Rook,
                        color_of_right(r),
                    ) && holds(self@, 4 + home(color_of_right(r)), PieceType::King, color_of_right(r)),
            decreases 4 - right,
        {
            if self.castling_rights[right] && !self.right_grounded(right) {
                assert(self@.castling[right as int]);
                return false;
            }
            right += 1;
        }
        let target = self.en_passant;
        proof {
            lemma_piece(self@, PieceType::Pawn, PieceColor::White, target + 8);
            lemma_piece(self@, PieceType::Pawn, PieceColor::Black, target - 8);
        }
        if target != -1 {
            let behind_white = 16 <= target && target < 24 && has_square(white_pawns, target + 8);
            let behind_black = 40 <= target && target < 48 && has_square(black_pawns, target - 8);
            if !behind_white && !behind_black {
                return false;
            }
        }
        proof {
            lemma_king_square(self@, self.turn.opposite());
        }
        !self.is_king_in_check(self.turn.flipped())
    }
}

} // verus!
