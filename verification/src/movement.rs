//! The rules by which the pieces move, stated in the coordinates of the
//! board and without regard to the masks from which moves are generated.

use vstd::prelude::*;
use crate::bitboard::{king_step, knight_jump, pawn_capture};
use crate::bits::{bit, lemma_bitboard_of};
use crate::board_helper::rank_of;
use crate::chess_move::{Move, MoveFlag};
use crate::geometry::{bishop_line, clear, lemma_sight, rook_line};
use crate::piece::{PieceColor, PieceType};
use crate::pins::{enemy_at, own_at};
use crate::position::Position;
use crate::rules::{attack_set, forward, home, occupancy};
use crate::safety::{attacked, lemma_queen};
use crate::validity::{free, holds, start_rank};

verus! {

/// A piece of a kind and colour on `s` attacks `t`, with `occ` the
/// occupied squares: a pawn one rank forward and one file aside, a knight
/// by its jump, a king by one step, and a slider along a free line.
pub open spec fn reaches(kind: PieceType, color: PieceColor, s: int, occ: u64, t: int) -> bool {
    match kind {
        PieceType::Pawn => pawn_capture(color, s, t),
        PieceType::Knight => knight_jump(s, t),
        PieceType::Bishop => bishop_line(s, t) && clear(s, t, occ),
        PieceType::Rook => rook_line(s, t) && clear(s, t, occ),
        PieceType::Queen => (rook_line(s, t) || bishop_line(s, t)) && clear(s, t, occ),
        PieceType::King => king_step(s, t),
        PieceType::Empty => false,
    }
}

/// The bitboard of the squares that a piece attacks holds the squares that
/// it reaches.
pub proof fn lemma_reaches(kind: PieceType, color: PieceColor, s: int, occ: u64, t: int)
    requires
        0 <= s < 64,
    ensures
        bit(attack_set(kind, color, s, occ), t) == reaches(kind, color, s, occ, t),
{
    lemma_bitboard_of(|u: int| pawn_capture(color, s, u), t);
    lemma_bitboard_of(|u: int| knight_jump(s, u), t);
    lemma_bitboard_of(|u: int| king_step(s, u), t);
    lemma_sight(s, occ, t);
    lemma_queen(s, occ, t);
    crate::bits::lemma_bit_zero(t);
}

/// A move is the encoding of its origin, its destination and its flag.
pub open spec fn encoded(m: Move) -> bool {
    m == Move::encode(m.from(), m.to(), m.flag())
}

/// The rank on which the pawns of a colour are promoted.
pub open spec fn last_rank(us: PieceColor) -> int {
    if us == PieceColor::White {
        7
    } else {
        0
    }
}

/// The king may castle from `from` to `to`: it stands at home and is not
/// attacked, it has the right, the squares between it and the rook are
/// empty, and the square that it crosses is not attacked.
pub open spec fn castles_by_rule(p: Position, from: int, to: int) -> bool {
    let us = p.turn;
    let them = us.opposite();
    let occ = occupancy(p);
    let h = home(us);
    &&& from == 4 + h
    &&& !attacked(p, them, occ, from)
    &&& (to == 6 + h && p.castling[us.code() * 2] && free(p, 5 + h) && free(p, 6 + h) && !attacked(
        p,
        them,
        occ,
        5 + h,
    )) || (to == 2 + h && p.castling[us.code() * 2 + 1] && free(p, 1 + h) && free(p, 2 + h)
        && free(p, 3 + h) && !attacked(p, them, occ, 3 + h))
}

/// A pawn of the side to move may go from `from` to `to` under a flag: one
/// step to an empty square or a capture aside, as a promotion exactly on
/// the last rank; a double step from its start rank over empty squares; or
/// the capture of the pawn that stands before the en-passant target.
pub open spec fn pawn_by_rule(p: Position, from: int, to: int, flag: MoveFlag) -> bool {
    let us = p.turn;
    let step = forward(us);
    let promotes = rank_of(to) == last_rank(us);
    let plain = (to == from + step && free(p, to)) || (pawn_capture(us, from, to) && enemy_at(
        p,
        to,
    ));
    match flag {
        MoveFlag::Castle => false,
        MoveFlag::PawnTwoUp => rank_of(from) == start_rank(us) && to == from + 2 * step && free(
            p,
            from + step,
        ) && free(p, to),
        MoveFlag::EnPassant => pawn_capture(us, from, to) && to == p.en_passant && free(p, to)
            && holds(p, to - step, PieceType::Pawn, us.opposite()),
        MoveFlag::Normal => plain && !promotes,
        _ => plain && promotes,
    }
}

/// A move obeys the rules by which its piece moves: it carries a piece of
/// the side to move to a square that holds no piece of that side, as the
/// piece moves.
pub open spec fn by_rule(p: Position, m: Move) -> bool {
    let us = p.turn;
    let from = m.from();
    let to = m.to();
    let kind = p.board[from].kind();
    &&& own_at(p, from)
    &&& 0 <= to < 64
    &&& !own_at(p, to)
    &&& if kind == PieceType::Pawn {
        pawn_by_rule(p, from, to, m.flag())
    } else if kind == PieceType::King && m.flag() == MoveFlag::Castle {
        castles_by_rule(p, from, to)
    } else {
        m.flag() == MoveFlag::Normal && reaches(kind, us, from, occupancy(p), to)
    }
}

/// A move captures: it goes to a piece of the other side, or it is an
/// en-passant capture.
pub open spec fn captures(p: Position, m: Move) -> bool {
    enemy_at(p, m.to()) || m.flag() == MoveFlag::EnPassant
}

/// A move is among those that are wanted: any move if quiet moves are
/// wanted too, else the captures, and of the promotions among them those
/// to a queen.
pub open spec fn wanted(p: Position, m: Move, quiets: bool) -> bool {
    quiets || (captures(p, m) && (m.flag().is_promotion() ==> m.flag() == MoveFlag::PromoteQueen))
}

} // verus!
