//! Every generated move obeys the rules of movement.

use vstd::prelude::*;
use crate::bits::{bit, group_bits};
use crate::board_helper::{file_of, rank_of};
use crate::checks::{lemma_in_check, lemma_king_square};
use crate::chess_move::{lemma_encode_fields, Move, MoveFlag};
use crate::geometry::lemma_sight;
use crate::listing::{lemma_listed_encoded, lemma_listed_parts};
use crate::movement::{by_rule, castles_by_rule, encoded, lemma_reaches, wanted};
use crate::piece::{lemma_occupied, PieceType};
use crate::pins::{lemma_occupancy, lemma_piece};
use crate::position::Position;
use crate::rules::{
    attack_mask, castling_moves, en_passant_allowed, forward, home, king_moves, king_square,
    king_targets, legal_moves, masks_of, may_castle_king_side, may_castle_queen_side, occupancy,
    on_home_rank, pawn_capture_targets, pawn_double_step, pawn_en_passant, pawn_may_step,
    pawn_targets, pieces, squares_of, Mover, KING_SIDE_PATH, QUEEN_SIDE_PATH, QUEEN_SIDE_WALK,
};
use crate::safety::{attacked, lemma_attacked_by, piece_attacks};
use crate::uniqueness::{described, lemma_moves_over, lemma_squares_rising, pawn_described};
use crate::validity::{lemma_free, lemma_path_members, valid};

verus! {

/// A move that is described as the move of a knight, a slider or a pawn
/// obeys the rules by which the piece moves.
proof fn lemma_described_by_rule(p: Position, quiets: bool, mover: Mover, m: Move)
    requires
        valid(p),
        described(masks_of(p, quiets), mover, m),
    ensures
        by_rule(p, m),
{
    broadcast use group_bits;

    let g = masks_of(p, quiets);
    let us = p.turn;
    let them = us.opposite();
    let f = m.from();
    let t = m.to();
    let occ = occupancy(p);
    lemma_piece(p, PieceType::Knight, us, f);
    lemma_piece(p, PieceType::Bishop, us, f);
    lemma_piece(p, PieceType::Rook, us, f);
    lemma_piece(p, PieceType::Queen, us, f);
    lemma_piece(p, PieceType::Pawn, us, f);
    lemma_occupancy(p, t);
    lemma_sight(f, occ, t);
    lemma_reaches(PieceType::Knight, us, f, occ, t);
    lemma_reaches(PieceType::Pawn, us, f, occ, t);
    match mover {
        Mover::Knight => {},
        Mover::Diagonal => {},
        Mover::Orthogonal => {},
        Mover::Pawn => {
            let step = f + forward(us);
            assert(pawn_described(g, m));
            assert(f == 8 * rank_of(f) + file_of(f) && t == 8 * rank_of(t) + file_of(t));
            lemma_occupancy(p, step);
            if 0 <= step < 64 && !bit(g.all, step) {
                lemma_free(p, step);
            }
            if m.flag() == MoveFlag::PawnTwoUp {
                let double = pawn_double_step(g, f);
                assert(double.len() == 1 && double[0] == m);
                lemma_encode_fields(f, f + 2 * forward(us), MoveFlag::PawnTwoUp);
                lemma_free(p, t);
            } else if m.flag() == MoveFlag::EnPassant {
                let capture = pawn_en_passant(g, f);
                assert(capture.len() == 1 && capture[0] == m);
                assert(en_passant_allowed(g, f));
                lemma_encode_fields(f, g.en_passant as int, MoveFlag::EnPassant);
                lemma_free(p, t);
                lemma_piece(p, PieceType::Pawn, them, t - forward(us));
            } else {
                assert(bit(pawn_targets(g, f), t));
                if !bit(pawn_capture_targets(g, f), t) {
                    assert(pawn_may_step(g, f) && t == step);
                }
            }
        },
    }
}

/// A square that is attacked is in the attack mask.
proof fn lemma_attack_masked(p: Position, x: int)
    requires
        0 <= x < 64,
        attacked(p, p.turn.opposite(), occupancy(p), x),
    ensures
        bit(attack_mask(p), x),
{
    broadcast use group_bits;

    let them = p.turn.opposite();
    let occ = occupancy(p);
    let masked = occ ^ pieces(p, PieceType::King, p.turn);
    let s = choose|s: int| #[trigger] piece_attacks(p, them, s, occ, x);
    lemma_reaches(p.board[s].kind(), them, s, occ, x);
    lemma_reaches(p.board[s].kind(), them, s, masked, x);
    assert forall|u: int| bit(masked, u) implies bit(occ, u) by {
        lemma_occupancy(p, u);
        lemma_piece(p, PieceType::King, p.turn, u);
    }
    assert(piece_attacks(p, them, s, masked, x));
    lemma_attacked_by(p, them, masked, x);
}

/// A castling move that is generated obeys the rules of castling.
proof fn lemma_castling_by_rule(p: Position, quiets: bool, m: Move)
    requires
        valid(p),
        castling_moves(masks_of(p, quiets)).contains(m),
    ensures
        by_rule(p, m),
{
    broadcast use group_bits;

    let g = masks_of(p, quiets);
    let us = p.turn;
    let them = us.opposite();
    let h = home(us);
    let occ = occupancy(p);
    lemma_king_square(p, us);
    lemma_in_check(p);
    lemma_encode_fields(4 + h, 6 + h, MoveFlag::Castle);
    lemma_encode_fields(4 + h, 2 + h, MoveFlag::Castle);
    let king_side = m == Move::encode(4 + h, 6 + h, MoveFlag::Castle) && may_castle_king_side(g);
    let queen_side = m == Move::encode(4 + h, 2 + h, MoveFlag::Castle) && may_castle_queen_side(g);
    assert(king_side || queen_side) by {
        let moves = castling_moves(g);
        let i = choose|i: int| 0 <= i < moves.len() && moves[i] == m;
    }
    assert forall|j: int| 0 <= j < 64 implies bit(on_home_rank(KING_SIDE_PATH, us), j) == (j == 5
        + h || j == 6 + h) && bit(on_home_rank(QUEEN_SIDE_PATH, us), j) == (j == 1 + h || j == 2
        + h || j == 3 + h) && bit(on_home_rank(QUEEN_SIDE_WALK, us), j) == (j == 2 + h || j == 3
        + h) by {
        lemma_path_members(j as u64);
    }
    lemma_occupied(p.board[4 + h]);
    if king_side {
        let path = on_home_rank(KING_SIDE_PATH, us);
        assert(!bit(g.all & path, 5 + h) && !bit(g.all & path, 6 + h));
        assert(!bit(g.attacked & path, 5 + h));
        lemma_free(p, 5 + h);
        lemma_free(p, 6 + h);
        if attacked(p, them, occ, 5 + h) {
            lemma_attack_masked(p, 5 + h);
        }
    } else {
        let path = on_home_rank(QUEEN_SIDE_PATH, us);
        let walk = on_home_rank(QUEEN_SIDE_WALK, us);
        assert(!bit(g.all & path, 1 + h) && !bit(g.all & path, 2 + h) && !bit(
            g.all & path,
            3 + h,
        ));
        assert(!bit(g.attacked & walk, 3 + h));
        lemma_free(p, 1 + h);
        lemma_free(p, 2 + h);
        lemma_free(p, 3 + h);
        if attacked(p, them, occ, 3 + h) {
            lemma_attack_masked(p, 3 + h);
        }
    }
    assert(castles_by_rule(p, m.from(), m.to()));
}

/// A move of the king that is generated is a step of the king.
proof fn lemma_king_by_rule(p: Position, quiets: bool, m: Move)
    requires
        valid(p),
        king_moves(masks_of(p, quiets)).contains(m),
    ensures
        by_rule(p, m),
{
    broadcast use group_bits;

    let g = masks_of(p, quiets);
    let us = p.turn;
    let king = king_square(p, us);
    let targets = king_targets(g);
    let moves = king_moves(g);
    lemma_king_square(p, us);
    let i = choose|i: int| 0 <= i < moves.len() && moves[i] == m;
    lemma_squares_rising(targets, 0);
    lemma_moves_over(king, squares_of(targets), MoveFlag::Normal, targets);
    assert(m.from() == king && m.flag() == MoveFlag::Normal && bit(targets, m.to()));
    lemma_occupied(p.board[king]);
    lemma_occupancy(p, m.to());
    lemma_reaches(PieceType::King, us, king, occupancy(p), m.to());
}

/// Every generated move is the encoding of its origin, its destination
/// and its flag, and it obeys the rules by which its piece moves.
pub proof fn lemma_legal_moves_by_rule(p: Position, quiets: bool, i: int)
    requires
        valid(p),
        0 <= i < legal_moves(p, quiets).len(),
    ensures
        encoded(legal_moves(p, quiets)[i]),
        by_rule(p, legal_moves(p, quiets)[i]),
{
    let g = masks_of(p, quiets);
    let m = legal_moves(p, quiets)[i];
    lemma_king_square(p, p.turn);
    lemma_listed_encoded(g, i);
    lemma_listed_parts(g, i);
    if king_moves(g).contains(m) {
        lemma_king_by_rule(p, quiets, m);
    } else if castling_moves(g).contains(m) {
        lemma_castling_by_rule(p, quiets, m);
    } else if described(g, Mover::Knight, m) {
        lemma_described_by_rule(p, quiets, Mover::Knight, m);
    } else if described(g, Mover::Diagonal, m) {
        lemma_described_by_rule(p, quiets, Mover::Diagonal, m);
    } else if described(g, Mover::Orthogonal, m) {
        lemma_described_by_rule(p, quiets, Mover::Orthogonal, m);
    } else {
        lemma_described_by_rule(p, quiets, Mover::Pawn, m);
    }
}

/// Every generated move is wanted: if only captures are asked for, it is
/// a capture, and if it is a promotion, one to a queen.
pub proof fn lemma_legal_moves_wanted(p: Position, quiets: bool, i: int)
    requires
        valid(p),
        0 <= i < legal_moves(p, quiets).len(),
    ensures
        wanted(p, legal_moves(p, quiets)[i], quiets),
{
    broadcast use group_bits;

    let g = masks_of(p, quiets);
    let m = legal_moves(p, quiets)[i];
    let t = m.to();
    lemma_king_square(p, p.turn);
    lemma_listed_parts(g, i);
    lemma_occupancy(p, t);
    if !quiets {
        if king_moves(g).contains(m) {
            let moves = king_moves(g);
            let targets = king_targets(g);
            let k = choose|k: int| 0 <= k < moves.len() && moves[k] == m;
            lemma_squares_rising(targets, 0);
            lemma_moves_over(g.king as int, squares_of(targets), MoveFlag::Normal, targets);
            assert(m.flag() == MoveFlag::Normal && bit(targets, t));
        } else if castling_moves(g).contains(m) {
            assert(castling_moves(g).len() == 0);
        } else if described(g, Mover::Pawn, m) {
            assert(pawn_described(g, m));
            if m.flag() == MoveFlag::PawnTwoUp {
                let double = pawn_double_step(g, m.from());
                assert(double.len() == 1);
            } else if m.flag() != MoveFlag::EnPassant {
                assert(bit(pawn_capture_targets(g, m.from()), t));
            }
        }
    }
}

} // verus!
