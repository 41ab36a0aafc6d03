//! The king after a move: where the generator lets the king go, it is not
//! attacked.

use vstd::prelude::*;
use crate::bitboard::{
    king_attacks, king_step, knight_attacks, knight_jump, pawn_attacks, pawn_capture,
};
use crate::bits::{
    bit, group_bits, lemma_bitboard_of, lemma_lowest, lemma_member_nonzero, lemma_nonzero_member,
};
use crate::chess_move::MoveFlag;
use crate::piece::{lemma_occupied, PieceColor, PieceType};
use crate::position::Position;
use crate::rules::{
    attack_mask, attack_set, attacked_by, kind_index, king_moves, king_targets, masks_of, occupancy,
    pieces, probe_hit, probe_yield, probed, side, square_in_check, squares_of, Probe,
};
use crate::sliders::{
    bishop_attacks, bishop_sees, lemma_attack_back, queen_attacks, rook_attacks, rook_sees,
};
use crate::uniqueness::{lemma_moves_over, lemma_squares_rising};
use crate::validity::{holds, valid};

verus! {

/// The piece on `s` has the colour `by` and attacks `t`, with `occ` the
/// occupied squares.
pub open spec fn piece_attacks(p: Position, by: PieceColor, s: int, occ: u64, t: int) -> bool {
    0 <= s < 64 && p.board[s].occupied() && p.board[s].color() == by && bit(
        attack_set(p.board[s].kind(), by, s, occ),
        t,
    )
}

/// Some piece of the colour `by` attacks `t`.
pub open spec fn attacked(p: Position, by: PieceColor, occ: u64, t: int) -> bool {
    exists|s: int| #[trigger] piece_attacks(p, by, s, occ, t)
}

/// A square holds a piece exactly if it is in the bitboard of its kind and colour.
proof fn lemma_in_pieces(p: Position, kind: PieceType, color: PieceColor, s: int)
    requires
        kind != PieceType::Empty,
    ensures
        bit(pieces(p, kind, color), s) == holds(p, s, kind, color),
{
    lemma_bitboard_of(
        |s: int| p.board[s].occupied() && p.board[s].index() == kind_index(kind, color),
        s,
    );
    if 0 <= s < 64 && p.board[s].occupied() {
        lemma_occupied(p.board[s]);
    }
}

/// A square is occupied exactly if it is in the bitboard of all pieces.
pub proof fn lemma_in_occupancy(p: Position, s: int)
    ensures
        bit(occupancy(p), s) == (0 <= s < 64 && p.board[s].occupied()),
{
    broadcast use group_bits;

    lemma_bitboard_of(|s: int| p.board[s].occupied() && p.board[s].color() == PieceColor::White, s);
    lemma_bitboard_of(|s: int| p.board[s].occupied() && p.board[s].color() == PieceColor::Black, s);
}

/// What one kind of piece adds to the squares that a side attacks.
proof fn lemma_probed_attack(p: Position, kind: PieceType, by: PieceColor, occ: u64, t: int)
    requires
        kind != PieceType::Empty,
    ensures
        bit(probed(Probe::Attack, kind, by, pieces(p, kind, by), occ, 0), t) == (0 <= t < 64
            && exists|s: int|
            #[trigger] holds(p, s, kind, by) && bit(attack_set(kind, by, s, occ), t)),
{
    let set = pieces(p, kind, by);
    lemma_bitboard_of(
        |t: int|
            exists|s: int|
                #[trigger] bit(set, s) && probe_hit(Probe::Attack, kind, by, s, occ, 0) && bit(
                    probe_yield(Probe::Attack, kind, by, s, occ, 0),
                    t,
                ),
        t,
    );
    if exists|s: int|
        #[trigger] bit(set, s) && probe_hit(Probe::Attack, kind, by, s, occ, 0) && bit(
            probe_yield(Probe::Attack, kind, by, s, occ, 0),
            t,
        ) {
        let s = choose|s: int|
            #[trigger] bit(set, s) && probe_hit(Probe::Attack, kind, by, s, occ, 0) && bit(
                probe_yield(Probe::Attack, kind, by, s, occ, 0),
                t,
            );
        lemma_in_pieces(p, kind, by, s);
        assert(holds(p, s, kind, by) && bit(attack_set(kind, by, s, occ), t));
    }
    if exists|s: int| #[trigger] holds(p, s, kind, by) && bit(attack_set(kind, by, s, occ), t) {
        let s = choose|s: int|
            #[trigger] holds(p, s, kind, by) && bit(attack_set(kind, by, s, occ), t);
        lemma_in_pieces(p, kind, by, s);
        assert(bit(set, s) && probe_hit(Probe::Attack, kind, by, s, occ, 0) && bit(
            probe_yield(Probe::Attack, kind, by, s, occ, 0),
            t,
        ));
    }
}

/// The squares that a side attacks are those that one of its pieces attacks.
pub proof fn lemma_attacked_by(p: Position, by: PieceColor, occ: u64, t: int)
    ensures
        bit(attacked_by(p, by, occ), t) == (0 <= t < 64 && attacked(p, by, occ, t)),
{
    broadcast use group_bits;

    lemma_probed_attack(p, PieceType::Pawn, by, occ, t);
    lemma_probed_attack(p, PieceType::Knight, by, occ, t);
    lemma_probed_attack(p, PieceType::Bishop, by, occ, t);
    lemma_probed_attack(p, PieceType::Rook, by, occ, t);
    lemma_probed_attack(p, PieceType::Queen, by, occ, t);
    lemma_probed_attack(p, PieceType::King, by, occ, t);
    if bit(attacked_by(p, by, occ), t) {
        let kind = if bit(
            probed(Probe::Attack, PieceType::Pawn, by, pieces(p, PieceType::Pawn, by), occ, 0),
            t,
        ) {
            PieceType::Pawn
        } else if bit(
            probed(Probe::Attack, PieceType::Knight, by, pieces(p, PieceType::Knight, by), occ, 0),
            t,
        ) {
            PieceType::Knight
        } else if bit(
            probed(Probe::Attack, PieceType::Bishop, by, pieces(p, PieceType::Bishop, by), occ, 0),
            t,
        ) {
            PieceType::Bishop
        } else if bit(
            probed(Probe::Attack, PieceType::Rook, by, pieces(p, PieceType::Rook, by), occ, 0),
            t,
        ) {
            PieceType::Rook
        } else if bit(
            probed(Probe::Attack, PieceType::Queen, by, pieces(p, PieceType::Queen, by), occ, 0),
            t,
        ) {
            PieceType::Queen
        } else {
            PieceType::King
        };
        let s = choose|s: int|
            #[trigger] holds(p, s, kind, by) && bit(attack_set(kind, by, s, occ), t);
        assert(piece_attacks(p, by, s, occ, t));
    }
    if 0 <= t < 64 && attacked(p, by, occ, t) {
        let s = choose|s: int| #[trigger] piece_attacks(p, by, s, occ, t);
        let kind = p.board[s].kind();
        lemma_occupied(p.board[s]);
        assert(holds(p, s, kind, by) && bit(attack_set(kind, by, s, occ), t));
    }
}

/// The attacks of the leapers read backwards: a knight or a king attacks
/// where it is attacked from, and a pawn where a pawn of the other colour
/// would attack it from.
pub proof fn lemma_leapers_back(color: PieceColor, a: int, b: int)
    ensures
        bit(knight_attacks(a), b) == bit(knight_attacks(b), a),
        bit(king_attacks(a), b) == bit(king_attacks(b), a),
        bit(pawn_attacks(color, a), b) == bit(pawn_attacks(color.opposite(), b), a),
{
    lemma_bitboard_of(|t: int| knight_jump(a, t), b);
    lemma_bitboard_of(|t: int| knight_jump(b, t), a);
    lemma_bitboard_of(|t: int| king_step(a, t), b);
    lemma_bitboard_of(|t: int| king_step(b, t), a);
    lemma_bitboard_of(|t: int| pawn_capture(color, a, t), b);
    lemma_bitboard_of(|t: int| pawn_capture(color.opposite(), b, t), a);
}

/// A queen attacks what a rook or a bishop on its square attacks.
pub proof fn lemma_queen(s: int, occ: u64, t: int)
    ensures
        bit(queen_attacks(s, occ), t) == (bit(rook_attacks(s, occ), t) || bit(
            bishop_attacks(s, occ),
            t,
        )),
{
    lemma_bitboard_of(|t: int| rook_sees(s, occ, t) || bishop_sees(s, occ, t), t);
    lemma_bitboard_of(|t: int| rook_sees(s, occ, t), t);
    lemma_bitboard_of(|t: int| bishop_sees(s, occ, t), t);
}

/// A square is in check exactly if a piece of the other side attacks it.
pub proof fn lemma_check_is_attack(p: Position, color: PieceColor, t: int)
    requires
        0 <= t < 64,
    ensures
        square_in_check(p, color, t) == attacked(p, color.opposite(), occupancy(p), t),
{
    broadcast use group_bits;

    let them = color.opposite();
    let occ = occupancy(p);
    let pawns = pawn_attacks(color, t) & pieces(p, PieceType::Pawn, them);
    let knights = knight_attacks(t) & pieces(p, PieceType::Knight, them);
    let diagonals = bishop_attacks(t, occ) & (pieces(p, PieceType::Bishop, them) | pieces(
        p,
        PieceType::Queen,
        them,
    ));
    let orthogonals = rook_attacks(t, occ) & (pieces(p, PieceType::Rook, them) | pieces(
        p,
        PieceType::Queen,
        them,
    ));
    let kings = king_attacks(t) & pieces(p, PieceType::King, them);
    let all = pawns | knights | diagonals | orthogonals | kings;
    assert(square_in_check(p, color, t) == (all != 0));
    if all != 0 {
        let s = lemma_nonzero_member(all);
        lemma_leapers_back(color, t, s);
        lemma_in_pieces(p, PieceType::Pawn, them, s);
        lemma_in_pieces(p, PieceType::Knight, them, s);
        lemma_in_pieces(p, PieceType::Bishop, them, s);
        lemma_in_pieces(p, PieceType::Rook, them, s);
        lemma_in_pieces(p, PieceType::Queen, them, s);
        lemma_in_pieces(p, PieceType::King, them, s);
        lemma_attack_back(t, occ, s, occ);
        lemma_queen(s, occ, t);
        assert(piece_attacks(p, them, s, occ, t));
    }
    if attacked(p, them, occ, t) {
        let s = choose|s: int| #[trigger] piece_attacks(p, them, s, occ, t);
        let kind = p.board[s].kind();
        lemma_occupied(p.board[s]);
        lemma_leapers_back(color, t, s);
        lemma_in_pieces(p, kind, them, s);
        lemma_attack_back(s, occ, t, occ);
        lemma_queen(s, occ, t);
        assert(bit(all, s));
        lemma_member_nonzero(all, s);
    }
}

/// A slider attacks a square whatever stands on that square: two sets of
/// occupied squares that differ in the attacked square alone give the same answer.
pub proof fn lemma_same_sight(kind: PieceType, color: PieceColor, s: int, occ: u64, occ2: u64, t: int)
    requires
        0 <= s < 64,
        0 <= t < 64,
        forall|u: int| 0 <= u < 64 && u != t ==> bit(occ2, u) == bit(occ, u),
        bit(attack_set(kind, color, s, occ), t),
    ensures
        bit(attack_set(kind, color, s, occ2), t),
{
    lemma_attack_back(s, occ, t, occ2);
    lemma_attack_back(t, occ2, s, occ2);
    lemma_queen(s, occ, t);
    lemma_queen(s, occ2, t);
}

/// The king of the side to move is not attacked where a move of the king,
/// castling apart, takes it.
pub proof fn lemma_king_moves_safe(p: Position, quiets: bool, i: int)
    requires
        valid(p),
        0 <= i < king_moves(masks_of(p, quiets)).len(),
    ensures
        ({
            let m = king_moves(masks_of(p, quiets))[i];
            let q = p.made(m);
            &&& holds(q, m.to(), PieceType::King, p.turn)
            &&& !square_in_check(q, p.turn, m.to())
        }),
{
    broadcast use group_bits;

    let g = masks_of(p, quiets);
    let us = p.turn;
    let them = us.opposite();
    let m = king_moves(g)[i];
    let q = p.made(m);
    let kings = pieces(p, PieceType::King, us);
    vstd::std_specs::bits::axiom_u64_trailing_zeros(kings);
    lemma_lowest(kings);
    let from = g.king as int;
    lemma_in_pieces(p, PieceType::King, us, from);
    let targets = king_targets(g);
    lemma_squares_rising(targets, 0);
    lemma_moves_over(from, squares_of(targets), MoveFlag::Normal, targets);
    let to = m.to();
    assert(m.from() == from && m.flag() == MoveFlag::Normal && bit(targets, to));
    lemma_occupied(p.board[from]);
    assert(!bit(side(p, us), to));
    lemma_bitboard_of(|s: int| p.board[s].occupied() && p.board[s].color() == us, to);
    assert(to != from);
    assert(q.board[to] == p.board[from]);
    assert(holds(q, to, PieceType::King, us));
    let occ_q = occupancy(q);
    let occ_m = occupancy(p) ^ kings;
    assert forall|u: int| 0 <= u < 64 && u != to implies bit(occ_m, u) == bit(occ_q, u) by {
        lemma_in_occupancy(p, u);
        lemma_in_occupancy(q, u);
        lemma_in_pieces(p, PieceType::King, us, u);
        if u != from {
            assert(q.board[u] == p.board[u]);
            assert(!holds(p, u, PieceType::King, us));
        } else {
            assert(q.board[u] == crate::position::no_piece());
        }
    }
    lemma_check_is_attack(q, us, to);
    if attacked(q, them, occ_q, to) {
        let s = choose|s: int| #[trigger] piece_attacks(q, them, s, occ_q, to);
        assert(s != to && s != from);
        assert(q.board[s] == p.board[s]);
        lemma_same_sight(p.board[s].kind(), them, s, occ_q, occ_m, to);
        assert(piece_attacks(p, them, s, occ_m, to));
        lemma_attacked_by(p, them, occ_m, to);
        assert(bit(attack_mask(p), to));
        assert(false);
    }
}

} // verus!
