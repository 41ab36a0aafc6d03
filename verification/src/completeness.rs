//! Every move that obeys the rules of movement and leaves the king of its
//! side safe is generated, but for some en-passant captures.

use vstd::prelude::*;
use crate::bitboard::pawn_capture;
use crate::bits::{bit, group_bits, lemma_bits_equal, lemma_nonzero_member, single};
use crate::board_helper::{file_of, rank_of};
use crate::checks::{
    lemma_attacker_checks, lemma_check_line, lemma_checkers, lemma_in_check, lemma_king_square,
    lemma_two_checkers, playable,
};
use crate::chess_move::{lemma_encode_fields, Move, MoveFlag};
use crate::geometry::{
    bishop_line, clear, inside, lemma_beyond_neighbour, lemma_inside_chain, lemma_inside_flip,
    lemma_line_between, lemma_same_ray, lemma_sight, on_line, rook_line,
};
use crate::legality::{carried, lemma_en_passant_described, lemma_made_carried, safe};
use crate::listing::{
    lemma_gathered_hold, lemma_joined_hold, lemma_moves_for_hold, lemma_moves_to_hold,
    lemma_promotions_to_hold,
};
use crate::movement::{by_rule, encoded, lemma_reaches, reaches, wanted};
use crate::piece::{lemma_occupied, PieceColor, PieceType};
use crate::pins::{
    enemy_at, lemma_line_sight, lemma_occupancy, lemma_piece, lemma_pin_mask, lemma_pinner_shape,
    lemma_sliders, line, occupied, own_at, pins, shielded, sole_blocker,
};
use crate::position::{corner_of, no_piece, rook_landing, rook_origin, victim_square, Position};
use crate::rules::{
    attack_mask, castling_moves, check_count, check_mask, checkers, diagonal_targets,
    en_passant_allowed, forward, home, king_square, king_targets, knight_targets, legal_moves,
    masks_of, may_castle_king_side, may_castle_queen_side, moves_to, occupancy, on_home_rank,
    orthogonal_sliders, orthogonal_targets, pawn_capture_targets, pawn_double_step, pawn_en_passant,
    pawn_may_step, pawn_moves, pawn_targets, pieces, pin_mask, pinned, pinners, promotions_to,
    square_in_check, Mover, KING_SIDE_PATH, QUEEN_SIDE_PATH, QUEEN_SIDE_WALK,
};
use crate::safety::{
    attacked, lemma_attacked_by, lemma_check_is_attack, lemma_in_occupancy, lemma_same_sight,
    piece_attacks,
};
use crate::sliders::rook_attacks;
use crate::validity::{
    free, holds, last_but_one, lemma_path_members, lemma_sound_move_keeps_valid, no_king, sound,
    valid,
};

verus! {

/// A line that nothing but the moving piece blocks is free after the
/// move, unless the move ends on it.
proof fn lemma_clear_after(p: Position, q: Position, f: int, t: int, a: int, b: int)
    requires
        p.board.len() == 64,
        carried(p, q, f, t),
        forall|u: int| inside(a, b, u) && occupied(p, u) ==> u == f,
        !inside(a, b, t),
    ensures
        clear(a, b, occupancy(q)),
{
    assert forall|u: int| inside(a, b, u) implies !bit(occupancy(q), u) by {
        lemma_occupancy(q, u);
        lemma_occupancy(p, u);
    }
}

/// A piece of the other side that reaches a square once the moving piece
/// has been carried away attacks that square after the move.
proof fn lemma_attacks_after(p: Position, q: Position, f: int, t: int, s: int, king: int)
    requires
        p.board.len() == 64,
        carried(p, q, f, t),
        enemy_at(p, s),
        s != t,
        reaches(p.board[s].kind(), p.turn.opposite(), s, occupancy(q), king),
    ensures
        attacked(q, p.turn.opposite(), occupancy(q), king),
{
    lemma_occupied(p.board[s]);
    assert(q.board[s] == p.board[s]);
    lemma_reaches(p.board[s].kind(), p.turn.opposite(), s, occupancy(q), king);
    assert(piece_attacks(q, p.turn.opposite(), s, occupancy(q), king));
}

/// A move answers the check of a piece: it takes the piece, or it goes
/// between a slider and the king.
pub open spec fn answers(p: Position, kind: PieceType, c: int, t: int) -> bool {
    t == c || ((kind == PieceType::Rook || kind == PieceType::Bishop) && inside(
        c,
        king_square(p, p.turn),
        t,
    ))
}

/// The check of a piece stands after a move of another piece than the
/// king that does not answer it.
proof fn lemma_unanswered_stays(p: Position, q: Position, f: int, t: int, kind: PieceType, c: int)
    requires
        valid(p),
        carried(p, q, f, t),
        kind == PieceType::Pawn || kind == PieceType::Knight || kind == PieceType::Bishop || kind
            == PieceType::Rook,
        bit(checkers(p, kind, king_square(p, p.turn)), c),
        !answers(p, kind, c, t),
    ensures
        attacked(q, p.turn.opposite(), occupancy(q), king_square(p, p.turn)),
{
    let them = p.turn.opposite();
    let king = king_square(p, p.turn);
    lemma_king_square(p, p.turn);
    lemma_checkers(p, kind, king, c);
    lemma_occupied(p.board[c]);
    let piece = p.board[c].kind();
    if kind == PieceType::Rook || kind == PieceType::Bishop {
        lemma_line_sight(kind, them, c, occupancy(p), king);
        assert forall|u: int| inside(c, king, u) && occupied(p, u) implies u == f by {
            lemma_occupancy(p, u);
        }
        lemma_clear_after(p, q, f, t, c, king);
    } else {
        lemma_reaches(kind, them, c, occupancy(p), king);
    }
    assert(reaches(piece, them, c, occupancy(q), king));
    lemma_attacks_after(p, q, f, t, c, king);
}

/// No move answers the checks of two pieces.
proof fn lemma_one_answer(p: Position, k1: PieceType, c1: int, k2: PieceType, c2: int, t: int)
    requires
        valid(p),
        k1 == PieceType::Pawn || k1 == PieceType::Knight || k1 == PieceType::Bishop || k1
            == PieceType::Rook,
        k2 == PieceType::Pawn || k2 == PieceType::Knight || k2 == PieceType::Bishop || k2
            == PieceType::Rook,
        bit(checkers(p, k1, king_square(p, p.turn)), c1),
        bit(checkers(p, k2, king_square(p, p.turn)), c2),
        c1 != c2,
    ensures
        !(answers(p, k1, c1, t) && answers(p, k2, c2, t)),
{
    let them = p.turn.opposite();
    let king = king_square(p, p.turn);
    let occ = occupancy(p);
    lemma_king_square(p, p.turn);
    lemma_checkers(p, k1, king, c1);
    lemma_checkers(p, k2, king, c2);
    lemma_occupied(p.board[c1]);
    lemma_occupied(p.board[c2]);
    lemma_occupancy(p, c1);
    lemma_occupancy(p, c2);
    if answers(p, k1, c1, t) && answers(p, k2, c2, t) {
        if k1 == PieceType::Rook || k1 == PieceType::Bishop {
            lemma_line_sight(k1, them, c1, occ, king);
        }
        if k2 == PieceType::Rook || k2 == PieceType::Bishop {
            lemma_line_sight(k2, them, c2, occ, king);
        }
        if t != c1 && t != c2 {
            lemma_same_ray(king, c1, c2, t);
            lemma_inside_flip(true, king, c1, c2);
            lemma_inside_flip(true, king, c2, c1);
        }
    }
}

/// A move of another piece than the king that leaves the king safe is
/// made outside a double check, and in a check it goes to a square of the
/// check mask.
proof fn lemma_check_respected(p: Position, q: Position, f: int, t: int)
    requires
        playable(p),
        carried(p, q, f, t),
        !attacked(q, p.turn.opposite(), occupancy(q), king_square(p, p.turn)),
    ensures
        check_count(p, king_square(p, p.turn)) < 2,
        attacked(p, p.turn.opposite(), occupancy(p), king_square(p, p.turn)) ==> bit(
            check_mask(p),
            t,
        ),
{
    let them = p.turn.opposite();
    let king = king_square(p, p.turn);
    if check_count(p, king) >= 2 {
        let (k1, c1, k2, c2) = lemma_two_checkers(p);
        lemma_one_answer(p, k1, c1, k2, c2, t);
        if !answers(p, k1, c1, t) {
            lemma_unanswered_stays(p, q, f, t, k1, c1);
        } else {
            lemma_unanswered_stays(p, q, f, t, k2, c2);
        }
    }
    if attacked(p, them, occupancy(p), king) {
        let s = choose|s: int| #[trigger] piece_attacks(p, them, s, occupancy(p), king);
        let kind = lemma_attacker_checks(p, s);
        if answers(p, kind, s, t) {
            lemma_check_line(p, kind, s, t);
        } else {
            lemma_unanswered_stays(p, q, f, t, kind, s);
        }
    }
}

/// A piece on a line of a pin that moves and leaves the king safe stays
/// on the line: it goes to a square of the pin mask of the line's kind,
/// along a line of that kind.
proof fn lemma_pin_respected(p: Position, q: Position, f: int, t: int, lk: PieceType)
    requires
        valid(p),
        carried(p, q, f, t),
        lk == PieceType::Rook || lk == PieceType::Bishop,
        bit(pin_mask(p, lk), f),
        !attacked(q, p.turn.opposite(), occupancy(q), king_square(p, p.turn)),
    ensures
        bit(pin_mask(p, lk), t),
        line(lk, f, t),
        forall|w: int| inside(f, t, w) ==> bit(pin_mask(p, lk), w),
{
    let them = p.turn.opposite();
    let king = king_square(p, p.turn);
    let rook = lk == PieceType::Rook;
    lemma_king_square(p, p.turn);
    lemma_pin_mask(p, lk, f);
    let s = choose|s: int| #[trigger] bit(pinners(p, lk, king), s) && (f == s || inside(king, s, f));
    lemma_pinner_shape(p, lk, king, s);
    lemma_occupied(p.board[s]);
    assert(f != s && inside(king, s, f));
    assert(pins(p, king, s)) by {
        if shielded(p, king, s) {
            assert(!own_at(p, f));
        }
    }
    let g = choose|g: int| #[trigger] sole_blocker(p, king, s, g) && own_at(p, g);
    assert(g == f);
    if !(t == s || inside(king, s, t)) {
        assert forall|u: int| inside(s, king, u) && occupied(p, u) implies u == f by {
            lemma_inside_flip(rook, s, king, u);
        }
        if inside(s, king, t) {
            lemma_inside_flip(rook, s, king, t);
        }
        lemma_clear_after(p, q, f, t, s, king);
        lemma_inside_flip(rook, king, s, f);
        assert(on_line(rook, s, king));
        assert(reaches(p.board[s].kind(), them, s, occupancy(q), king));
        lemma_attacks_after(p, q, f, t, s, king);
    }
    lemma_pin_mask(p, lk, t);
    lemma_line_between(rook, king, s, f, t, t);
    assert forall|w: int| inside(f, t, w) implies bit(pin_mask(p, lk), w) by {
        lemma_line_between(rook, king, s, f, t, w);
        lemma_pin_mask(p, lk, w);
    }
}

/// A move by rule takes no king: the side that is not to move is not in check.
proof fn lemma_no_king_taken(p: Position, m: Move)
    requires
        playable(p),
        by_rule(p, m),
    ensures
        no_king(p, m.to()) || m.flag() == MoveFlag::Castle,
{
    let us = p.turn;
    let them = us.opposite();
    let from = m.from();
    let to = m.to();
    let kind = p.board[from].kind();
    lemma_occupied(p.board[from]);
    if holds(p, to, PieceType::King, them) && m.flag() != MoveFlag::Castle {
        lemma_king_square(p, them);
        lemma_check_is_attack(p, them, to);
        lemma_reaches(kind, us, from, occupancy(p), to);
        assert(reaches(kind, us, from, occupancy(p), to));
        assert(piece_attacks(p, us, from, occupancy(p), to));
    }
}

/// A move by rule is sound.
proof fn lemma_by_rule_sound(p: Position, m: Move)
    requires
        playable(p),
        by_rule(p, m),
    ensures
        sound(p, m),
{
    let us = p.turn;
    let from = m.from();
    let to = m.to();
    lemma_no_king_taken(p, m);
    lemma_occupied(p.board[from]);
    if m.flag() == MoveFlag::Castle {
        assert(p.castling[us.code() * 2] ==> holds(p, 7 + home(us), PieceType::Rook, us)) by {
            assert(corner_of(us.code() * 2) == 7 + home(us));
        }
        assert(p.castling[us.code() * 2 + 1] ==> holds(p, home(us), PieceType::Rook, us)) by {
            assert(corner_of(us.code() * 2 + 1) == home(us));
        }
    }
    if p.board[from].kind() == PieceType::Pawn {
        assert(from == 8 * rank_of(from) + file_of(from) && to == 8 * rank_of(to) + file_of(to));
    }
}

/// After a safe move of another piece than the king, which is neither
/// castling nor an en-passant capture, the king is not attacked where it stood.
proof fn lemma_safe_carried(p: Position, m: Move)
    requires
        playable(p),
        by_rule(p, m),
        safe(p, m),
        p.board[m.from()].kind() != PieceType::King,
        m.flag() != MoveFlag::EnPassant,
    ensures
        carried(p, p.made(m), m.from(), m.to()),
        m.from() != king_square(p, p.turn),
        m.to() != king_square(p, p.turn),
        !attacked(p.made(m), p.turn.opposite(), occupancy(p.made(m)), king_square(p, p.turn)),
{
    let us = p.turn;
    let king = king_square(p, us);
    let q = p.made(m);
    lemma_by_rule_sound(p, m);
    lemma_sound_move_keeps_valid(p, m);
    lemma_occupied(p.board[m.from()]);
    lemma_king_square(p, us);
    lemma_made_carried(p, m);
    assert(q.board[king] == p.board[king]);
    assert(holds(q, king, PieceType::King, us));
    lemma_king_square(q, us);
    lemma_check_is_attack(q, us, king);
}

/// What the masks say of a safe move by rule of another piece than the
/// king, the en-passant capture apart: it is made outside a double check,
/// to a square that is open, in the check mask and wanted; and a piece on
/// a line of a pin stays within the pin mask of the line's kind.
proof fn lemma_masks_allow(p: Position, quiets: bool, m: Move)
    requires
        playable(p),
        by_rule(p, m),
        safe(p, m),
        p.board[m.from()].kind() != PieceType::King,
        m.flag() != MoveFlag::EnPassant,
    ensures
        !masks_of(p, quiets).double_check,
        bit(masks_of(p, quiets).open, m.to()),
        bit(masks_of(p, quiets).check, m.to()),
        quiets || enemy_at(p, m.to()) ==> bit(masks_of(p, quiets).filter, m.to()),
        forall|lk: PieceType|
            (lk == PieceType::Rook || lk == PieceType::Bishop) && #[trigger] bit(
                pin_mask(p, lk),
                m.from(),
            ) ==> bit(pin_mask(p, lk), m.to()) && line(lk, m.from(), m.to()) && forall|w: int|
                inside(m.from(), m.to(), w) ==> bit(pin_mask(p, lk), w),
{
    broadcast use group_bits;

    let us = p.turn;
    let them = us.opposite();
    let t = m.to();
    let q = p.made(m);
    lemma_safe_carried(p, m);
    lemma_no_king_taken(p, m);
    lemma_in_check(p);
    lemma_check_respected(p, q, m.from(), t);
    lemma_occupancy(p, t);
    lemma_piece(p, PieceType::King, them, t);
    assert forall|lk: PieceType|
        (lk == PieceType::Rook || lk == PieceType::Bishop) && #[trigger] bit(
            pin_mask(p, lk),
            m.from(),
        ) implies bit(pin_mask(p, lk), m.to()) && line(lk, m.from(), m.to()) && forall|w: int|
        inside(m.from(), m.to(), w) ==> bit(pin_mask(p, lk), w) by {
        lemma_pin_respected(p, q, m.from(), t, lk);
    }
}

/// A safe move of a knight by rule is generated.
proof fn lemma_knight_listed(p: Position, quiets: bool, m: Move)
    requires
        playable(p),
        encoded(m),
        by_rule(p, m),
        safe(p, m),
        wanted(p, m, quiets),
        p.board[m.from()].kind() == PieceType::Knight,
    ensures
        legal_moves(p, quiets).contains(m),
{
    broadcast use group_bits;

    let g = masks_of(p, quiets);
    let f = m.from();
    let t = m.to();
    lemma_masks_allow(p, quiets, m);
    lemma_occupied(p.board[f]);
    lemma_piece(p, PieceType::Knight, p.turn, f);
    lemma_reaches(PieceType::Knight, p.turn, f, occupancy(p), t);
    assert(!pinned(g, f)) by {
        if bit(pin_mask(p, PieceType::Rook), f) {
            assert(line(PieceType::Rook, f, t));
        }
        if bit(pin_mask(p, PieceType::Bishop), f) {
            assert(line(PieceType::Bishop, f, t));
        }
    }
    assert(bit(knight_targets(g, f), t));
    lemma_moves_to_hold(f, knight_targets(g, f), MoveFlag::Normal, t);
    lemma_gathered_hold(g, Mover::Knight, f, m);
    lemma_moves_for_hold(g, m);
}

/// A safe move of a bishop, a rook or a queen by rule is generated.
proof fn lemma_slider_listed(p: Position, quiets: bool, m: Move)
    requires
        playable(p),
        encoded(m),
        by_rule(p, m),
        safe(p, m),
        wanted(p, m, quiets),
        p.board[m.from()].kind() == PieceType::Bishop || p.board[m.from()].kind()
            == PieceType::Rook || p.board[m.from()].kind() == PieceType::Queen,
    ensures
        legal_moves(p, quiets).contains(m),
{
    broadcast use group_bits;

    let g = masks_of(p, quiets);
    let f = m.from();
    let t = m.to();
    lemma_masks_allow(p, quiets, m);
    lemma_occupied(p.board[f]);
    lemma_piece(p, PieceType::Bishop, p.turn, f);
    lemma_piece(p, PieceType::Rook, p.turn, f);
    lemma_piece(p, PieceType::Queen, p.turn, f);
    lemma_sight(f, occupancy(p), t);
    if bit(pin_mask(p, PieceType::Rook), f) {
        assert(line(PieceType::Rook, f, t));
    }
    if bit(pin_mask(p, PieceType::Bishop), f) {
        assert(line(PieceType::Bishop, f, t));
    }
    if bishop_line(f, t) {
        assert(bit(diagonal_targets(g, f), t));
        lemma_moves_to_hold(f, diagonal_targets(g, f), MoveFlag::Normal, t);
        lemma_gathered_hold(g, Mover::Diagonal, f, m);
    } else {
        assert(bit(orthogonal_targets(g, f), t));
        lemma_moves_to_hold(f, orthogonal_targets(g, f), MoveFlag::Normal, t);
        lemma_gathered_hold(g, Mover::Orthogonal, f, m);
    }
    lemma_moves_for_hold(g, m);
}

/// The pawn on the origin of a safe pawn move by rule may step forward if
/// the move is such a step or a double step.
proof fn lemma_may_step(p: Position, quiets: bool, m: Move)
    requires
        playable(p),
        by_rule(p, m),
        safe(p, m),
        quiets,
        p.board[m.from()].kind() == PieceType::Pawn,
        m.flag() != MoveFlag::EnPassant,
        m.to() == m.from() + forward(p.turn) || m.flag() == MoveFlag::PawnTwoUp,
        free(p, m.from() + forward(p.turn)),
    ensures
        pawn_may_step(masks_of(p, quiets), m.from()),
{
    broadcast use group_bits;

    let f = m.from();
    let t = m.to();
    let way = f + forward(p.turn);
    lemma_masks_allow(p, quiets, m);
    lemma_occupancy(p, way);
    if way != t {
        assert(inside(f, t, way)) by {
            assert(f == 8 * rank_of(f) + file_of(f) && t == 8 * rank_of(t) + file_of(t) && way == 8
                * rank_of(way) + file_of(way));
        }
    }
    assert(bit(pin_mask(p, PieceType::Rook), f) ==> bit(pin_mask(p, PieceType::Rook), way));
    assert(bit(pin_mask(p, PieceType::Bishop), f) ==> bit(pin_mask(p, PieceType::Bishop), way));
}

/// A safe move of a pawn by rule is generated if it is a step forward, a
/// capture aside or a double step.
proof fn lemma_pawn_listed(p: Position, quiets: bool, m: Move)
    requires
        playable(p),
        encoded(m),
        by_rule(p, m),
        safe(p, m),
        wanted(p, m, quiets),
        p.board[m.from()].kind() == PieceType::Pawn,
        m.flag() != MoveFlag::EnPassant,
    ensures
        legal_moves(p, quiets).contains(m),
{
    broadcast use group_bits;

    let g = masks_of(p, quiets);
    let us = p.turn;
    let f = m.from();
    let t = m.to();
    let step = f + forward(us);
    lemma_masks_allow(p, quiets, m);
    lemma_occupied(p.board[f]);
    lemma_piece(p, PieceType::Pawn, us, f);
    lemma_occupancy(p, t);
    assert(f == 8 * rank_of(f) + file_of(f) && t == 8 * rank_of(t) + file_of(t));
    let double = pawn_double_step(g, f);
    let en_passant = pawn_en_passant(g, f);
    let plain = if rank_of(f) == last_but_one(us) {
        promotions_to(f, pawn_targets(g, f), g.quiets)
    } else {
        moves_to(f, pawn_targets(g, f), MoveFlag::Normal)
    };
    assert(pawn_moves(g, f) == double + plain + en_passant);
    if m.flag() == MoveFlag::PawnTwoUp {
        lemma_may_step(p, quiets, m);
        assert(double.len() == 1 && double[0] == m);
        assert(double.contains(m));
        lemma_joined_hold(double, plain, m);
    } else {
        if t == step && free(p, t) {
            lemma_may_step(p, quiets, m);
            assert(bit(single(step) & g.check, t));
        } else {
            lemma_reaches(PieceType::Pawn, us, f, occupancy(p), t);
            if bit(pin_mask(p, PieceType::Rook), f) {
                assert(line(PieceType::Rook, f, t));
            }
            assert(bit(pawn_capture_targets(g, f), t));
        }
        assert(bit(pawn_targets(g, f), t));
        if rank_of(f) == last_but_one(us) {
            lemma_promotions_to_hold(f, pawn_targets(g, f), quiets, m.flag(), t);
        } else {
            lemma_moves_to_hold(f, pawn_targets(g, f), MoveFlag::Normal, t);
        }
        lemma_joined_hold(double, plain, m);
    }
    lemma_joined_hold(double + plain, en_passant, m);
    lemma_gathered_hold(g, Mover::Pawn, f, m);
    lemma_moves_for_hold(g, m);
}

/// While the king is not in check, a square in the attack mask is
/// attacked with the king in its place too.
proof fn lemma_masked_attack(p: Position, x: int)
    requires
        valid(p),
        !attacked(p, p.turn.opposite(), occupancy(p), king_square(p, p.turn)),
        bit(attack_mask(p), x),
    ensures
        attacked(p, p.turn.opposite(), occupancy(p), x),
{
    broadcast use group_bits;

    let us = p.turn;
    let them = us.opposite();
    let king = king_square(p, us);
    let occ = occupancy(p);
    let masked = occ ^ pieces(p, PieceType::King, us);
    lemma_king_square(p, us);
    lemma_attacked_by(p, them, masked, x);
    let s = choose|s: int| #[trigger] piece_attacks(p, them, s, masked, x);
    let kind = p.board[s].kind();
    lemma_reaches(kind, them, s, masked, x);
    lemma_reaches(kind, them, s, occ, x);
    lemma_reaches(kind, them, s, occ, king);
    lemma_occupancy(p, king);
    if !reaches(kind, them, s, occ, x) {
        let rook = rook_line(s, x);
        let b = choose|u: int| inside(s, x, u) && bit(occ, u);
        lemma_piece(p, PieceType::King, us, b);
        assert(!bit(masked, b));
        assert(holds(p, b, PieceType::King, us));
        assert(b == king);
        lemma_inside_flip(rook, s, x, king);
        assert forall|u: int| inside(s, king, u) implies !bit(occ, u) by {
            lemma_inside_chain(s, x, king, u);
            lemma_piece(p, PieceType::King, us, u);
            assert(!bit(masked, u));
            if bit(occ, u) {
                assert(holds(p, u, PieceType::King, us));
            }
        }
        assert(reaches(kind, them, s, occ, king));
        assert(piece_attacks(p, them, s, occ, king));
    }
    assert(piece_attacks(p, them, s, occ, x));
}

/// A safe step of the king by rule is generated.
proof fn lemma_king_listed(p: Position, quiets: bool, m: Move)
    requires
        playable(p),
        encoded(m),
        by_rule(p, m),
        safe(p, m),
        wanted(p, m, quiets),
        p.board[m.from()].kind() == PieceType::King,
        m.flag() == MoveFlag::Normal,
    ensures
        legal_moves(p, quiets).contains(m),
{
    broadcast use group_bits;

    let g = masks_of(p, quiets);
    let us = p.turn;
    let them = us.opposite();
    let f = m.from();
    let t = m.to();
    let q = p.made(m);
    let occ_q = occupancy(q);
    let masked = occupancy(p) ^ pieces(p, PieceType::King, us);
    lemma_by_rule_sound(p, m);
    lemma_sound_move_keeps_valid(p, m);
    lemma_no_king_taken(p, m);
    lemma_occupied(p.board[f]);
    lemma_king_square(p, us);
    assert(holds(p, f, PieceType::King, us));
    assert(f == king_square(p, us));
    lemma_occupancy(p, t);
    lemma_piece(p, PieceType::King, them, t);
    lemma_reaches(PieceType::King, us, f, occupancy(p), t);
    assert(q.board[t] == p.board[f]);
    assert(holds(q, t, PieceType::King, us));
    lemma_king_square(q, us);
    lemma_check_is_attack(q, us, t);
    if bit(attack_mask(p), t) {
        lemma_attacked_by(p, them, masked, t);
        let s = choose|s: int| #[trigger] piece_attacks(p, them, s, masked, t);
        lemma_occupied(p.board[s]);
        lemma_reaches(p.board[s].kind(), them, s, masked, t);
        assert(s != t && s != f);
        assert(q.board[s] == p.board[s]);
        assert forall|u: int| 0 <= u < 64 && u != t implies bit(occ_q, u) == bit(masked, u) by {
            lemma_in_occupancy(p, u);
            lemma_in_occupancy(q, u);
            lemma_piece(p, PieceType::King, us, u);
        }
        lemma_same_sight(p.board[s].kind(), them, s, masked, occ_q, t);
        assert(piece_attacks(q, them, s, occ_q, t));
    }
    assert(bit(king_targets(g), t));
    lemma_moves_to_hold(f, king_targets(g), MoveFlag::Normal, t);
    lemma_moves_for_hold(g, m);
}

/// A bitboard is empty where no square of a path is occupied or attacked.
proof fn lemma_path_empty(x: u64, path: u64)
    requires
        forall|u: int| bit(path, u) ==> !bit(x, u),
    ensures
        x & path == 0,
{
    broadcast use group_bits;

    lemma_bits_equal(x & path, 0);
}

/// Safe castling by rule is generated.
#[verifier::rlimit(30)]
proof fn lemma_castling_listed(p: Position, quiets: bool, m: Move)
    requires
        playable(p),
        encoded(m),
        by_rule(p, m),
        safe(p, m),
        wanted(p, m, quiets),
        p.board[m.from()].kind() == PieceType::King,
        m.flag() == MoveFlag::Castle,
    ensures
        legal_moves(p, quiets).contains(m),
{
    broadcast use group_bits;

    let g = masks_of(p, quiets);
    let us = p.turn;
    let them = us.opposite();
    let h = home(us);
    let f = m.from();
    let t = m.to();
    let q = p.made(m);
    let occ = occupancy(p);
    let occ_q = occupancy(q);
    let corner = rook_origin(t);
    let landing = rook_landing(t);
    lemma_by_rule_sound(p, m);
    lemma_sound_move_keeps_valid(p, m);
    lemma_occupied(p.board[f]);
    lemma_king_square(p, us);
    lemma_in_check(p);
    assert(holds(p, f, PieceType::King, us));
    assert(f == king_square(p, us) && f == 4 + h);
    lemma_occupancy(p, t);
    lemma_occupancy(p, landing);
    lemma_occupancy(p, 1 + h);
    lemma_piece(p, PieceType::Rook, us, corner);
    assert(quiets);
    assert(q.board[t] == p.board[f]);
    assert(q.board[landing] == p.board[corner]);
    assert(q.board[f] == no_piece() && q.board[corner] == no_piece());
    assert(holds(q, t, PieceType::King, us));
    lemma_king_square(q, us);
    lemma_check_is_attack(q, us, t);
    if bit(attack_mask(p), landing) {
        lemma_masked_attack(p, landing);
    }
    if bit(attack_mask(p), t) {
        lemma_masked_attack(p, t);
        let s = choose|s: int| #[trigger] piece_attacks(p, them, s, occ, t);
        let kind = p.board[s].kind();
        lemma_occupied(p.board[s]);
        lemma_reaches(kind, them, s, occ, t);
        lemma_reaches(kind, them, s, occ_q, t);
        assert(s != f && s != corner && s != landing && s != t);
        assert(q.board[s] == p.board[s]);
        assert forall|u: int| inside(s, t, u) && !bit(occ, u) implies !bit(occ_q, u) by {
            lemma_occupancy(p, u);
            lemma_occupancy(q, u);
            if u == landing {
                lemma_beyond_neighbour(s, t, landing, f);
                lemma_occupancy(p, f);
            }
        }
        assert(piece_attacks(q, them, s, occ_q, t));
    }
    assert forall|j: int| 0 <= j < 64 implies bit(on_home_rank(KING_SIDE_PATH, us), j) == (j == 5
        + h || j == 6 + h) && bit(on_home_rank(QUEEN_SIDE_PATH, us), j) == (j == 1 + h || j == 2
        + h || j == 3 + h) && bit(on_home_rank(QUEEN_SIDE_WALK, us), j) == (j == 2 + h || j == 3
        + h) by {
        lemma_path_members(j as u64);
    }
    lemma_encode_fields(4 + h, 6 + h, MoveFlag::Castle);
    lemma_encode_fields(4 + h, 2 + h, MoveFlag::Castle);
    let king_side: Seq<Move> = if may_castle_king_side(g) {
        seq![Move::encode(4 + h, 6 + h, MoveFlag::Castle)]
    } else {
        Seq::empty()
    };
    let queen_side: Seq<Move> = if may_castle_queen_side(g) {
        seq![Move::encode(4 + h, 2 + h, MoveFlag::Castle)]
    } else {
        Seq::empty()
    };
    if t == 6 + h {
        lemma_path_empty(g.all, on_home_rank(KING_SIDE_PATH, us));
        lemma_path_empty(g.attacked, on_home_rank(KING_SIDE_PATH, us));
        assert(may_castle_king_side(g));
        assert(king_side[0] == m);
    } else {
        lemma_path_empty(g.all, on_home_rank(QUEEN_SIDE_PATH, us));
        lemma_path_empty(g.attacked, on_home_rank(QUEEN_SIDE_WALK, us));
        assert(may_castle_queen_side(g));
        assert(queen_side[0] == m);
    }
    lemma_joined_hold(king_side, queen_side, m);
    assert(castling_moves(g) == king_side + queen_side);
    lemma_moves_for_hold(g, m);
}

/// The position `q` is `p` after the pawn on `f` has captured en passant
/// on `t` the pawn on `victim`.
pub open spec fn captured_in_passing(p: Position, q: Position, f: int, t: int, victim: int) -> bool {
    &&& holds(p, f, PieceType::Pawn, p.turn)
    &&& holds(p, victim, PieceType::Pawn, p.turn.opposite())
    &&& free(p, t)
    &&& pawn_capture(p.turn, f, t)
    &&& victim == t - forward(p.turn)
    &&& q.board.len() == 64
    &&& q.board[f] == no_piece()
    &&& q.board[victim] == no_piece()
    &&& q.board[t] == p.board[f]
    &&& forall|u: int|
        0 <= u < 64 && u != f && u != t && u != victim ==> #[trigger] q.board[u] == p.board[u]
}

/// A piece of the other side, not the captured pawn, that reaches a
/// square once both pawns have left their squares attacks that square
/// after an en-passant capture.
proof fn lemma_attacks_after_capture(
    p: Position,
    q: Position,
    f: int,
    t: int,
    victim: int,
    s: int,
    king: int,
)
    requires
        p.board.len() == 64,
        captured_in_passing(p, q, f, t, victim),
        enemy_at(p, s),
        s != victim,
        reaches(p.board[s].kind(), p.turn.opposite(), s, occupancy(q), king),
    ensures
        attacked(q, p.turn.opposite(), occupancy(q), king),
{
    lemma_occupied(p.board[s]);
    assert(q.board[s] == p.board[s]);
    lemma_reaches(p.board[s].kind(), p.turn.opposite(), s, occupancy(q), king);
    assert(piece_attacks(q, p.turn.opposite(), s, occupancy(q), king));
}

/// A line that nothing but the two pawns blocks is free after an
/// en-passant capture, unless the capturing pawn lands on it.
proof fn lemma_clear_after_capture(
    p: Position,
    q: Position,
    f: int,
    t: int,
    victim: int,
    a: int,
    b: int,
)
    requires
        p.board.len() == 64,
        captured_in_passing(p, q, f, t, victim),
        forall|u: int| inside(a, b, u) && occupied(p, u) ==> u == f || u == victim,
        !inside(a, b, t),
    ensures
        clear(a, b, occupancy(q)),
{
    assert forall|u: int| inside(a, b, u) implies !bit(occupancy(q), u) by {
        lemma_occupancy(q, u);
        lemma_occupancy(p, u);
    }
}

/// The check of a piece stands after an en-passant capture that neither
/// takes the piece nor lands between it and the king.
proof fn lemma_capture_unanswered(
    p: Position,
    q: Position,
    f: int,
    t: int,
    victim: int,
    kind: PieceType,
    c: int,
)
    requires
        valid(p),
        captured_in_passing(p, q, f, t, victim),
        kind == PieceType::Pawn || kind == PieceType::Knight || kind == PieceType::Bishop || kind
            == PieceType::Rook,
        bit(checkers(p, kind, king_square(p, p.turn)), c),
        c != victim,
        !((kind == PieceType::Rook || kind == PieceType::Bishop) && inside(
            c,
            king_square(p, p.turn),
            t,
        )),
    ensures
        attacked(q, p.turn.opposite(), occupancy(q), king_square(p, p.turn)),
{
    let them = p.turn.opposite();
    let king = king_square(p, p.turn);
    lemma_king_square(p, p.turn);
    lemma_checkers(p, kind, king, c);
    lemma_occupied(p.board[c]);
    let piece = p.board[c].kind();
    if kind == PieceType::Rook || kind == PieceType::Bishop {
        lemma_line_sight(kind, them, c, occupancy(p), king);
        assert forall|u: int| inside(c, king, u) && occupied(p, u) implies u == f || u
            == victim by {
            lemma_occupancy(p, u);
        }
        lemma_clear_after_capture(p, q, f, t, victim, c, king);
    } else {
        lemma_reaches(kind, them, c, occupancy(p), king);
    }
    assert(reaches(piece, them, c, occupancy(q), king));
    lemma_attacks_after_capture(p, q, f, t, victim, c, king);
}

/// The square behind a pawn that attacks a square shares no line with
/// that square.
proof fn lemma_behind_pawn(them: PieceColor, victim: int, king: int, t: int, c: int)
    requires
        pawn_capture(them, victim, king),
        t == victim + forward(them.opposite()),
    ensures
        !inside(c, king, t),
{
    assert(victim == 8 * rank_of(victim) + file_of(victim) && king == 8 * rank_of(king) + file_of(
        king,
    ) && t == 8 * rank_of(t) + file_of(t) && c == 8 * rank_of(c) + file_of(c));
}

/// A safe en-passant capture is made outside a double check.
proof fn lemma_capture_in_one_check(p: Position, q: Position, f: int, t: int, victim: int)
    requires
        valid(p),
        captured_in_passing(p, q, f, t, victim),
        !attacked(q, p.turn.opposite(), occupancy(q), king_square(p, p.turn)),
    ensures
        check_count(p, king_square(p, p.turn)) < 2,
{
    let them = p.turn.opposite();
    let king = king_square(p, p.turn);
    lemma_king_square(p, p.turn);
    if check_count(p, king) >= 2 {
        let (k1, c1, k2, c2) = lemma_two_checkers(p);
        let slides1 = (k1 == PieceType::Rook || k1 == PieceType::Bishop) && inside(c1, king, t);
        let slides2 = (k2 == PieceType::Rook || k2 == PieceType::Bishop) && inside(c2, king, t);
        lemma_one_answer(p, k1, c1, k2, c2, t);
        lemma_checkers(p, k1, king, c1);
        lemma_checkers(p, k2, king, c2);
        lemma_occupied(p.board[victim]);
        if c1 != victim && !slides1 {
            lemma_capture_unanswered(p, q, f, t, victim, k1, c1);
        } else if c2 != victim && !slides2 {
            lemma_capture_unanswered(p, q, f, t, victim, k2, c2);
        } else if c1 == victim {
            lemma_reaches(k1, them, victim, occupancy(p), king);
            lemma_behind_pawn(them, victim, king, t, c2);
        } else if c2 == victim {
            lemma_reaches(k2, them, victim, occupancy(p), king);
            lemma_behind_pawn(them, victim, king, t, c1);
        }
    }
}

/// A pawn on a line of a pin by a rook or a queen has no safe en-passant
/// capture.
proof fn lemma_capture_off_the_line(p: Position, q: Position, f: int, t: int, victim: int)
    requires
        valid(p),
        captured_in_passing(p, q, f, t, victim),
        !attacked(q, p.turn.opposite(), occupancy(q), king_square(p, p.turn)),
    ensures
        !bit(pin_mask(p, PieceType::Rook), f),
{
    let lk = PieceType::Rook;
    let them = p.turn.opposite();
    let king = king_square(p, p.turn);
    lemma_king_square(p, p.turn);
    if bit(pin_mask(p, lk), f) {
        lemma_pin_mask(p, lk, f);
        let s = choose|s: int|
            #[trigger] bit(pinners(p, lk, king), s) && (f == s || inside(king, s, f));
        lemma_pinner_shape(p, lk, king, s);
        lemma_occupied(p.board[s]);
        lemma_occupied(p.board[f]);
        lemma_occupied(p.board[victim]);
        assert(f != s && inside(king, s, f));
        assert(own_at(p, f));
        assert(pins(p, king, s)) by {
            if shielded(p, king, s) {
                assert(!own_at(p, f));
            }
        }
        let g = choose|g: int| #[trigger] sole_blocker(p, king, s, g) && own_at(p, g);
        assert(g == f);
        assert(s != victim) by {
            assert(!(holds(p, s, PieceType::Pawn, them)));
        }
        assert forall|u: int| inside(s, king, u) && occupied(p, u) implies u == f || u
            == victim by {
            lemma_inside_flip(true, s, king, u);
        }
        assert(!inside(s, king, t)) by {
            lemma_inside_flip(true, king, s, f);
            assert(f == 8 * rank_of(f) + file_of(f) && t == 8 * rank_of(t) + file_of(t) && king == 8
                * rank_of(king) + file_of(king) && s == 8 * rank_of(s) + file_of(s));
        }
        lemma_clear_after_capture(p, q, f, t, victim, s, king);
        assert(reaches(p.board[s].kind(), them, s, occupancy(q), king));
        lemma_attacks_after_capture(p, q, f, t, victim, s, king);
    }
}

/// After a safe en-passant capture by a pawn on the rank of its king no
/// rook or queen attacks the king along the rank or a file once both
/// pawns are taken off.
proof fn lemma_rank_stays_closed(p: Position, q: Position, f: int, t: int, victim: int)
    requires
        valid(p),
        captured_in_passing(p, q, f, t, victim),
        rank_of(f) == rank_of(king_square(p, p.turn)),
        !attacked(q, p.turn.opposite(), occupancy(q), king_square(p, p.turn)),
    ensures
        rook_attacks(king_square(p, p.turn), occupancy(p) ^ (single(victim) | single(f)))
            & orthogonal_sliders(p, p.turn.opposite()) == 0,
{
    broadcast use group_bits;

    let them = p.turn.opposite();
    let king = king_square(p, p.turn);
    let opened = occupancy(p) ^ (single(victim) | single(f));
    let found = rook_attacks(king, opened) & orthogonal_sliders(p, them);
    lemma_king_square(p, p.turn);
    if found != 0 {
        let s = lemma_nonzero_member(found);
        lemma_sight(king, opened, s);
        lemma_sliders(p, PieceType::Rook, s);
        lemma_occupied(p.board[s]);
        lemma_occupied(p.board[victim]);
        lemma_occupancy(p, f);
        lemma_occupancy(p, victim);
        assert(s != victim);
        assert forall|u: int| inside(s, king, u) && occupied(p, u) implies u == f || u
            == victim by {
            lemma_inside_flip(true, s, king, u);
            lemma_occupancy(p, u);
            assert(!bit(opened, u));
        }
        assert(!inside(s, king, t)) by {
            assert(f == 8 * rank_of(f) + file_of(f) && t == 8 * rank_of(t) + file_of(t) && king == 8
                * rank_of(king) + file_of(king) && s == 8 * rank_of(s) + file_of(s) && victim == 8
                * rank_of(victim) + file_of(victim));
        }
        lemma_clear_after_capture(p, q, f, t, victim, s, king);
        assert(reaches(p.board[s].kind(), them, s, occupancy(q), king));
        lemma_attacks_after_capture(p, q, f, t, victim, s, king);
    }
}

/// An en-passant capture that is never generated, though it may be safe:
/// the capturing pawn stands on a line of a pin by a bishop or a queen;
/// or the pawn to capture stands on such a line, though other pieces may
/// shield the king as well; or the king is in check, does not share its
/// rank with the capturing pawn, and the pawn to capture is not in the
/// check mask, though the capturing pawn may land between the king and
/// the piece that gives check.
pub open spec fn passed_over(p: Position, m: Move) -> bool {
    let king = king_square(p, p.turn);
    let victim = m.to() - forward(p.turn);
    &&& m.flag() == MoveFlag::EnPassant
    &&& bit(pin_mask(p, PieceType::Bishop), m.from()) || bit(pin_mask(p, PieceType::Bishop), victim)
        || (rank_of(m.from()) != rank_of(king) && square_in_check(p, p.turn, king) && !bit(
        check_mask(p),
        victim,
    ))
}

/// A safe en-passant capture by rule is generated unless it is passed over.
proof fn lemma_en_passant_listed(p: Position, quiets: bool, m: Move)
    requires
        playable(p),
        encoded(m),
        by_rule(p, m),
        safe(p, m),
        m.flag() == MoveFlag::EnPassant,
        !passed_over(p, m),
    ensures
        legal_moves(p, quiets).contains(m),
{
    broadcast use group_bits;

    let g = masks_of(p, quiets);
    let us = p.turn;
    let them = us.opposite();
    let king = king_square(p, us);
    let f = m.from();
    let t = m.to();
    let victim = t - forward(us);
    let q = p.made(m);
    lemma_by_rule_sound(p, m);
    lemma_sound_move_keeps_valid(p, m);
    lemma_occupied(p.board[f]);
    lemma_occupied(p.board[victim]);
    lemma_king_square(p, us);
    lemma_in_check(p);
    lemma_check_is_attack(p, us, king);
    assert(victim == victim_square(p.board[f], t));
    assert(captured_in_passing(p, q, f, t, victim));
    assert(q.board[king] == p.board[king]);
    assert(holds(q, king, PieceType::King, us));
    lemma_king_square(q, us);
    lemma_check_is_attack(q, us, king);
    lemma_capture_in_one_check(p, q, f, t, victim);
    lemma_capture_off_the_line(p, q, f, t, victim);
    if rank_of(f) == rank_of(king) {
        lemma_rank_stays_closed(p, q, f, t, victim);
    }
    lemma_piece(p, PieceType::Pawn, us, f);
    lemma_piece(p, PieceType::Pawn, them, victim);
    lemma_occupancy(p, t);
    lemma_reaches(PieceType::Pawn, us, f, occupancy(p), t);
    assert(en_passant_allowed(g, f));
    let double = pawn_double_step(g, f);
    let plain = if rank_of(f) == last_but_one(us) {
        promotions_to(f, pawn_targets(g, f), g.quiets)
    } else {
        moves_to(f, pawn_targets(g, f), MoveFlag::Normal)
    };
    let capture = pawn_en_passant(g, f);
    assert(capture[0] == m);
    assert(capture.contains(m));
    lemma_joined_hold(double + plain, capture, m);
    assert(pawn_moves(g, f) == double + plain + capture);
    lemma_gathered_hold(g, Mover::Pawn, f, m);
    lemma_moves_for_hold(g, m);
}

/// Every move that obeys the rules of movement, leaves the king of its
/// side safe and is wanted is generated; except that some en-passant
/// captures are passed over.
pub proof fn lemma_legal_moves_complete(p: Position, quiets: bool, m: Move)
    requires
        playable(p),
        encoded(m),
        by_rule(p, m),
        safe(p, m),
        wanted(p, m, quiets),
        !passed_over(p, m),
    ensures
        legal_moves(p, quiets).contains(m),
{
    let kind = p.board[m.from()].kind();
    lemma_occupied(p.board[m.from()]);
    if m.flag() == MoveFlag::EnPassant {
        lemma_en_passant_listed(p, quiets, m);
    } else if kind == PieceType::Pawn {
        lemma_pawn_listed(p, quiets, m);
    } else if kind == PieceType::Knight {
        lemma_knight_listed(p, quiets, m);
    } else if kind == PieceType::King {
        if m.flag() == MoveFlag::Castle {
            lemma_castling_listed(p, quiets, m);
        } else {
            lemma_king_listed(p, quiets, m);
        }
    } else {
        lemma_slider_listed(p, quiets, m);
    }
}

/// An en-passant capture that is passed over is not generated.
pub proof fn lemma_passed_over_not_listed(p: Position, quiets: bool, m: Move)
    requires
        valid(p),
        passed_over(p, m),
    ensures
        !legal_moves(p, quiets).contains(m),
{
    broadcast use group_bits;

    let g = masks_of(p, quiets);
    let moves = legal_moves(p, quiets);
    let king = king_square(p, p.turn);
    if moves.contains(m) {
        let i = choose|i: int| 0 <= i < moves.len() && moves[i] == m;
        lemma_en_passant_described(p, quiets, i);
        let capture = pawn_en_passant(g, m.from());
        assert(capture.len() == 1 && capture[0] == m);
        assert(en_passant_allowed(g, m.from()));
        lemma_encode_fields(m.from(), g.en_passant as int, MoveFlag::EnPassant);
        lemma_king_square(p, p.turn);
        lemma_check_is_attack(p, p.turn, king);
        lemma_in_check(p);
    }
}

} // verus!
