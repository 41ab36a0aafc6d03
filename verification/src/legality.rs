//! The king after a move of another piece: no move of the generator
//! uncovers the king or leaves a check standing.

use vstd::prelude::*;
use crate::bitboard::pawn_capture;
use crate::bits::{bit, group_bits, lemma_bitboard_of, lemma_member_nonzero, single};
use crate::board_helper::{file_of, rank_of};
use crate::checks::{
    lemma_attacker_checks, lemma_check_line, lemma_checkers, lemma_in_check, lemma_king_square,
    lemma_single_check, playable,
};
use crate::chess_move::{lemma_encode_fields, Move, MoveFlag};
use crate::geometry::{
    bishop_line, clear, inside, lemma_adjacent_clear, lemma_corner_outside,
    lemma_diagonals_skip_file, lemma_inside_chain, lemma_inside_flip, lemma_next_on_file,
    lemma_next_on_line, lemma_same_rank_between, lemma_sight, lemma_slide_on_ray, on_line,
    rook_line,
};
use crate::piece::{lemma_occupied, Piece, PieceType};
use crate::pins::{
    enemy_at, lemma_line_sight, lemma_occupancy, lemma_piece, lemma_pin_mask, lemma_pinner_shape,
    lemma_shield_pin, lemma_sliders, lemma_true_pin, line, occupied, own_at, pins, shielded,
    slider_at, sole_blocker,
};
use crate::position::{no_piece, promoted_kind, rook_landing, rook_origin, victim_square, Position};
use crate::rules::{
    attack_set, castling_moves, check_count, check_mask, en_passant_allowed, en_passant_victim,
    forward, gathered, home, king_moves, king_square, king_targets, legal_moves, masks_of,
    may_castle_king_side, may_castle_queen_side, occupancy, on_home_rank, orthogonal_sliders,
    pawn_capture_targets, pawn_double_step, pawn_en_passant, pawn_may_step, pawn_targets, pieces,
    pin_mask, pinned, pinners, square_in_check, squares_of, Mover, KING_SIDE_PATH, QUEEN_SIDE_WALK,
};
use crate::safety::{
    attacked, lemma_attacked_by, lemma_check_is_attack, lemma_king_moves_safe, lemma_queen,
    piece_attacks,
};
use crate::sliders::rook_attacks;
use crate::uniqueness::{
    described, lemma_gathered, lemma_moves_over, lemma_squares_rising, pawn_described,
};
use crate::validity::{
    free, holds, lemma_legal_moves_sound, lemma_path_members, lemma_sound_move_keeps_valid, sound,
    valid,
};

verus! {

/// The position `q` is `p` with the piece of the side to move on `f`
/// carried to `t`.
pub open spec fn carried(p: Position, q: Position, f: int, t: int) -> bool {
    &&& own_at(p, f) && 0 <= t < 64 && f != t
    &&& q.board.len() == 64
    &&& forall|u: int| 0 <= u < 64 && u != f && u != t ==> #[trigger] q.board[u] == p.board[u]
    &&& q.board[f] == no_piece()
    &&& q.board[t].occupied() && q.board[t].color() == p.turn
}

/// What a piece that attacks the king after a move was before the move: a
/// piece of the other side on the same square; and if it is a slider, its
/// line to the king is free after the move, so that before the move nothing
/// but the piece that moved stood on it, and the move does not end on it.
proof fn lemma_threat(p: Position, q: Position, f: int, t: int, king: int, s: int) -> (lk: PieceType)
    requires
        p.board.len() == 64,
        carried(p, q, f, t),
        0 <= king < 64,
        king != f,
        king != t,
        piece_attacks(q, p.turn.opposite(), s, occupancy(q), king),
    ensures
        enemy_at(p, s),
        s != f,
        s != t,
        q.board[s] == p.board[s],
        lk == PieceType::Empty ==> piece_attacks(p, p.turn.opposite(), s, occupancy(p), king)
            && !(p.board[s].kind() == PieceType::Bishop || p.board[s].kind() == PieceType::Rook
            || p.board[s].kind() == PieceType::Queen),
        lk != PieceType::Empty ==> (lk == PieceType::Rook || lk == PieceType::Bishop) && slider_at(
            p,
            lk,
            s,
        ) && line(lk, s, king) && !inside(s, king, t) && (clear(s, king, occupancy(p))
            || sole_blocker(p, s, king, f)),
{
    let them = p.turn.opposite();
    let occ_q = occupancy(q);
    let occ_p = occupancy(p);
    let piece = q.board[s];
    lemma_occupied(piece);
    assert(s != f && s != t);
    assert(q.board[s] == p.board[s]);
    let kind = piece.kind();
    lemma_queen(s, occ_q, king);
    if kind == PieceType::Bishop || kind == PieceType::Rook || kind == PieceType::Queen {
        let lk = if kind == PieceType::Queen {
            if bit(attack_set(PieceType::Rook, them, s, occ_q), king) {
                PieceType::Rook
            } else {
                PieceType::Bishop
            }
        } else {
            kind
        };
        lemma_line_sight(lk, them, s, occ_q, king);
        assert(line(lk, s, king) && clear(s, king, occ_q));
        lemma_occupancy(q, t);
        assert(!inside(s, king, t));
        if !clear(s, king, occ_p) {
            let b = choose|u: int| inside(s, king, u) && bit(occ_p, u);
            lemma_occupancy(p, b);
            lemma_occupancy(q, b);
            assert(b == f);
            assert forall|u: int| inside(s, king, u) && occupied(p, u) implies u == f by {
                lemma_occupancy(p, u);
                lemma_occupancy(q, u);
            }
        }
        lk
    } else {
        assert(piece_attacks(p, them, s, occ_p, king));
        PieceType::Empty
    }
}

/// A move to a square of the check mask ends the one check there is: the
/// piece that gives it is taken, or its line to the king is blocked.
proof fn lemma_check_answered(p: Position, s: int, t: int)
    requires
        playable(p),
        check_count(p, king_square(p, p.turn)) <= 1,
        piece_attacks(p, p.turn.opposite(), s, occupancy(p), king_square(p, p.turn)),
        bit(check_mask(p), t),
    ensures
        t == s || ((p.board[s].kind() == PieceType::Bishop || p.board[s].kind() == PieceType::Rook
            || p.board[s].kind() == PieceType::Queen) && inside(s, king_square(p, p.turn), t)),
{
    let kind = lemma_attacker_checks(p, s);
    lemma_single_check(p, kind, s, t);
    crate::checks::lemma_checkers(p, kind, king_square(p, p.turn), s);
}

/// A piece that is all that stands between its king and a slider stays on
/// the line if it moves along the pin mask of that line.
proof fn lemma_pinned_stays(p: Position, lk: PieceType, s: int, f: int, t: int)
    requires
        valid(p),
        lk == PieceType::Rook || lk == PieceType::Bishop,
        slider_at(p, lk, s),
        line(lk, s, king_square(p, p.turn)),
        sole_blocker(p, s, king_square(p, p.turn), f),
        own_at(p, f),
        0 <= t < 64,
        bit(pin_mask(p, lk), f) ==> bit(pin_mask(p, lk), t) && line(lk, f, t) && clear(
            f,
            t,
            occupancy(p),
        ),
    ensures
        t == s || inside(s, king_square(p, p.turn), t),
{
    let us = p.turn;
    let king = king_square(p, us);
    let rook = lk == PieceType::Rook;
    lemma_king_square(p, us);
    lemma_inside_flip(rook, s, king, f);
    assert(sole_blocker(p, king, s, f)) by {
        assert forall|u: int| inside(king, s, u) && occupied(p, u) implies u == f by {
            lemma_inside_flip(rook, king, s, u);
        }
    }
    assert(pins(p, king, s));
    assert(line(lk, king, s));
    lemma_true_pin(p, lk, king, s);
    lemma_pin_mask(p, lk, f);
    assert(bit(pinners(p, lk, king), s) && (f == s || inside(king, s, f)));
    assert(bit(pin_mask(p, lk), f));
    lemma_pin_mask(p, lk, t);
    let other = choose|other: int|
        #[trigger] bit(pinners(p, lk, king), other) && (t == other || inside(king, other, t));
    lemma_pinner_shape(p, lk, king, other);
    if t != other {
        lemma_inside_flip(rook, king, other, t);
    }
    assert(on_line(rook, king, t));
    lemma_occupancy(p, king);
    assert(!inside(f, t, king));
    lemma_slide_on_ray(rook, king, s, f, t);
    if inside(king, s, t) {
        lemma_inside_flip(rook, king, s, t);
    } else if t != s {
        assert(inside(king, t, s) && inside(king, t, f));
        if t != other {
            lemma_inside_chain(king, other, t, s);
            lemma_inside_chain(king, other, t, f);
        }
        assert(inside(king, other, s) && inside(king, other, f));
        lemma_occupied(p.board[s]);
        assert(occupied(p, s) && occupied(p, f) && s != f);
        if pins(p, king, other) {
            let g = choose|g: int| #[trigger] sole_blocker(p, king, other, g) && own_at(p, g);
            assert(g == s && g == f);
        } else {
            assert(shielded(p, king, other));
            assert(!own_at(p, f));
        }
    }
}

/// The king is not attacked after a move of another piece that goes to a
/// square of the check mask and, if the piece stands on the line of a pin,
/// along that line within the pin mask. For a double step of a pawn, `way`
/// is the square that it passes and of which the pin mask was asked; for
/// every other move it is the destination.
proof fn lemma_carried_safe(p: Position, q: Position, f: int, way: int, t: int)
    requires
        playable(p),
        carried(p, q, f, t),
        f != king_square(p, p.turn),
        t != king_square(p, p.turn),
        attacked(p, p.turn.opposite(), occupancy(p), king_square(p, p.turn)) ==> check_count(
            p,
            king_square(p, p.turn),
        ) <= 1 && bit(check_mask(p), t),
        way == t || (((way == f + 8 && t == f + 16) || (way == f - 8 && t == f - 16)) && 0 <= way
            < 64 && !occupied(p, way) && !occupied(p, t)),
        forall|lk: PieceType|
            (lk == PieceType::Rook || lk == PieceType::Bishop) && #[trigger] bit(
                pin_mask(p, lk),
                f,
            ) ==> bit(pin_mask(p, lk), way) && line(lk, f, way) && clear(f, way, occupancy(p)),
    ensures
        !attacked(q, p.turn.opposite(), occupancy(q), king_square(p, p.turn)),
{
    let us = p.turn;
    let them = us.opposite();
    let king = king_square(p, us);
    lemma_king_square(p, us);
    if attacked(q, them, occupancy(q), king) {
        let s = choose|s: int| #[trigger] piece_attacks(q, them, s, occupancy(q), king);
        let lk = lemma_threat(p, q, f, t, king, s);
        lemma_occupancy(q, t);
        lemma_occupancy(q, s);
        if lk == PieceType::Empty {
            lemma_check_answered(p, s, t);
        } else if clear(s, king, occupancy(p)) {
            lemma_line_sight(lk, them, s, occupancy(p), king);
            lemma_queen(s, occupancy(p), king);
            lemma_occupied(p.board[s]);
            assert(piece_attacks(p, them, s, occupancy(p), king));
            lemma_check_answered(p, s, t);
        } else {
            assert(sole_blocker(p, s, king, f));
            if bit(pin_mask(p, lk), f) {
                assert(bit(pin_mask(p, lk), way) && line(lk, f, way) && clear(
                    f,
                    way,
                    occupancy(p),
                ));
            }
            lemma_pinned_stays(p, lk, s, f, way);
            if way != t {
                lemma_occupied(p.board[s]);
                assert(inside(s, king, way));
                lemma_next_on_file(s, king, f, way, t);
            }
        }
    }
}

/// The board after a move that is neither castling nor an en-passant
/// capture is the board with the piece carried to its destination.
pub proof fn lemma_made_carried(p: Position, m: Move)
    requires
        p.wf(),
        own_at(p, m.from()),
        0 <= m.to() < 64,
        !own_at(p, m.to()),
        m.flag() != MoveFlag::Castle,
        m.flag() != MoveFlag::EnPassant,
    ensures
        carried(p, p.made(m), m.from(), m.to()),
{
    let piece = p.board[m.from()];
    lemma_occupied(piece);
    let placed = p.placed(m);
    if m.flag().is_promotion() {
        lemma_promoted(piece, m.flag());
    }
    assert(placed.occupied() && placed.color() == p.turn);
}

/// A promoted piece is a piece of the same colour.
pub proof fn lemma_promoted(piece: Piece, flag: MoveFlag)
    requires
        piece.occupied(),
        flag.is_promotion(),
    ensures
        piece.with_kind(promoted_kind(flag)).occupied(),
        piece.with_kind(promoted_kind(flag)).color() == piece.color(),
{
}

/// What is asked of a move along a pin holds of a move of a piece that no
/// square of a pin mask holds.
pub open spec fn along_pins(p: Position, f: int, way: int) -> bool {
    forall|lk: PieceType|
        (lk == PieceType::Rook || lk == PieceType::Bishop) && #[trigger] bit(pin_mask(p, lk), f)
            ==> bit(pin_mask(p, lk), way) && line(lk, f, way) && clear(f, way, occupancy(p))
}

/// The king is not attacked after a move of a knight, a bishop, a rook or
/// a queen that is generated while the king is not in check twice.
proof fn lemma_piece_move_safe(p: Position, quiets: bool, mover: Mover, m: Move)
    requires
        playable(p),
        !masks_of(p, quiets).double_check,
        mover != Mover::Pawn,
        described(masks_of(p, quiets), mover, m),
    ensures
        p.made(m).board[king_square(p, p.turn)] == p.board[king_square(p, p.turn)],
        !attacked(
            p.made(m),
            p.turn.opposite(),
            occupancy(p.made(m)),
            king_square(p, p.turn),
        ),
{
    broadcast use group_bits;

    let g = masks_of(p, quiets);
    let us = p.turn;
    let them = us.opposite();
    let king = king_square(p, us);
    let f = m.from();
    let t = m.to();
    let occ = occupancy(p);
    lemma_king_square(p, us);
    lemma_in_check(p);
    lemma_piece(p, PieceType::Knight, us, f);
    lemma_piece(p, PieceType::Bishop, us, f);
    lemma_piece(p, PieceType::Rook, us, f);
    lemma_piece(p, PieceType::Queen, us, f);
    lemma_occupancy(p, t);
    lemma_occupancy(p, king);
    lemma_sight(f, occ, t);
    assert(own_at(p, f) && f != king);
    assert(bit(g.open, t) && bit(g.check, t));
    assert(!own_at(p, t));
    lemma_made_carried(p, m);
    assert(along_pins(p, f, t)) by {
        assert(line(PieceType::Rook, f, t) == rook_line(f, t));
        assert(line(PieceType::Bishop, f, t) == bishop_line(f, t));
    }
    lemma_carried_safe(p, p.made(m), f, t, t);
}

/// Every square of a pin mask shares a line of the mask's kind with the king.
proof fn lemma_on_pin_line(p: Position, lk: PieceType, u: int)
    requires
        valid(p),
        lk == PieceType::Rook || lk == PieceType::Bishop,
        bit(pin_mask(p, lk), u),
    ensures
        line(lk, king_square(p, p.turn), u),
{
    let king = king_square(p, p.turn);
    lemma_king_square(p, p.turn);
    lemma_pin_mask(p, lk, u);
    let s = choose|s: int| #[trigger] bit(pinners(p, lk, king), s) && (u == s || inside(king, s, u));
    lemma_pinner_shape(p, lk, king, s);
    if u != s {
        lemma_inside_flip(lk == PieceType::Rook, king, s, u);
    }
}

/// A pawn that a diagonal pin mask holds has no step forward within the mask.
proof fn lemma_no_step_on_diagonal(p: Position, f: int, way: int)
    requires
        valid(p),
        way == f + 8 || way == f - 8,
        bit(pin_mask(p, PieceType::Bishop), f),
    ensures
        !bit(pin_mask(p, PieceType::Bishop), way),
{
    if bit(pin_mask(p, PieceType::Bishop), way) {
        lemma_on_pin_line(p, PieceType::Bishop, f);
        lemma_on_pin_line(p, PieceType::Bishop, way);
        lemma_diagonals_skip_file(king_square(p, p.turn), f, way);
    }
}

/// The king is not attacked after a move of a pawn, the en-passant capture
/// apart, that is generated while the king is not in check twice.
proof fn lemma_pawn_move_safe(p: Position, quiets: bool, m: Move)
    requires
        playable(p),
        !masks_of(p, quiets).double_check,
        described(masks_of(p, quiets), Mover::Pawn, m),
        m.flag() != MoveFlag::EnPassant,
    ensures
        p.made(m).board[king_square(p, p.turn)] == p.board[king_square(p, p.turn)],
        !attacked(
            p.made(m),
            p.turn.opposite(),
            occupancy(p.made(m)),
            king_square(p, p.turn),
        ),
{
    broadcast use group_bits;

    let g = masks_of(p, quiets);
    let us = p.turn;
    let king = king_square(p, us);
    let f = m.from();
    let t = m.to();
    let occ = occupancy(p);
    let step = f + forward(us);
    lemma_king_square(p, us);
    lemma_in_check(p);
    lemma_piece(p, PieceType::Pawn, us, f);
    lemma_occupancy(p, t);
    lemma_occupancy(p, step);
    lemma_occupancy(p, king);
    assert(own_at(p, f) && f != king);
    assert(pawn_described(g, m));
    assert(line(PieceType::Rook, f, step) == rook_line(f, step));
    assert(line(PieceType::Bishop, f, t) == bishop_line(f, t));
    if bit(pin_mask(p, PieceType::Bishop), f) {
        lemma_no_step_on_diagonal(p, f, step);
    }
    if m.flag() == MoveFlag::PawnTwoUp {
        let double = pawn_double_step(g, f);
        assert(double.len() == 1 && double[0] == m);
        lemma_encode_fields(f, f + 2 * forward(us), MoveFlag::PawnTwoUp);
        assert(t == f + 2 * forward(us));
        assert(pawn_may_step(g, f));
        lemma_made_carried(p, m);
        lemma_adjacent_clear(f, step, occ);
        assert(along_pins(p, f, step));
        lemma_carried_safe(p, p.made(m), f, step, t);
    } else {
        assert(bit(pawn_targets(g, f), t));
        if bit(pawn_capture_targets(g, f), t) {
            lemma_bitboard_of(|u: int| pawn_capture(us, f, u), t);
            assert(pawn_capture(us, f, t));
            lemma_adjacent_clear(f, t, occ);
            assert(bishop_line(f, t));
        } else {
            assert(pawn_may_step(g, f) && t == step);
            lemma_adjacent_clear(f, t, occ);
        }
        assert(!own_at(p, t));
        lemma_made_carried(p, m);
        assert(along_pins(p, f, t));
        lemma_carried_safe(p, p.made(m), f, t, t);
    }
}

/// The king is not attacked where castling takes it.
proof fn lemma_castling_safe(p: Position, quiets: bool, m: Move)
    requires
        playable(p),
        sound(p, m),
        m.flag() == MoveFlag::Castle,
        (may_castle_king_side(masks_of(p, quiets)) && m.to() == 6 + home(p.turn)) || (
        may_castle_queen_side(masks_of(p, quiets)) && m.to() == 2 + home(p.turn)),
    ensures
        holds(p.made(m), m.to(), PieceType::King, p.turn),
        !attacked(p.made(m), p.turn.opposite(), occupancy(p.made(m)), m.to()),
{
    broadcast use group_bits;

    let g = masks_of(p, quiets);
    let us = p.turn;
    let them = us.opposite();
    let h = home(us);
    let from = m.from();
    let to = m.to();
    let q = p.made(m);
    let king_side = to == 6 + h;
    let corner = rook_origin(to);
    let landing = rook_landing(to);
    let kings = pieces(p, PieceType::King, us);
    let occ_q = occupancy(q);
    let occ_m = occupancy(p) ^ kings;
    lemma_path_members(to as u64);
    lemma_king_square(p, us);
    lemma_occupied(p.board[from]);
    assert(from == 4 + h && g.king == from);
    assert(holds(p, corner, PieceType::Rook, us));
    assert(free(p, to) && free(p, landing));
    assert(q.board[to] == p.board[from]);
    assert(q.board[landing] == p.board[corner]);
    assert(q.board[from] == no_piece() && q.board[corner] == no_piece());
    assert(!bit(g.attacked, to)) by {
        if king_side {
            let path = on_home_rank(KING_SIDE_PATH, us);
            assert(bit(path, to));
            assert(!bit(g.attacked & path, to));
        } else {
            let path = on_home_rank(QUEEN_SIDE_WALK, us);
            assert(bit(path, to));
            assert(!bit(g.attacked & path, to));
        }
    }
    if attacked(q, them, occ_q, to) {
        let s = choose|s: int| #[trigger] piece_attacks(q, them, s, occ_q, to);
        assert(s != to && s != from && s != corner && s != landing);
        assert(q.board[s] == p.board[s]);
        let kind = p.board[s].kind();
        lemma_occupied(p.board[s]);
        lemma_queen(s, occ_q, to);
        lemma_queen(s, occ_m, to);
        if kind == PieceType::Bishop || kind == PieceType::Rook || kind == PieceType::Queen {
            let lk = if kind == PieceType::Queen {
                if bit(attack_set(PieceType::Rook, them, s, occ_q), to) {
                    PieceType::Rook
                } else {
                    PieceType::Bishop
                }
            } else {
                kind
            };
            lemma_line_sight(lk, them, s, occ_q, to);
            assert forall|u: int| inside(s, to, u) implies !bit(occ_m, u) by {
                lemma_occupancy(q, u);
                lemma_occupancy(p, u);
                lemma_piece(p, PieceType::King, us, u);
                lemma_corner_outside(s, to, corner);
            }
            lemma_line_sight(lk, them, s, occ_m, to);
        }
        assert(piece_attacks(p, them, s, occ_m, to));
        lemma_attacked_by(p, them, occ_m, to);
    }
}

/// A rook or queen of the other side attacks the king along a line once
/// the only two pieces between them are gone.
proof fn lemma_line_opened(p: Position, s: int, f: int, victim: int)
    requires
        valid(p),
        slider_at(p, PieceType::Rook, s),
        rook_line(s, king_square(p, p.turn)),
        occupied(p, f),
        occupied(p, victim),
        f != victim,
        forall|u: int|
            inside(s, king_square(p, p.turn), u) && occupied(p, u) ==> u == f || u == victim,
    ensures
        rook_attacks(king_square(p, p.turn), occupancy(p) ^ (single(victim) | single(f)))
            & orthogonal_sliders(p, p.turn.opposite()) != 0,
{
    broadcast use group_bits;

    let king = king_square(p, p.turn);
    let occ = occupancy(p);
    let opened = occ ^ (single(victim) | single(f));
    lemma_king_square(p, p.turn);
    lemma_occupancy(p, f);
    lemma_occupancy(p, victim);
    assert forall|u: int| inside(king, s, u) implies !bit(opened, u) by {
        lemma_inside_flip(true, king, s, u);
        lemma_occupancy(p, u);
    }
    lemma_sight(king, opened, s);
    lemma_sliders(p, PieceType::Rook, s);
    assert(bit(rook_attacks(king, opened) & orthogonal_sliders(p, p.turn.opposite()), s));
    lemma_member_nonzero(
        rook_attacks(king, opened) & orthogonal_sliders(p, p.turn.opposite()),
        s,
    );
}

/// The king is not attacked after an en-passant capture that is generated
/// while the king is not in check twice; unless the king is in check,
/// shares its rank with the capturing pawn, and the capture does not go to
/// a square of the check mask.
proof fn lemma_en_passant_safe(p: Position, quiets: bool, m: Move)
    requires
        playable(p),
        !masks_of(p, quiets).double_check,
        described(masks_of(p, quiets), Mover::Pawn, m),
        m.flag() == MoveFlag::EnPassant,
        !(masks_of(p, quiets).in_check && rank_of(m.from()) == rank_of(king_square(p, p.turn))
            && !bit(check_mask(p), m.to())),
    ensures
        p.made(m).board[king_square(p, p.turn)] == p.board[king_square(p, p.turn)],
        !attacked(
            p.made(m),
            p.turn.opposite(),
            occupancy(p.made(m)),
            king_square(p, p.turn),
        ),
{
    broadcast use group_bits;

    let g = masks_of(p, quiets);
    let us = p.turn;
    let them = us.opposite();
    let king = king_square(p, us);
    let f = m.from();
    let t = m.to();
    let q = p.made(m);
    let occ = occupancy(p);
    let occ_q = occupancy(q);
    let victim = t - forward(us);
    lemma_king_square(p, us);
    lemma_in_check(p);
    assert(pawn_described(g, m));
    let capture = pawn_en_passant(g, f);
    assert(capture.len() == 1 && capture[0] == m);
    assert(en_passant_allowed(g, f));
    lemma_encode_fields(f, g.en_passant as int, MoveFlag::EnPassant);
    assert(t == p.en_passant && victim == en_passant_victim(g));
    lemma_piece(p, PieceType::Pawn, us, f);
    lemma_piece(p, PieceType::Pawn, them, victim);
    lemma_occupancy(p, t);
    lemma_occupancy(p, f);
    lemma_occupancy(p, victim);
    lemma_occupancy(p, king);
    lemma_bitboard_of(|u: int| pawn_capture(us, f, u), t);
    assert(pawn_capture(us, f, t));
    lemma_occupied(p.board[f]);
    assert(victim == victim_square(p.board[f], t));
    assert(q.board[f] == no_piece() && q.board[victim] == no_piece() && q.board[t] == p.board[f]);
    assert(rank_of(victim) == rank_of(f) && f != victim) by {
        assert(f == 8 * rank_of(f) + file_of(f) && t == 8 * rank_of(t) + file_of(t) && victim == 8
            * rank_of(victim) + file_of(victim));
    }
    if attacked(q, them, occ_q, king) {
        let s = choose|s: int| #[trigger] piece_attacks(q, them, s, occ_q, king);
        lemma_occupied(q.board[s]);
        assert(s != f && s != t && s != victim);
        assert(q.board[s] == p.board[s]);
        lemma_occupancy(p, s);
        let kind = p.board[s].kind();
        lemma_queen(s, occ_q, king);
        lemma_queen(s, occ, king);
        let slider = kind == PieceType::Bishop || kind == PieceType::Rook || kind
            == PieceType::Queen;
        let lk = if kind == PieceType::Queen {
            if bit(attack_set(PieceType::Rook, them, s, occ_q), king) {
                PieceType::Rook
            } else {
                PieceType::Bishop
            }
        } else {
            kind
        };
        if slider {
            lemma_line_sight(lk, them, s, occ_q, king);
            lemma_line_sight(lk, them, s, occ, king);
            lemma_occupancy(q, t);
            assert(!inside(s, king, t));
            assert forall|u: int| inside(s, king, u) && occupied(p, u) implies u == f || u
                == victim by {
                lemma_occupancy(q, u);
            }
        }
        if !slider || clear(s, king, occ) {
            assert(piece_attacks(p, them, s, occ, king));
            assert(g.in_check);
            if rank_of(f) == rank_of(king) {
                lemma_check_answered(p, s, t);
            } else {
                lemma_check_answered(p, s, victim);
            }
        } else {
            let rook = lk == PieceType::Rook;
            let through_pawn = inside(s, king, f);
            let through_victim = inside(s, king, victim);
            assert(through_pawn || through_victim) by {
                let u = choose|u: int| inside(s, king, u) && bit(occ, u);
                lemma_occupancy(p, u);
            }
            if through_pawn && !through_victim {
                lemma_inside_flip(rook, s, king, f);
                assert(sole_blocker(p, king, s, f)) by {
                    assert forall|u: int| inside(king, s, u) && occupied(p, u) implies u == f by {
                        lemma_inside_flip(rook, king, s, u);
                    }
                }
                assert(pins(p, king, s));
                lemma_true_pin(p, lk, king, s);
                lemma_pin_mask(p, lk, f);
                assert(pinned(g, f));
            } else if through_pawn {
                lemma_same_rank_between(s, king, f, victim);
                lemma_line_opened(p, s, f, victim);
            } else if rank_of(king) == rank_of(f) {
                assert(rook) by {
                    assert(king == 8 * rank_of(king) + file_of(king) && s == 8 * rank_of(s)
                        + file_of(s) && victim == 8 * rank_of(victim) + file_of(victim));
                }
                lemma_line_opened(p, s, f, victim);
            } else {
                lemma_inside_flip(rook, s, king, victim);
                assert(shielded(p, king, s)) by {
                    assert forall|u: int| inside(king, s, u) implies !own_at(p, u) by {
                        lemma_inside_flip(rook, king, s, u);
                    }
                    assert(enemy_at(p, victim));
                }
                lemma_shield_pin(p, lk, king, s);
                lemma_pin_mask(p, lk, victim);
                assert(bit(pin_mask(p, lk), victim));
                assert(rook);
                lemma_next_on_line(s, king, victim, t);
            }
        }
    }
}

/// The side that makes a move does not leave its king in check.
pub open spec fn safe(p: Position, m: Move) -> bool {
    !square_in_check(p.made(m), p.turn, king_square(p.made(m), p.turn))
}

/// An en-passant capture by a pawn on the rank of its king, while the king
/// is in check, to a square that is not in the check mask. Of a capture by
/// a pawn on the rank of the king only that rank is examined when the
/// moves are generated, not whether the capture ends a check.
pub open spec fn rank_capture_in_check(p: Position, m: Move) -> bool {
    &&& m.flag() == MoveFlag::EnPassant
    &&& rank_of(m.from()) == rank_of(king_square(p, p.turn))
    &&& square_in_check(p, p.turn, king_square(p, p.turn))
    &&& !bit(check_mask(p), m.to())
}

/// A sound move after which the king stands on `k` and is not attacked
/// there is safe.
pub proof fn lemma_safe_on(p: Position, m: Move, k: int)
    requires
        valid(p),
        sound(p, m),
        holds(p.made(m), k, PieceType::King, p.turn),
        !attacked(p.made(m), p.turn.opposite(), occupancy(p.made(m)), k),
    ensures
        safe(p, m),
{
    let q = p.made(m);
    lemma_sound_move_keeps_valid(p, m);
    lemma_occupied(p.board[m.from()]);
    assert(q.turn == p.turn.opposite());
    lemma_king_square(q, p.turn);
    lemma_check_is_attack(q, p.turn, k);
}

/// No generated move leaves the king of the side that makes it in check,
/// so that the position after it is playable again; except for an
/// en-passant capture by a pawn on the rank of a king in check that does
/// not go to a square of the check mask.
pub proof fn lemma_legal_moves_safe(p: Position, quiets: bool, i: int)
    requires
        playable(p),
        0 <= i < legal_moves(p, quiets).len(),
        !rank_capture_in_check(p, legal_moves(p, quiets)[i]),
    ensures
        safe(p, legal_moves(p, quiets)[i]),
        playable(p.made(legal_moves(p, quiets)[i])),
{
    let g = masks_of(p, quiets);
    let us = p.turn;
    let home_rank = home(us);
    let k = king_square(p, us);
    let m = legal_moves(p, quiets)[i];
    let q = p.made(m);
    lemma_legal_moves_sound(p, quiets);
    lemma_sound_move_keeps_valid(p, m);
    lemma_occupied(p.board[m.from()]);
    lemma_king_square(p, us);
    lemma_check_is_attack(p, us, k);
    lemma_in_check(p);
    let king = king_moves(g);
    let castling = castling_moves(g);
    let knights = gathered(g, Mover::Knight);
    let diagonals = gathered(g, Mover::Diagonal);
    let orthogonals = gathered(g, Mover::Orthogonal);
    let pawns = gathered(g, Mover::Pawn);
    lemma_gathered(g, Mover::Knight);
    lemma_gathered(g, Mover::Diagonal);
    lemma_gathered(g, Mover::Orthogonal);
    lemma_gathered(g, Mover::Pawn);
    if i < king.len() {
        assert(m == king[i]);
        lemma_king_moves_safe(p, quiets, i);
        lemma_check_is_attack(q, us, m.to());
        lemma_safe_on(p, m, m.to());
    } else {
        assert(!g.double_check);
        let a = i - king.len();
        let b = a - castling.len();
        let c = b - knights.len();
        let d = c - diagonals.len();
        let e = d - orthogonals.len();
        if a < castling.len() {
            assert(m == castling[a]);
            lemma_encode_fields(4 + home_rank, 6 + home_rank, MoveFlag::Castle);
            lemma_encode_fields(4 + home_rank, 2 + home_rank, MoveFlag::Castle);
            lemma_castling_safe(p, quiets, m);
            lemma_safe_on(p, m, m.to());
        } else {
            if b < knights.len() {
                assert(m == knights[b]);
                lemma_piece_move_safe(p, quiets, Mover::Knight, m);
            } else if c < diagonals.len() {
                assert(m == diagonals[c]);
                lemma_piece_move_safe(p, quiets, Mover::Diagonal, m);
            } else if d < orthogonals.len() {
                assert(m == orthogonals[d]);
                lemma_piece_move_safe(p, quiets, Mover::Orthogonal, m);
            } else {
                assert(m == pawns[e]);
                if m.flag() == MoveFlag::EnPassant {
                    lemma_en_passant_safe(p, quiets, m);
                } else {
                    lemma_pawn_move_safe(p, quiets, m);
                }
            }
            assert(holds(q, k, PieceType::King, us));
            lemma_safe_on(p, m, k);
        }
    }
}

/// An en-passant capture among the generated moves is a move of a pawn,
/// generated while the king is not in check twice.
pub proof fn lemma_en_passant_described(p: Position, quiets: bool, i: int)
    requires
        0 <= i < legal_moves(p, quiets).len(),
        legal_moves(p, quiets)[i].flag() == MoveFlag::EnPassant,
    ensures
        described(masks_of(p, quiets), Mover::Pawn, legal_moves(p, quiets)[i]),
        !masks_of(p, quiets).double_check,
{
    let g = masks_of(p, quiets);
    let home_rank = home(p.turn);
    let m = legal_moves(p, quiets)[i];
    let king = king_moves(g);
    let castling = castling_moves(g);
    let knights = gathered(g, Mover::Knight);
    let diagonals = gathered(g, Mover::Diagonal);
    let orthogonals = gathered(g, Mover::Orthogonal);
    let pawns = gathered(g, Mover::Pawn);
    lemma_gathered(g, Mover::Knight);
    lemma_gathered(g, Mover::Diagonal);
    lemma_gathered(g, Mover::Orthogonal);
    lemma_gathered(g, Mover::Pawn);
    if g.king < 64 {
        let targets = king_targets(g);
        lemma_squares_rising(targets, 0);
        lemma_moves_over(g.king as int, squares_of(targets), MoveFlag::Normal, targets);
    }
    lemma_encode_fields(4 + home_rank, 6 + home_rank, MoveFlag::Castle);
    lemma_encode_fields(4 + home_rank, 2 + home_rank, MoveFlag::Castle);
    if i < king.len() {
        assert(m == king[i]);
    } else {
        let a = i - king.len();
        let b = a - castling.len();
        let c = b - knights.len();
        let d = c - diagonals.len();
        let e = d - orthogonals.len();
        if a < castling.len() {
            assert(m == castling[a]);
        } else if b < knights.len() {
            assert(m == knights[b]);
        } else if c < diagonals.len() {
            assert(m == diagonals[c]);
        } else if d < orthogonals.len() {
            assert(m == orthogonals[d]);
        } else {
            assert(m == pawns[e]);
        }
    }
}

/// The board after an en-passant capture: the pawn has gone to the target,
/// and the pawn beside it, on the rank that it left, is gone.
pub proof fn lemma_en_passant_board(p: Position, quiets: bool, m: Move)
    requires
        p.wf(),
        described(masks_of(p, quiets), Mover::Pawn, m),
        m.flag() == MoveFlag::EnPassant,
    ensures
        ({
            let q = p.made(m);
            let victim = m.to() - forward(p.turn);
            &&& holds(p, m.from(), PieceType::Pawn, p.turn)
            &&& holds(p, victim, PieceType::Pawn, p.turn.opposite())
            &&& free(p, m.to())
            &&& rank_of(victim) == rank_of(m.from())
            &&& q.board.len() == 64
            &&& q.board[m.from()] == no_piece()
            &&& q.board[victim] == no_piece()
            &&& q.board[m.to()] == p.board[m.from()]
            &&& forall|u: int|
                0 <= u < 64 && u != m.from() && u != m.to() && u != victim ==> #[trigger] q.board[u]
                    == p.board[u]
        }),
{
    broadcast use group_bits;

    let g = masks_of(p, quiets);
    let us = p.turn;
    let them = us.opposite();
    let f = m.from();
    let t = m.to();
    let victim = t - forward(us);
    assert(pawn_described(g, m));
    let capture = pawn_en_passant(g, f);
    assert(capture.len() == 1 && capture[0] == m);
    assert(en_passant_allowed(g, f));
    lemma_encode_fields(f, g.en_passant as int, MoveFlag::EnPassant);
    lemma_piece(p, PieceType::Pawn, us, f);
    lemma_piece(p, PieceType::Pawn, them, victim);
    lemma_occupancy(p, t);
    lemma_bitboard_of(|u: int| pawn_capture(us, f, u), t);
    lemma_occupied(p.board[f]);
    assert(victim == victim_square(p.board[f], t));
    assert(rank_of(victim) == rank_of(f)) by {
        assert(f == 8 * rank_of(f) + file_of(f) && t == 8 * rank_of(t) + file_of(t) && victim == 8
            * rank_of(victim) + file_of(victim));
    }
}

/// The piece that gives check still does so after an en-passant capture
/// by a pawn on the rank of the king that does not go to a square of the
/// check mask.
proof fn lemma_check_stays(p: Position, q: Position, f: int, t: int, victim: int, s: int)
    requires
        playable(p),
        piece_attacks(p, p.turn.opposite(), s, occupancy(p), king_square(p, p.turn)),
        !bit(check_mask(p), t),
        s != f,
        s != t,
        s != victim,
        q.board.len() == 64,
        forall|u: int|
            0 <= u < 64 && u != f && u != t && u != victim ==> #[trigger] q.board[u] == p.board[u],
        q.board[f] == no_piece(),
        q.board[victim] == no_piece(),
    ensures
        piece_attacks(q, p.turn.opposite(), s, occupancy(q), king_square(p, p.turn)),
{
    let them = p.turn.opposite();
    let king = king_square(p, p.turn);
    let occ = occupancy(p);
    let occ_q = occupancy(q);
    lemma_king_square(p, p.turn);
    let kind = lemma_attacker_checks(p, s);
    lemma_checkers(p, kind, king, s);
    lemma_occupied(p.board[s]);
    assert(q.board[s] == p.board[s]);
    if kind == PieceType::Rook || kind == PieceType::Bishop {
        lemma_line_sight(kind, them, s, occ, king);
        lemma_line_sight(kind, them, s, occ_q, king);
        assert forall|u: int| inside(s, king, u) implies !bit(occ_q, u) by {
            lemma_occupancy(p, u);
            lemma_occupancy(q, u);
            if u == t {
                lemma_check_line(p, kind, s, t);
            }
        }
        lemma_queen(s, occ_q, king);
    }
}

/// An en-passant capture by a pawn on the rank of its king, while the king
/// is in check, to a square that is not in the check mask is generated
/// whenever no rook or queen comes to attack the king along the rank; it
/// leaves the king in check.
pub proof fn lemma_rank_capture_unsafe(p: Position, quiets: bool, i: int)
    requires
        playable(p),
        0 <= i < legal_moves(p, quiets).len(),
        rank_capture_in_check(p, legal_moves(p, quiets)[i]),
    ensures
        !safe(p, legal_moves(p, quiets)[i]),
{
    let us = p.turn;
    let them = us.opposite();
    let king = king_square(p, us);
    let m = legal_moves(p, quiets)[i];
    let q = p.made(m);
    let victim = m.to() - forward(us);
    lemma_legal_moves_sound(p, quiets);
    lemma_sound_move_keeps_valid(p, m);
    lemma_en_passant_described(p, quiets, i);
    lemma_en_passant_board(p, quiets, m);
    lemma_king_square(p, us);
    lemma_check_is_attack(p, us, king);
    let s = choose|s: int| #[trigger] piece_attacks(p, them, s, occupancy(p), king);
    lemma_occupied(p.board[s]);
    assert(s != victim) by {
        lemma_bitboard_of(|u: int| pawn_capture(them, victim, u), king);
    }
    lemma_check_stays(p, q, m.from(), m.to(), victim, s);
    assert(q.board[king] == p.board[king]);
    assert(holds(q, king, PieceType::King, us));
    lemma_occupied(p.board[m.from()]);
    lemma_king_square(q, us);
    lemma_check_is_attack(q, us, king);
}

} // verus!
