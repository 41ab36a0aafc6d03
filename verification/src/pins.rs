//! What the pin masks mean: which sliders of the other side the generator
//! takes for pinners, and which squares it marks for them.

use vstd::prelude::*;
use crate::bits::{bit, group_bits, lemma_bitboard_of};
use crate::geometry::{bishop_line, clear, inside, lemma_between, lemma_sight, rook_line};
use crate::piece::{lemma_occupied, PieceColor, PieceType};
use crate::position::Position;
use crate::rules::{
    attack_set, diagonal_sliders, kind_index, king_square, occupancy, orthogonal_sliders, pieces,
    pin_mask, pinners, probe_hit, probe_yield, side, xray, Probe,
};
use crate::validity::holds;

verus! {

/// A square holds a piece.
pub open spec fn occupied(p: Position, u: int) -> bool {
    0 <= u < 64 && p.board[u].occupied()
}

/// A square holds a piece of the side to move.
pub open spec fn own_at(p: Position, u: int) -> bool {
    occupied(p, u) && p.board[u].color() == p.turn
}

/// A square holds a piece of the side that is not to move.
pub open spec fn enemy_at(p: Position, u: int) -> bool {
    occupied(p, u) && p.board[u].color() == p.turn.opposite()
}

/// Two squares share a line of the kind on which rooks, or else bishops, move.
pub open spec fn line(kind: PieceType, a: int, b: int) -> bool {
    if kind == PieceType::Rook {
        rook_line(a, b)
    } else {
        bishop_line(a, b)
    }
}

/// The other side has on `s` a piece that moves along the lines of a kind:
/// a rook or a queen, or else a bishop or a queen.
pub open spec fn slider_at(p: Position, kind: PieceType, s: int) -> bool {
    let them = p.turn.opposite();
    if kind == PieceType::Rook {
        holds(p, s, PieceType::Rook, them) || holds(p, s, PieceType::Queen, them)
    } else {
        holds(p, s, PieceType::Bishop, them) || holds(p, s, PieceType::Queen, them)
    }
}

/// `f` is the only occupied square between `a` and `b`.
pub open spec fn sole_blocker(p: Position, a: int, b: int, f: int) -> bool {
    inside(a, b, f) && occupied(p, f) && forall|u: int|
        inside(a, b, u) && occupied(p, u) ==> u == f
}

/// Between `a` and `b` stands no piece of the side to move, and at least
/// one of the other side.
pub open spec fn shielded(p: Position, a: int, b: int) -> bool {
    (forall|u: int| inside(a, b, u) ==> !own_at(p, u)) && exists|u: int|
        inside(a, b, u) && #[trigger] enemy_at(p, u)
}

/// A slider pins: one piece of the side to move is all that stands between
/// it and the king.
pub open spec fn pins(p: Position, king: int, s: int) -> bool {
    exists|f: int| #[trigger] sole_blocker(p, king, s, f) && own_at(p, f)
}

/// A square is occupied exactly if it is in the bitboard of all pieces, and
/// by a side exactly if it is in the bitboard of that side.
pub proof fn lemma_occupancy(p: Position, u: int)
    ensures
        bit(occupancy(p), u) == occupied(p, u),
        bit(side(p, p.turn), u) == own_at(p, u),
        bit(side(p, p.turn.opposite()), u) == enemy_at(p, u),
{
    broadcast use group_bits;

    lemma_bitboard_of(|s: int| p.board[s].occupied() && p.board[s].color() == PieceColor::White, u);
    lemma_bitboard_of(|s: int| p.board[s].occupied() && p.board[s].color() == PieceColor::Black, u);
}

/// A square holds a slider of the other side exactly if it is in the
/// bitboard of those sliders.
pub proof fn lemma_sliders(p: Position, kind: PieceType, s: int)
    ensures
        bit(
            if kind == PieceType::Rook {
                orthogonal_sliders(p, p.turn.opposite())
            } else {
                diagonal_sliders(p, p.turn.opposite())
            },
            s,
        ) == slider_at(p, kind, s),
{
    broadcast use group_bits;

    let them = p.turn.opposite();
    lemma_piece(p, PieceType::Rook, them, s);
    lemma_piece(p, PieceType::Bishop, them, s);
    lemma_piece(p, PieceType::Queen, them, s);
}

/// A square holds a piece exactly if it is in the bitboard of its kind and colour.
pub proof fn lemma_piece(p: Position, kind: PieceType, color: PieceColor, s: int)
    requires
        kind != PieceType::Empty,
    ensures
        bit(pieces(p, kind, color), s) == holds(p, s, kind, color),
{
    lemma_bitboard_of(
        |s: int| p.board[s].occupied() && p.board[s].index() == kind_index(kind, color),
        s,
    );
    if 0 <= s < 64 && p.board[s].occupied() {
        lemma_occupied(p.board[s]);
    }
}

/// What a rook or a bishop attacks, in coordinates.
pub proof fn lemma_line_sight(kind: PieceType, color: PieceColor, a: int, occ: u64, b: int)
    requires
        0 <= a < 64,
        kind == PieceType::Rook || kind == PieceType::Bishop,
    ensures
        bit(attack_set(kind, color, a, occ), b) == (line(kind, a, b) && clear(a, b, occ)),
{
    lemma_sight(a, occ, b);
}

/// The squares that the generator looks through from the king: the first
/// piece of the side to move on each line is taken off.
spec fn seen_through(p: Position, kind: PieceType, king: int) -> u64 {
    let own = side(p, p.turn);
    occupancy(p) ^ (own & attack_set(kind, PieceColor::White, king, own))
}

/// A square counts as occupied when the generator looks through the first
/// pieces: it is occupied, and it is not a piece of the side to move with
/// no other such piece between it and the king.
proof fn lemma_seen_through(p: Position, kind: PieceType, king: int, u: int)
    requires
        0 <= king < 64,
        kind == PieceType::Rook || kind == PieceType::Bishop,
    ensures
        bit(seen_through(p, kind, king), u) == (occupied(p, u) && !(own_at(p, u) && line(
            kind,
            king,
            u,
        ) && clear(king, u, side(p, p.turn)))),
{
    broadcast use group_bits;

    let own = side(p, p.turn);
    lemma_occupancy(p, u);
    lemma_line_sight(kind, PieceColor::White, king, own, u);
}

/// The sliders that the generator takes for pinners, in coordinates.
proof fn lemma_pinner(p: Position, kind: PieceType, king: int, s: int)
    requires
        0 <= king < 64,
        kind == PieceType::Rook || kind == PieceType::Bishop,
    ensures
        bit(pinners(p, kind, king), s) == (slider_at(p, kind, s) && line(kind, king, s) && (clear(
            king,
            s,
            side(p, p.turn),
        ) != clear(king, s, seen_through(p, kind, king)))),
{
    broadcast use group_bits;

    let own = side(p, p.turn);
    let occ = occupancy(p);
    lemma_sliders(p, kind, s);
    lemma_line_sight(kind, PieceColor::White, king, own, s);
    lemma_line_sight(kind, PieceColor::White, king, seen_through(p, kind, king), s);
    assert(xray(kind, occ, own, king) == attack_set(kind, PieceColor::White, king, own)
        ^ attack_set(kind, PieceColor::White, king, seen_through(p, kind, king)));
}

/// A slider that pins is one of the pinners.
pub proof fn lemma_true_pin(p: Position, kind: PieceType, king: int, s: int)
    requires
        0 <= king < 64,
        kind == PieceType::Rook || kind == PieceType::Bishop,
        slider_at(p, kind, s),
        line(kind, king, s),
        pins(p, king, s),
    ensures
        bit(pinners(p, kind, king), s),
{
    let own = side(p, p.turn);
    let f = choose|f: int| #[trigger] sole_blocker(p, king, s, f) && own_at(p, f);
    lemma_pinner(p, kind, king, s);
    lemma_occupancy(p, f);
    assert(!clear(king, s, own));
    assert forall|u: int| inside(king, s, u) implies !bit(seen_through(p, kind, king), u) by {
        lemma_seen_through(p, kind, king, u);
        if occupied(p, u) {
            assert(u == f);
            assert forall|v: int| inside(king, f, v) implies !bit(own, v) by {
                lemma_occupancy(p, v);
                assert(inside(king, s, v));
            }
        }
    }
}

/// A slider that only pieces of its own side shield from the king is one of
/// the pinners.
pub proof fn lemma_shield_pin(p: Position, kind: PieceType, king: int, s: int)
    requires
        0 <= king < 64,
        kind == PieceType::Rook || kind == PieceType::Bishop,
        slider_at(p, kind, s),
        line(kind, king, s),
        shielded(p, king, s),
    ensures
        bit(pinners(p, kind, king), s),
{
    let own = side(p, p.turn);
    lemma_pinner(p, kind, king, s);
    assert forall|u: int| inside(king, s, u) implies !bit(own, u) by {
        lemma_occupancy(p, u);
    }
    let e = choose|u: int| inside(king, s, u) && #[trigger] enemy_at(p, u);
    lemma_seen_through(p, kind, king, e);
}

/// Every pinner pins or is shielded.
pub proof fn lemma_pinner_shape(p: Position, kind: PieceType, king: int, s: int)
    requires
        0 <= king < 64,
        kind == PieceType::Rook || kind == PieceType::Bishop,
        bit(pinners(p, kind, king), s),
    ensures
        slider_at(p, kind, s),
        line(kind, king, s),
        pins(p, king, s) || shielded(p, king, s),
{
    let own = side(p, p.turn);
    let through = seen_through(p, kind, king);
    lemma_pinner(p, kind, king, s);
    if clear(king, s, own) {
        assert forall|u: int| inside(king, s, u) implies !own_at(p, u) by {
            lemma_occupancy(p, u);
        }
        let e = choose|u: int| inside(king, s, u) && bit(through, u);
        lemma_seen_through(p, kind, king, e);
        assert(enemy_at(p, e));
    } else {
        let f = choose|u: int| inside(king, s, u) && bit(own, u);
        lemma_occupancy(p, f);
        assert forall|u: int| inside(king, s, u) && occupied(p, u) implies u == f by {
            lemma_seen_through(p, kind, king, u);
            lemma_seen_through(p, kind, king, f);
            if u != f {
                assert(own_at(p, u) && clear(king, u, own));
                assert(own_at(p, f) && clear(king, f, own));
                lemma_occupancy(p, u);
                assert(inside(king, u, f) || inside(king, f, u));
            }
        }
        assert(sole_blocker(p, king, s, f) && own_at(p, f));
    }
}

/// The pin mask of a kind holds each pinner and the squares between it and the king.
#[verifier::rlimit(30)]
pub proof fn lemma_pin_mask(p: Position, kind: PieceType, u: int)
    requires
        king_square(p, p.turn) < 64,
        kind == PieceType::Rook || kind == PieceType::Bishop,
    ensures
        bit(pin_mask(p, kind), u) == (0 <= u < 64 && exists|s: int|
            #[trigger] bit(pinners(p, kind, king_square(p, p.turn)), s) && (u == s || inside(
                king_square(p, p.turn),
                s,
                u,
            ))),
{
    broadcast use group_bits;

    let king = king_square(p, p.turn);
    let us = p.turn;
    let occ = occupancy(p);
    let set = pinners(p, kind, king);
    vstd::std_specs::bits::axiom_u64_trailing_zeros(pieces(p, PieceType::King, us));
    lemma_bitboard_of(
        |t: int|
            exists|s: int|
                #[trigger] bit(set, s) && probe_hit(Probe::Pin, kind, us, s, occ, king) && bit(
                    probe_yield(Probe::Pin, kind, us, s, occ, king),
                    t,
                ),
        u,
    );
    if bit(pin_mask(p, kind), u) {
        let s = choose|s: int|
            #[trigger] bit(set, s) && probe_hit(Probe::Pin, kind, us, s, occ, king) && bit(
                probe_yield(Probe::Pin, kind, us, s, occ, king),
                u,
            );
        lemma_between(s, king, u);
        assert(bit(set, s) && (u == s || inside(king, s, u)));
    }
    if 0 <= u < 64 && exists|s: int|
        #[trigger] bit(set, s) && (u == s || inside(king, s, u)) {
        let s = choose|s: int| #[trigger] bit(set, s) && (u == s || inside(king, s, u));
        lemma_between(s, king, u);
        assert(bit(set, s) && probe_hit(Probe::Pin, kind, us, s, occ, king) && bit(
            probe_yield(Probe::Pin, kind, us, s, occ, king),
            u,
        ));
    }
}

} // verus!
