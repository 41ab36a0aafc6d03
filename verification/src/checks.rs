//! What the check mask means: who gives check, and where a check by one
//! piece can be ended.

use vstd::prelude::*;
use crate::bitboard::king_step;
use crate::bits::{
    bit, bit64, count, group_bits, lemma_bitboard_of, lemma_lowest, lemma_member_nonzero,
    lemma_nonzero_member,
};
use crate::geometry::{inside, lemma_inside_chain, lemma_inside_flip};
use crate::piece::{lemma_occupied, PieceColor, PieceType};
use crate::pins::{lemma_line_sight, lemma_piece, lemma_sliders, slider_at};
use crate::position::Position;
use crate::rules::{
    attack_mask, attack_set, check_count, check_mask, check_squares, checkers, diagonal_sliders,
    king_square, occupancy, orthogonal_sliders, pieces, probe_hit, probe_yield, square_in_check,
    Probe,
};
use crate::safety::{
    attacked, lemma_attacked_by, lemma_check_is_attack, lemma_in_occupancy, lemma_queen,
    lemma_same_sight, piece_attacks,
};
use crate::validity::{holds, one_king, valid};

verus! {

/// The position is one of a game, and the side that has just moved has not
/// left its king in check.
pub open spec fn playable(p: Position) -> bool {
    let them = p.turn.opposite();
    valid(p) && !square_in_check(p, them, king_square(p, them))
}

/// The square of the one king of a colour.
pub proof fn lemma_king_square(p: Position, color: PieceColor)
    requires
        one_king(p, color),
    ensures
        holds(p, king_square(p, color), PieceType::King, color),
        forall|t: int| #[trigger] holds(p, t, PieceType::King, color) ==> t == king_square(p, color),
{
    let kings = pieces(p, PieceType::King, color);
    let k = choose|s: int|
        #[trigger] holds(p, s, PieceType::King, color) && forall|t: int|
            #[trigger] holds(p, t, PieceType::King, color) ==> t == s;
    lemma_piece(p, PieceType::King, color, k);
    lemma_member_nonzero(kings, k);
    lemma_lowest(kings);
    lemma_piece(p, PieceType::King, color, king_square(p, color));
}

proof fn lemma_half(x: u64, j: u64)
    by (bit_vector)
    requires
        j < 64,
    ensures
        bit64(x, j) == (if j == 0 {
            x % 2 == 1
        } else {
            bit64(x / 2, (j - 1) as u64)
        }),
        x != 0 && x % 2 == 0 ==> x / 2 != 0,
        x / 2 == 0 ==> x == 0 || x == 1,
        !bit64(x / 2, 63),
{
}

/// A bitboard with a member counts at least one.
pub proof fn lemma_count_positive(x: u64)
    ensures
        x != 0 ==> count(x) >= 1,
    decreases x,
{
    if x != 0 {
        lemma_half(x, 0);
        if x % 2 == 0 {
            lemma_count_positive(x / 2);
        }
    }
}

/// A bitboard that counts at most one has at most one member.
pub proof fn lemma_count_one(x: u64, a: int, b: int)
    requires
        count(x) <= 1,
        bit(x, a),
        bit(x, b),
    ensures
        a == b,
    decreases x,
{
    lemma_half(x, a as u64);
    lemma_half(x, b as u64);
    crate::bits::lemma_bit_zero(a);
    crate::bits::lemma_bit_zero(a - 1);
    crate::bits::lemma_bit_zero(b - 1);
    if x != 0 {
        if x % 2 == 1 {
            lemma_count_positive(x / 2);
            assert(x / 2 == 0);
            if a != 0 {
                assert(bit(x / 2, a - 1));
            }
            if b != 0 {
                assert(bit(x / 2, b - 1));
            }
        } else {
            assert(a != 0 && b != 0);
            assert(bit(x / 2, a - 1) && bit(x / 2, b - 1));
            lemma_count_one(x / 2, a - 1, b - 1);
        }
    }
}

/// The side that is not to move has on `s` a piece that counts as a checker
/// of a kind: a pawn, a knight, a bishop or queen, a rook or queen.
pub open spec fn checker_at(p: Position, kind: PieceType, s: int) -> bool {
    if kind == PieceType::Rook || kind == PieceType::Bishop {
        slider_at(p, kind, s)
    } else {
        holds(p, s, kind, p.turn.opposite())
    }
}

/// The checkers of a kind are the pieces of that kind that attack the king.
pub proof fn lemma_checkers(p: Position, kind: PieceType, king: int, s: int)
    requires
        kind == PieceType::Pawn || kind == PieceType::Knight || kind == PieceType::Bishop || kind
            == PieceType::Rook,
    ensures
        bit(checkers(p, kind, king), s) == (checker_at(p, kind, s) && bit(
            attack_set(kind, p.turn.opposite(), s, occupancy(p)),
            king,
        )),
{
    let them = p.turn.opposite();
    let set = if kind == PieceType::Bishop {
        diagonal_sliders(p, them)
    } else if kind == PieceType::Rook {
        orthogonal_sliders(p, them)
    } else {
        pieces(p, kind, them)
    };
    lemma_bitboard_of(
        |s: int| bit(set, s) && probe_hit(Probe::Check, kind, them, s, occupancy(p), king),
        s,
    );
    lemma_sliders(p, kind, s);
    lemma_piece(p, kind, them, s);
}

/// The squares that end the checks of one kind: each checker gives its own
/// square, and a slider also what it and a slider on the king's square both see.
proof fn lemma_check_squares(p: Position, kind: PieceType, king: int, u: int)
    requires
        kind == PieceType::Pawn || kind == PieceType::Knight || kind == PieceType::Bishop || kind
            == PieceType::Rook,
    ensures
        bit(check_squares(p, kind, king), u) ==> exists|s: int|
            #[trigger] bit(checkers(p, kind, king), s) && bit(
                probe_yield(Probe::Check, kind, p.turn.opposite(), s, occupancy(p), king),
                u,
            ),
{
    let them = p.turn.opposite();
    let occ = occupancy(p);
    let set = if kind == PieceType::Bishop {
        diagonal_sliders(p, them)
    } else if kind == PieceType::Rook {
        orthogonal_sliders(p, them)
    } else {
        pieces(p, kind, them)
    };
    lemma_bitboard_of(
        |t: int|
            exists|s: int|
                #[trigger] bit(set, s) && probe_hit(Probe::Check, kind, them, s, occ, king) && bit(
                    probe_yield(Probe::Check, kind, them, s, occ, king),
                    t,
                ),
        u,
    );
    if bit(check_squares(p, kind, king), u) {
        let s = choose|s: int|
            #[trigger] bit(set, s) && probe_hit(Probe::Check, kind, them, s, occ, king) && bit(
                probe_yield(Probe::Check, kind, them, s, occ, king),
                u,
            );
        lemma_bitboard_of(
            |s: int| bit(set, s) && probe_hit(Probe::Check, kind, them, s, occ, king),
            s,
        );
        assert(bit(checkers(p, kind, king), s));
    }
}

/// The king of the side to move is attacked exactly if its square is in the
/// attack mask.
pub proof fn lemma_in_check(p: Position)
    requires
        valid(p),
    ensures
        bit(attack_mask(p), king_square(p, p.turn)) == attacked(
            p,
            p.turn.opposite(),
            occupancy(p),
            king_square(p, p.turn),
        ),
{
    broadcast use group_bits;

    let us = p.turn;
    let them = us.opposite();
    let king = king_square(p, us);
    let occ = occupancy(p);
    let kings = pieces(p, PieceType::King, us);
    let masked = occ ^ kings;
    lemma_king_square(p, us);
    lemma_attacked_by(p, them, masked, king);
    assert forall|u: int| 0 <= u < 64 && u != king implies bit(masked, u) == bit(occ, u) by {
        lemma_piece(p, PieceType::King, us, u);
    }
    if attacked(p, them, masked, king) {
        let s = choose|s: int| #[trigger] piece_attacks(p, them, s, masked, king);
        lemma_same_sight(p.board[s].kind(), them, s, masked, occ, king);
        assert(piece_attacks(p, them, s, occ, king));
    }
    if attacked(p, them, occ, king) {
        let s = choose|s: int| #[trigger] piece_attacks(p, them, s, occ, king);
        lemma_same_sight(p.board[s].kind(), them, s, occ, masked, king);
        assert(piece_attacks(p, them, s, masked, king));
    }
}

/// In a playable position the piece that attacks the king of the side to
/// move is a checker of one of the four kinds.
pub proof fn lemma_attacker_checks(p: Position, s: int) -> (kind: PieceType)
    requires
        playable(p),
        piece_attacks(p, p.turn.opposite(), s, occupancy(p), king_square(p, p.turn)),
    ensures
        kind == PieceType::Pawn || kind == PieceType::Knight || kind == PieceType::Bishop || kind
            == PieceType::Rook,
        bit(checkers(p, kind, king_square(p, p.turn)), s),
{
    let us = p.turn;
    let them = us.opposite();
    let king = king_square(p, us);
    let occ = occupancy(p);
    let piece = p.board[s];
    lemma_occupied(piece);
    lemma_king_square(p, us);
    lemma_king_square(p, them);
    lemma_queen(s, occ, king);
    let kind = if piece.kind() == PieceType::Queen {
        if bit(attack_set(PieceType::Rook, them, s, occ), king) {
            PieceType::Rook
        } else {
            PieceType::Bishop
        }
    } else {
        piece.kind()
    };
    if piece.kind() == PieceType::King {
        let other = king_square(p, them);
        assert(holds(p, s, PieceType::King, them));
        assert(s == other);
        lemma_bitboard_of(|t: int| king_step(s, t), king);
        lemma_bitboard_of(|t: int| king_step(king, t), s);
        assert(piece_attacks(p, us, king, occ, other));
        lemma_check_is_attack(p, them, other);
        assert(false);
    }
    lemma_checkers(p, kind, king, s);
    kind
}

/// With one check, the squares of the check mask are the square of the
/// checker and, if it is a slider, the squares between it and the king; and
/// nobody else gives check.
pub proof fn lemma_single_check(p: Position, kind: PieceType, c: int, u: int)
    requires
        valid(p),
        kind == PieceType::Pawn || kind == PieceType::Knight || kind == PieceType::Bishop || kind
            == PieceType::Rook,
        check_count(p, king_square(p, p.turn)) <= 1,
        bit(checkers(p, kind, king_square(p, p.turn)), c),
    ensures
        bit(check_mask(p), u) ==> u == c || ((kind == PieceType::Rook || kind
            == PieceType::Bishop) && inside(c, king_square(p, p.turn), u)),
        forall|other: PieceType, s: int|
            (other == PieceType::Pawn || other == PieceType::Knight || other == PieceType::Bishop
                || other == PieceType::Rook) && #[trigger] bit(
                checkers(p, other, king_square(p, p.turn)),
                s,
            ) ==> s == c && other == kind,
{
    broadcast use group_bits;

    let us = p.turn;
    let them = us.opposite();
    let king = king_square(p, us);
    let occ = occupancy(p);
    lemma_king_square(p, us);
    lemma_member_nonzero(checkers(p, kind, king), c);
    lemma_count_positive(checkers(p, PieceType::Pawn, king));
    lemma_count_positive(checkers(p, PieceType::Knight, king));
    lemma_count_positive(checkers(p, PieceType::Bishop, king));
    lemma_count_positive(checkers(p, PieceType::Rook, king));
    assert forall|other: PieceType, s: int|
        (other == PieceType::Pawn || other == PieceType::Knight || other == PieceType::Bishop
            || other == PieceType::Rook) && #[trigger] bit(
            checkers(p, other, king),
            s,
        ) implies s == c && other == kind by {
        lemma_member_nonzero(checkers(p, other, king), s);
        if other == kind {
            lemma_count_one(checkers(p, kind, king), s, c);
        }
    }
    if bit(check_mask(p), u) {
        lemma_check_squares(p, PieceType::Pawn, king, u);
        lemma_check_squares(p, PieceType::Knight, king, u);
        lemma_check_squares(p, PieceType::Bishop, king, u);
        lemma_check_squares(p, PieceType::Rook, king, u);
        let other = if bit(check_squares(p, PieceType::Pawn, king), u) {
            PieceType::Pawn
        } else if bit(check_squares(p, PieceType::Knight, king), u) {
            PieceType::Knight
        } else if bit(check_squares(p, PieceType::Bishop, king), u) {
            PieceType::Bishop
        } else {
            PieceType::Rook
        };
        let s = choose|s: int|
            #[trigger] bit(checkers(p, other, king), s) && bit(
                probe_yield(Probe::Check, other, them, s, occ, king),
                u,
            );
        assert(s == c && other == kind);
        if u != c {
            lemma_checkers(p, kind, king, c);
            lemma_line_sight(kind, them, c, occ, u);
            lemma_line_sight(kind, them, king, occ, u);
            lemma_line_sight(kind, them, c, occ, king);
            lemma_in_occupancy(p, king);
            lemma_in_occupancy(p, c);
            if inside(c, u, king) {
                assert(!bit(occ, king));
            }
            if inside(king, u, c) {
                assert(!bit(occ, c));
            }
        }
    }
}

/// The square of a piece that gives check is in the check mask, and if it
/// is a slider so are the squares between it and the king.
pub proof fn lemma_check_line(p: Position, kind: PieceType, c: int, u: int)
    requires
        valid(p),
        kind == PieceType::Pawn || kind == PieceType::Knight || kind == PieceType::Bishop || kind
            == PieceType::Rook,
        bit(checkers(p, kind, king_square(p, p.turn)), c),
        u == c || ((kind == PieceType::Rook || kind == PieceType::Bishop) && inside(
            c,
            king_square(p, p.turn),
            u,
        )),
    ensures
        bit(check_mask(p), u),
{
    broadcast use group_bits;

    let us = p.turn;
    let them = us.opposite();
    let king = king_square(p, us);
    let occ = occupancy(p);
    let rook = kind == PieceType::Rook;
    let set = if kind == PieceType::Bishop {
        diagonal_sliders(p, them)
    } else if kind == PieceType::Rook {
        orthogonal_sliders(p, them)
    } else {
        pieces(p, kind, them)
    };
    lemma_king_square(p, us);
    lemma_member_nonzero(checkers(p, kind, king), c);
    lemma_count_positive(checkers(p, kind, king));
    lemma_checkers(p, kind, king, c);
    lemma_sliders(p, kind, c);
    lemma_piece(p, kind, them, c);
    if u != c {
        lemma_line_sight(kind, them, c, occ, king);
        lemma_line_sight(kind, them, c, occ, u);
        lemma_line_sight(kind, them, king, occ, u);
        lemma_inside_flip(rook, c, king, u);
        assert forall|v: int| inside(c, u, v) implies !bit(occ, v) by {
            lemma_inside_chain(c, king, u, v);
        }
        assert forall|v: int| inside(king, u, v) implies !bit(occ, v) by {
            lemma_inside_chain(king, c, u, v);
            lemma_inside_flip(rook, king, c, v);
        }
    }
    assert(bit(probe_yield(Probe::Check, kind, them, c, occ, king), u));
    lemma_bitboard_of(
        |t: int|
            exists|s: int|
                #[trigger] bit(set, s) && probe_hit(Probe::Check, kind, them, s, occ, king) && bit(
                    probe_yield(Probe::Check, kind, them, s, occ, king),
                    t,
                ),
        u,
    );
    assert(bit(check_squares(p, kind, king), u));
}

/// A bitboard that counts two or more has two members.
pub proof fn lemma_count_two(x: u64) -> (pair: (int, int))
    requires
        count(x) >= 2,
    ensures
        pair.0 != pair.1,
        bit(x, pair.0),
        bit(x, pair.1),
    decreases x,
{
    lemma_half(x, 0);
    if x % 2 == 1 {
        assert(count(x / 2) >= 1);
        let j = lemma_nonzero_member(x / 2);
        lemma_half(x, (j + 1) as u64);
        (0, j + 1)
    } else {
        let (a, b) = lemma_count_two(x / 2);
        lemma_half(x, (a + 1) as u64);
        lemma_half(x, (b + 1) as u64);
        (a + 1, b + 1)
    }
}

/// In a double check two pieces on different squares give check.
pub proof fn lemma_two_checkers(p: Position) -> (found: (PieceType, int, PieceType, int))
    requires
        valid(p),
        check_count(p, king_square(p, p.turn)) >= 2,
    ensures
        found.1 != found.3,
        found.0 == PieceType::Pawn || found.0 == PieceType::Knight || found.0 == PieceType::Bishop
            || found.0 == PieceType::Rook,
        found.2 == PieceType::Pawn || found.2 == PieceType::Knight || found.2 == PieceType::Bishop
            || found.2 == PieceType::Rook,
        bit(checkers(p, found.0, king_square(p, p.turn)), found.1),
        bit(checkers(p, found.2, king_square(p, p.turn)), found.3),
{
    let king = king_square(p, p.turn);
    let them = p.turn.opposite();
    let occ = occupancy(p);
    lemma_king_square(p, p.turn);
    let pawns = checkers(p, PieceType::Pawn, king);
    let knights = checkers(p, PieceType::Knight, king);
    let bishops = checkers(p, PieceType::Bishop, king);
    let rooks = checkers(p, PieceType::Rook, king);
    let first = if count(pawns) >= 1 {
        PieceType::Pawn
    } else if count(knights) >= 1 {
        PieceType::Knight
    } else if count(bishops) >= 1 {
        PieceType::Bishop
    } else {
        PieceType::Rook
    };
    if count(checkers(p, first, king)) >= 2 {
        let (a, b) = lemma_count_two(checkers(p, first, king));
        (first, a, first, b)
    } else {
        let second = if first != PieceType::Knight && count(knights) >= 1 {
            PieceType::Knight
        } else if first != PieceType::Bishop && count(bishops) >= 1 {
            PieceType::Bishop
        } else {
            PieceType::Rook
        };
        assert(count(checkers(p, second, king)) >= 1 && first != second);
        let a = lemma_nonzero_member(checkers(p, first, king));
        let b = lemma_nonzero_member(checkers(p, second, king));
        lemma_checkers(p, first, king, a);
        lemma_checkers(p, second, king, b);
        if a == b {
            lemma_line_sight(PieceType::Rook, them, a, occ, king);
            lemma_line_sight(PieceType::Bishop, them, a, occ, king);
            assert(false);
        }
        (first, a, second, b)
    }
}

} // verus!
