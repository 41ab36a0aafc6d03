//! No move is generated twice.
//!
//! The list of legal moves is put together from six parts: the moves of
//! the king, castling, and the moves of the knights, of the diagonal
//! sliders, of the orthogonal sliders and of the pawns. Within a part the
//! moves differ by their origin, their destination or their flag; and a
//! move tells by its origin, destination and flag to which part it belongs.

use vstd::prelude::*;
use crate::bits::{bit, group_bits, lemma_bitboard_of, lemma_lowest};
use crate::board_helper::rank_of;
use crate::chess_move::{lemma_encode_fields, Move, MoveFlag};
use crate::piece::{PieceColor, PieceType};
use crate::position::Position;
use crate::rules::{
    castling_moves, diagonal_targets, forward, gathered, gathered_over, home, kind_index,
    king_moves, knight_targets, legal_moves, masks_of, movers, moves_of, moves_over, moves_to,
    orthogonal_targets, pawn_double_step, pawn_en_passant, pawn_moves, pawn_targets, pieces,
    promotions, promotions_over, promotions_to, squares_from, squares_of, MoveMasks, Mover,
};
use crate::sliders::{bishop_attacks, lemma_rook_bishop_disjoint, rook_attacks};

verus! {

/// No move occurs twice in a sequence.
pub open spec fn distinct(moves: Seq<Move>) -> bool {
    forall|i: int, j: int| 0 <= i < j < moves.len() ==> moves[i] != moves[j]
}

/// The squares of a sequence are squares of the board in rising order.
pub open spec fn rising(squares: Seq<int>) -> bool {
    &&& forall|i: int| 0 <= i < squares.len() ==> 0 <= #[trigger] squares[i] < 64
    &&& forall|i: int, j: int| 0 <= i < j < squares.len() ==> squares[i] < squares[j]
}

/// The part of the list of legal moves to which a move belongs by its
/// origin, destination and flag.
pub open spec fn part_of(g: MoveMasks, m: Move) -> int {
    if m.flag() == MoveFlag::Castle {
        1
    } else if m.from() == g.king {
        0
    } else if bit(g.knights, m.from()) {
        2
    } else if bit(g.diagonals, m.from()) && m.flag() == MoveFlag::Normal && bit(
        bishop_attacks(m.from(), g.all),
        m.to(),
    ) {
        3
    } else if bit(g.orthogonals, m.from()) && m.flag() == MoveFlag::Normal && bit(
        rook_attacks(m.from(), g.all),
        m.to(),
    ) {
        4
    } else {
        5
    }
}

/// Every move of a sequence belongs to one part.
pub open spec fn all_in_part(g: MoveMasks, moves: Seq<Move>, part: int) -> bool {
    forall|i: int| 0 <= i < moves.len() ==> part_of(g, #[trigger] moves[i]) == part
}

/// Every move of a sequence belongs to a part up to a given one.
pub open spec fn all_up_to_part(g: MoveMasks, moves: Seq<Move>, part: int) -> bool {
    forall|i: int| 0 <= i < moves.len() ==> part_of(g, #[trigger] moves[i]) <= part
}

/// Every move of a sequence starts on one square.
pub open spec fn all_from(moves: Seq<Move>, from: int) -> bool {
    forall|i: int| 0 <= i < moves.len() ==> (#[trigger] moves[i]).from() == from
}

/// Every move of a sequence has one flag and goes to a member of a bitboard.
pub open spec fn all_to(moves: Seq<Move>, mask: u64, flag: MoveFlag) -> bool {
    forall|i: int|
        0 <= i < moves.len() ==> (#[trigger] moves[i]).flag() == flag && bit(mask, moves[i].to())
}

/// Two sequences without a common move, each without a move twice, give one when joined.
pub proof fn lemma_distinct_join(a: Seq<Move>, b: Seq<Move>)
    requires
        distinct(a),
        distinct(b),
        forall|i: int, j: int| 0 <= i < a.len() && 0 <= j < b.len() ==> a[i] != b[j],
    ensures
        distinct(a + b),
{
    assert forall|i: int, j: int| 0 <= i < j < (a + b).len() implies (a + b)[i] != (a + b)[j] by {
        if j < a.len() {
        } else if i >= a.len() {
            assert(b[i - a.len()] != b[j - a.len()]);
        } else {
            assert(a[i] != b[j - a.len()]);
        }
    }
}

/// The moves of a later part can be joined to those of the parts before it.
proof fn lemma_join_parts(g: MoveMasks, a: Seq<Move>, b: Seq<Move>, part: int)
    requires
        distinct(a),
        distinct(b),
        all_up_to_part(g, a, part - 1),
        all_in_part(g, b, part),
    ensures
        distinct(a + b),
        all_up_to_part(g, a + b, part),
{
    assert forall|i: int, j: int| 0 <= i < a.len() && 0 <= j < b.len() implies a[i] != b[j] by {
        assert(part_of(g, a[i]) <= part - 1);
        assert(part_of(g, b[j]) == part);
    }
    lemma_distinct_join(a, b);
    assert forall|i: int| 0 <= i < (a + b).len() implies part_of(g, #[trigger] (a + b)[i])
        <= part by {
        if i < a.len() {
            assert(part_of(g, a[i]) <= part - 1);
        } else {
            assert(part_of(g, b[i - a.len()]) == part);
        }
    }
}

/// The squares of a bitboard from `i` on are members, in rising order.
pub proof fn lemma_squares_rising(x: u64, i: int)
    requires
        0 <= i,
    ensures
        rising(squares_from(x, i)),
        forall|k: int|
            0 <= k < squares_from(x, i).len() ==> i <= (#[trigger] squares_from(x, i)[k]) && bit(
                x,
                squares_from(x, i)[k],
            ),
    decreases 64 - i,
{
    if i < 64 {
        lemma_squares_rising(x, i + 1);
        let rest = squares_from(x, i + 1);
        if bit(x, i) {
            let all = seq![i] + rest;
            assert forall|k: int| 0 <= k < all.len() implies i <= (#[trigger] all[k]) && bit(
                x,
                all[k],
            ) && all[k] < 64 by {
                if k > 0 {
                    assert(all[k] == rest[k - 1]);
                }
            }
            assert forall|a: int, b: int| 0 <= a < b < all.len() implies all[a] < all[b] by {
                assert(all[b] == rest[b - 1]);
                if a > 0 {
                    assert(all[a] == rest[a - 1]);
                }
            }
        }
    }
}

/// The moves from one square to rising squares differ, start on that
/// square, have the flag, and go to those squares.
pub proof fn lemma_moves_over(from: int, targets: Seq<int>, flag: MoveFlag, mask: u64)
    requires
        0 <= from < 64,
        rising(targets),
        forall|k: int| 0 <= k < targets.len() ==> bit(mask, #[trigger] targets[k]),
    ensures
        distinct(moves_over(from, targets, flag)),
        all_from(moves_over(from, targets, flag), from),
        all_to(moves_over(from, targets, flag), mask, flag),
        forall|i: int|
            0 <= i < moves_over(from, targets, flag).len() ==> targets.len() > 0 && (
            #[trigger] moves_over(from, targets, flag)[i]).to() <= targets.last(),
    decreases targets.len(),
{
    if targets.len() > 0 {
        let before = targets.drop_last();
        lemma_moves_over(from, before, flag, mask);
        let earlier = moves_over(from, before, flag);
        let last = Move::encode(from, targets.last(), flag);
        lemma_encode_fields(from, targets.last(), flag);
        let all = moves_over(from, targets, flag);
        assert(all == earlier.push(last));
        assert forall|i: int| 0 <= i < earlier.len() implies (#[trigger] earlier[i]).to()
            < targets.last() by {
            assert(earlier[i].to() <= before.last());
            assert(before.last() == targets[targets.len() - 2]);
        }
        assert forall|i: int, j: int| 0 <= i < j < all.len() implies all[i] != all[j] by {
            if j < earlier.len() {
                assert(earlier[i] != earlier[j]);
            } else {
                assert(earlier[i].to() < targets.last());
            }
        }
        assert forall|i: int| 0 <= i < all.len() implies (#[trigger] all[i]).from() == from
            && all[i].flag() == flag && bit(mask, all[i].to()) && all[i].to()
            <= targets.last() by {
            if i < earlier.len() {
                assert(earlier[i].from() == from);
                assert(earlier[i].flag() == flag);
                assert(earlier[i].to() < targets.last());
            }
        }
    }
}

/// Every move of a sequence is a promotion from one square.
pub open spec fn all_promotions(moves: Seq<Move>, from: int) -> bool {
    forall|i: int|
        0 <= i < moves.len() ==> (#[trigger] moves[i]).from() == from
            && moves[i].flag().is_promotion()
}

/// The promotions from one square on rising squares differ.
proof fn lemma_promotions_over(from: int, targets: Seq<int>, quiets: bool, mask: u64)
    requires
        0 <= from < 64,
        rising(targets),
        forall|k: int| 0 <= k < targets.len() ==> bit(mask, #[trigger] targets[k]),
    ensures
        distinct(promotions_over(from, targets, quiets)),
        all_promotions(promotions_over(from, targets, quiets), from),
        forall|i: int|
            0 <= i < promotions_over(from, targets, quiets).len() ==> bit(
                mask,
                (#[trigger] promotions_over(from, targets, quiets)[i]).to(),
            ),
        forall|i: int|
            0 <= i < promotions_over(from, targets, quiets).len() ==> targets.len() > 0 && (
            #[trigger] promotions_over(from, targets, quiets)[i]).to() <= targets.last(),
        forall|i: int|
            0 <= i < promotions_over(from, targets, quiets).len() ==> quiets || (
            #[trigger] promotions_over(from, targets, quiets)[i]).flag() == MoveFlag::PromoteQueen,
    decreases targets.len(),
{
    if targets.len() > 0 {
        let before = targets.drop_last();
        lemma_promotions_over(from, before, quiets, mask);
        let earlier = promotions_over(from, before, quiets);
        let t = targets.last();
        let block = promotions(from, t, quiets);
        lemma_encode_fields(from, t, MoveFlag::PromoteKnight);
        lemma_encode_fields(from, t, MoveFlag::PromoteBishop);
        lemma_encode_fields(from, t, MoveFlag::PromoteRook);
        lemma_encode_fields(from, t, MoveFlag::PromoteQueen);
        assert(distinct(block));
        assert forall|j: int| 0 <= j < block.len() implies (#[trigger] block[j]).to() == t
            && block[j].from() == from && block[j].flag().is_promotion() by {}
        assert forall|i: int| 0 <= i < earlier.len() implies (#[trigger] earlier[i]).to() < t by {
            assert(earlier[i].to() <= before.last());
            assert(before.last() == targets[targets.len() - 2]);
        }
        assert forall|i: int, j: int| 0 <= i < earlier.len() && 0 <= j < block.len() implies earlier[i]
            != block[j] by {
            assert(earlier[i].to() < t);
            assert(block[j].to() == t);
        }
        lemma_distinct_join(earlier, block);
        let all = promotions_over(from, targets, quiets);
        assert(all == earlier + block);
        assert forall|i: int| 0 <= i < all.len() implies (#[trigger] all[i]).from() == from
            && all[i].flag().is_promotion() && all[i].to() <= t && bit(mask, all[i].to()) && (quiets
            || all[i].flag() == MoveFlag::PromoteQueen) by {
            if i < earlier.len() {
                assert(earlier[i].from() == from);
                assert(earlier[i].to() < t);
                assert(bit(mask, earlier[i].to()));
                assert(quiets || earlier[i].flag() == MoveFlag::PromoteQueen);
            } else {
                assert(block[i - earlier.len()].to() == t);
                assert(bit(mask, targets[targets.len() - 1]));
            }
        }
    }
}

/// The moves of one piece differ and start on its square. Those of a
/// knight or a slider are plain moves to its destinations; none of a pawn
/// is a castling move.
proof fn lemma_moves_of(g: MoveMasks, mover: Mover, s: int)
    requires
        0 <= s < 64,
    ensures
        distinct(moves_of(g, mover, s)),
        all_from(moves_of(g, mover, s), s),
        mover == Mover::Knight ==> all_to(
            moves_of(g, mover, s),
            knight_targets(g, s),
            MoveFlag::Normal,
        ),
        mover == Mover::Diagonal ==> all_to(
            moves_of(g, mover, s),
            diagonal_targets(g, s),
            MoveFlag::Normal,
        ),
        mover == Mover::Orthogonal ==> all_to(
            moves_of(g, mover, s),
            orthogonal_targets(g, s),
            MoveFlag::Normal,
        ),
        forall|i: int|
            0 <= i < moves_of(g, mover, s).len() ==> (#[trigger] moves_of(g, mover, s)[i]).flag()
                != MoveFlag::Castle,
        mover == Mover::Pawn ==> forall|i: int|
            0 <= i < moves_of(g, mover, s).len() ==> pawn_described(
                g,
                #[trigger] moves_of(g, mover, s)[i],
            ),
{
    match mover {
        Mover::Knight => {
            lemma_squares_rising(knight_targets(g, s), 0);
            lemma_moves_over(
                s,
                squares_of(knight_targets(g, s)),
                MoveFlag::Normal,
                knight_targets(g, s),
            );
        },
        Mover::Diagonal => {
            lemma_squares_rising(diagonal_targets(g, s), 0);
            lemma_moves_over(
                s,
                squares_of(diagonal_targets(g, s)),
                MoveFlag::Normal,
                diagonal_targets(g, s),
            );
        },
        Mover::Orthogonal => {
            lemma_squares_rising(orthogonal_targets(g, s), 0);
            lemma_moves_over(
                s,
                squares_of(orthogonal_targets(g, s)),
                MoveFlag::Normal,
                orthogonal_targets(g, s),
            );
        },
        Mover::Pawn => {
            lemma_pawn_moves(g, s);
        },
    }
}

/// The moves of one pawn differ, start on its square, and none is a castling move.
proof fn lemma_pawn_moves(g: MoveMasks, s: int)
    requires
        0 <= s < 64,
    ensures
        distinct(pawn_moves(g, s)),
        all_from(pawn_moves(g, s), s),
        forall|i: int|
            0 <= i < pawn_moves(g, s).len() ==> (#[trigger] pawn_moves(g, s)[i]).flag()
                != MoveFlag::Castle,
        forall|i: int|
            0 <= i < pawn_moves(g, s).len() ==> pawn_described(g, #[trigger] pawn_moves(g, s)[i]),
{
    let double = pawn_double_step(g, s);
    let last_but_one = if g.us == PieceColor::White {
        6int
    } else {
        1int
    };
    let promoting = rank_of(s) == last_but_one;
    let targets = pawn_targets(g, s);
    let single = if promoting {
        promotions_to(s, targets, g.quiets)
    } else {
        moves_to(s, targets, MoveFlag::Normal)
    };
    let passing = pawn_en_passant(g, s);
    lemma_squares_rising(targets, 0);
    if promoting {
        lemma_promotions_over(s, squares_of(targets), g.quiets, targets);
    } else {
        lemma_moves_over(s, squares_of(targets), MoveFlag::Normal, targets);
    }
    if double.len() > 0 {
        lemma_encode_fields(s, s + 2 * forward(g.us), MoveFlag::PawnTwoUp);
    }
    if passing.len() > 0 {
        lemma_encode_fields(s, g.en_passant as int, MoveFlag::EnPassant);
    }
    assert forall|i: int| 0 <= i < single.len() implies (#[trigger] single[i]).from() == s && (
    single[i].flag() == MoveFlag::Normal || single[i].flag().is_promotion()) && pawn_described(
        g,
        single[i],
    ) by {
        assert(bit(targets, single[i].to()));
    }
    assert forall|i: int, j: int| 0 <= i < double.len() && 0 <= j < single.len() implies double[i]
        != single[j] by {
        assert(single[j].flag() == MoveFlag::Normal || single[j].flag().is_promotion());
    }
    lemma_distinct_join(double, single);
    let first = double + single;
    assert forall|i: int| 0 <= i < first.len() implies (#[trigger] first[i]).from() == s
        && first[i].flag() != MoveFlag::EnPassant && first[i].flag() != MoveFlag::Castle
        && pawn_described(g, first[i]) by {
        if i >= double.len() {
            let j = i - double.len();
            assert(single[j].flag() == MoveFlag::Normal || single[j].flag().is_promotion());
            assert(pawn_described(g, single[j]));
        } else {
            assert(double =~= seq![first[i]]);
        }
    }
    assert forall|i: int, j: int| 0 <= i < first.len() && 0 <= j < passing.len() implies first[i]
        != passing[j] by {
        assert(first[i].flag() != MoveFlag::EnPassant);
    }
    lemma_distinct_join(first, passing);
    let all = pawn_moves(g, s);
    assert(all == first + passing);
    assert forall|i: int| 0 <= i < all.len() implies (#[trigger] all[i]).from() == s
        && all[i].flag() != MoveFlag::Castle && pawn_described(g, all[i]) by {
        if i < first.len() {
            assert(first[i].from() == s);
            assert(pawn_described(g, first[i]));
        } else {
            assert(passing =~= seq![all[i]]);
        }
    }
}

/// What the flag of a move of a pawn says of the move: a double step and an
/// en-passant capture are the one that the pawn has, and any other move goes
/// to one of the squares that the pawn reaches, as a promotion exactly from
/// the last rank but one.
pub open spec fn pawn_described(g: MoveMasks, m: Move) -> bool {
    let s = m.from();
    let last_but_one = if g.us == PieceColor::White {
        6int
    } else {
        1int
    };
    match m.flag() {
        MoveFlag::PawnTwoUp => pawn_double_step(g, s) == seq![m],
        MoveFlag::EnPassant => pawn_en_passant(g, s) == seq![m],
        MoveFlag::Castle => false,
        MoveFlag::Normal => bit(pawn_targets(g, s), m.to()) && rank_of(s) != last_but_one,
        _ => bit(pawn_targets(g, s), m.to()) && rank_of(s) == last_but_one && (g.quiets || m.flag()
            == MoveFlag::PromoteQueen),
    }
}

/// What holds of every move of the pieces of one kind of mover: it starts on
/// one of them, and it says by its flag and its destination what it is.
pub open spec fn described(g: MoveMasks, mover: Mover, m: Move) -> bool {
    &&& bit(movers(g, mover), m.from())
    &&& m.flag() != MoveFlag::Castle
    &&& mover == Mover::Knight ==> m.flag() == MoveFlag::Normal
    &&& mover == Mover::Diagonal ==> m.flag() == MoveFlag::Normal && bit(
        bishop_attacks(m.from(), g.all),
        m.to(),
    )
    &&& mover == Mover::Orthogonal ==> m.flag() == MoveFlag::Normal && bit(
        rook_attacks(m.from(), g.all),
        m.to(),
    )
    &&& mover == Mover::Pawn ==> pawn_described(g, m)
    &&& mover != Mover::Pawn ==> bit(g.open, m.to())
    &&& mover == Mover::Knight ==> bit(knight_targets(g, m.from()), m.to())
    &&& mover == Mover::Diagonal ==> bit(diagonal_targets(g, m.from()), m.to())
    &&& mover == Mover::Orthogonal ==> bit(orthogonal_targets(g, m.from()), m.to())
}

/// The moves of the pieces on rising squares differ, and each is described.
proof fn lemma_gathered_over(g: MoveMasks, mover: Mover, squares: Seq<int>)
    requires
        rising(squares),
        forall|k: int| 0 <= k < squares.len() ==> bit(movers(g, mover), #[trigger] squares[k]),
    ensures
        distinct(gathered_over(g, mover, squares)),
        forall|i: int|
            0 <= i < gathered_over(g, mover, squares).len() ==> described(
                g,
                mover,
                #[trigger] gathered_over(g, mover, squares)[i],
            ) && squares.len() > 0 && gathered_over(g, mover, squares)[i].from()
                <= squares.last(),
    decreases squares.len(),
{
    broadcast use group_bits;

    if squares.len() > 0 {
        let before = squares.drop_last();
        lemma_gathered_over(g, mover, before);
        let earlier = gathered_over(g, mover, before);
        let s = squares.last();
        let block = moves_of(g, mover, s);
        lemma_moves_of(g, mover, s);
        assert forall|i: int| 0 <= i < earlier.len() implies (#[trigger] earlier[i]).from() < s by {
            assert(earlier[i].from() <= before.last());
            assert(before.last() == squares[squares.len() - 2]);
        }
        assert forall|i: int, j: int| 0 <= i < earlier.len() && 0 <= j < block.len() implies earlier[i]
            != block[j] by {
            assert(earlier[i].from() < s);
            assert(block[j].from() == s);
        }
        lemma_distinct_join(earlier, block);
        let all = gathered_over(g, mover, squares);
        assert(all == earlier + block);
        assert forall|i: int| 0 <= i < all.len() implies described(g, mover, #[trigger] all[i])
            && all[i].from() <= s by {
            if i < earlier.len() {
                assert(described(g, mover, earlier[i]));
                assert(earlier[i].from() < s);
            } else {
                let m = block[i - earlier.len()];
                assert(m.from() == s);
                assert(m.flag() != MoveFlag::Castle);
                assert(bit(movers(g, mover), squares[squares.len() - 1]));
                if mover == Mover::Knight {
                    assert(m.flag() == MoveFlag::Normal && bit(knight_targets(g, s), m.to()));
                }
                if mover == Mover::Diagonal {
                    assert(m.flag() == MoveFlag::Normal && bit(diagonal_targets(g, s), m.to()));
                }
                if mover == Mover::Orthogonal {
                    assert(m.flag() == MoveFlag::Normal && bit(orthogonal_targets(g, s), m.to()));
                }
                if mover == Mover::Pawn {
                    assert(pawn_described(g, m));
                }
            }
        }
    }
}

/// The moves of the pieces of one kind of mover differ, and each is described.
pub proof fn lemma_gathered(g: MoveMasks, mover: Mover)
    ensures
        distinct(gathered(g, mover)),
        forall|i: int|
            0 <= i < gathered(g, mover).len() ==> described(
                g,
                mover,
                #[trigger] gathered(g, mover)[i],
            ),
{
    lemma_squares_rising(movers(g, mover), 0);
    lemma_gathered_over(g, mover, squares_of(movers(g, mover)));
}

/// A square holds a piece of at most one kind.
proof fn lemma_one_kind(p: Position, color: PieceColor, a: PieceType, b: PieceType, s: int)
    requires
        a != PieceType::Empty,
        b != PieceType::Empty,
        bit(pieces(p, a, color), s),
        bit(pieces(p, b, color), s),
    ensures
        a == b,
{
    lemma_bitboard_of(
        |s: int| p.board[s].occupied() && p.board[s].index() == kind_index(a, color),
        s,
    );
    lemma_bitboard_of(
        |s: int| p.board[s].occupied() && p.board[s].index() == kind_index(b, color),
        s,
    );
}

/// Which pieces of the side to move stand where, as far as the parts of
/// the list of moves need it: the king stands on no square of another
/// piece, and knights, sliders and pawns stand on different squares.
proof fn lemma_movers_apart(p: Position, quiets: bool, s: int)
    ensures
        ({
            let g = masks_of(p, quiets);
            &&& s == g.king && s < 64 ==> !bit(g.knights, s) && !bit(g.diagonals, s) && !bit(
                g.orthogonals,
                s,
            ) && !bit(g.pawns, s)
            &&& bit(g.knights, s) ==> !bit(g.diagonals, s) && !bit(g.orthogonals, s) && !bit(
                g.pawns,
                s,
            )
            &&& bit(g.pawns, s) ==> !bit(g.diagonals, s) && !bit(g.orthogonals, s)
            &&& 0 <= g.king <= 64
        }),
{
    broadcast use group_bits;

    let us = p.turn;
    let kings = pieces(p, PieceType::King, us);
    vstd::std_specs::bits::axiom_u64_trailing_zeros(kings);
    if kings != 0 {
        lemma_lowest(kings);
    }
    let on = |kind: PieceType| bit(pieces(p, kind, us), s);
    if on(PieceType::King) {
        if on(PieceType::Knight) {
            lemma_one_kind(p, us, PieceType::King, PieceType::Knight, s);
        }
        if on(PieceType::Bishop) {
            lemma_one_kind(p, us, PieceType::King, PieceType::Bishop, s);
        }
        if on(PieceType::Rook) {
            lemma_one_kind(p, us, PieceType::King, PieceType::Rook, s);
        }
        if on(PieceType::Queen) {
            lemma_one_kind(p, us, PieceType::King, PieceType::Queen, s);
        }
        if on(PieceType::Pawn) {
            lemma_one_kind(p, us, PieceType::King, PieceType::Pawn, s);
        }
    }
    if on(PieceType::Knight) {
        if on(PieceType::Bishop) {
            lemma_one_kind(p, us, PieceType::Knight, PieceType::Bishop, s);
        }
        if on(PieceType::Rook) {
            lemma_one_kind(p, us, PieceType::Knight, PieceType::Rook, s);
        }
        if on(PieceType::Queen) {
            lemma_one_kind(p, us, PieceType::Knight, PieceType::Queen, s);
        }
        if on(PieceType::Pawn) {
            lemma_one_kind(p, us, PieceType::Knight, PieceType::Pawn, s);
        }
    }
    if on(PieceType::Pawn) {
        if on(PieceType::Bishop) {
            lemma_one_kind(p, us, PieceType::Pawn, PieceType::Bishop, s);
        }
        if on(PieceType::Rook) {
            lemma_one_kind(p, us, PieceType::Pawn, PieceType::Rook, s);
        }
        if on(PieceType::Queen) {
            lemma_one_kind(p, us, PieceType::Pawn, PieceType::Queen, s);
        }
    }
}

/// The moves of the pieces of one kind of mover all belong to its part.
proof fn lemma_part_of_gathered(p: Position, quiets: bool, mover: Mover, part: int)
    requires
        part == match mover {
            Mover::Knight => 2int,
            Mover::Diagonal => 3int,
            Mover::Orthogonal => 4int,
            Mover::Pawn => 5int,
        },
    ensures
        distinct(gathered(masks_of(p, quiets), mover)),
        all_in_part(masks_of(p, quiets), gathered(masks_of(p, quiets), mover), part),
{
    let g = masks_of(p, quiets);
    let moves = gathered(g, mover);
    lemma_gathered(g, mover);
    assert forall|i: int| 0 <= i < moves.len() implies part_of(g, #[trigger] moves[i]) == part by {
        let m = moves[i];
        assert(described(g, mover, m));
        lemma_movers_apart(p, quiets, m.from());
        lemma_rook_bishop_disjoint(m.from(), g.all, m.to());
    }
}

/// No move occurs twice in the list of the legal moves of a position.
pub proof fn lemma_legal_moves_distinct(p: Position, quiets: bool)
    ensures
        distinct(legal_moves(p, quiets)),
{
    let g = masks_of(p, quiets);
    lemma_movers_apart(p, quiets, g.king as int);
    let king = king_moves(g);
    if g.king < 64 {
        let targets = crate::rules::king_targets(g);
        lemma_squares_rising(targets, 0);
        lemma_moves_over(g.king as int, squares_of(targets), MoveFlag::Normal, targets);
    }
    assert(distinct(king));
    assert(all_up_to_part(g, king, 0)) by {
        assert forall|i: int| 0 <= i < king.len() implies part_of(g, #[trigger] king[i]) <= 0 by {
            assert(king[i].from() == g.king);
            assert(king[i].flag() == MoveFlag::Normal);
        }
    }
    if !g.double_check {
        let castling = castling_moves(g);
        lemma_encode_fields(4 + home(g.us), 6 + home(g.us), MoveFlag::Castle);
        lemma_encode_fields(4 + home(g.us), 2 + home(g.us), MoveFlag::Castle);
        assert(distinct(castling));
        assert(all_in_part(g, castling, 1));
        lemma_join_parts(g, king, castling, 1);
        lemma_part_of_gathered(p, quiets, Mover::Knight, 2);
        lemma_join_parts(g, king + castling, gathered(g, Mover::Knight), 2);
        lemma_part_of_gathered(p, quiets, Mover::Diagonal, 3);
        lemma_join_parts(
            g,
            king + castling + gathered(g, Mover::Knight),
            gathered(g, Mover::Diagonal),
            3,
        );
        lemma_part_of_gathered(p, quiets, Mover::Orthogonal, 4);
        lemma_join_parts(
            g,
            king + castling + gathered(g, Mover::Knight) + gathered(g, Mover::Diagonal),
            gathered(g, Mover::Orthogonal),
            4,
        );
        lemma_part_of_gathered(p, quiets, Mover::Pawn, 5);
        lemma_join_parts(
            g,
            king + castling + gathered(g, Mover::Knight) + gathered(g, Mover::Diagonal)
                + gathered(g, Mover::Orthogonal),
            gathered(g, Mover::Pawn),
            5,
        );
    }
}

} // verus!
