//! Which moves the lists of the generator hold: a move to every square of
//! a bitboard of destinations, and the moves of every piece of a bitboard
//! of movers.

use vstd::prelude::*;
use crate::bits::bit;
use crate::board_helper::rank_of;
use crate::chess_move::{lemma_encode_fields, Move, MoveFlag};
use crate::movement::encoded;
use crate::piece::PieceColor;
use crate::rules::{
    castling_moves, diagonal_targets, forward, gathered, gathered_over, home, king_moves,
    king_targets, knight_targets, movers, moves_for, moves_of, moves_over, moves_to,
    orthogonal_targets, pawn_double_step, pawn_en_passant, pawn_moves, pawn_targets, promotions,
    promotions_over, promotions_to, squares_from, squares_of, MoveMasks, Mover,
};
use crate::uniqueness::{described, lemma_gathered, lemma_squares_rising};

verus! {

/// The squares of a bitboard from `i` on hold every member from `i` on.
pub proof fn lemma_squares_hold(x: u64, i: int, t: int)
    requires
        0 <= i <= t < 64,
        bit(x, t),
    ensures
        squares_from(x, i).contains(t),
    decreases 64 - i,
{
    let rest = squares_from(x, i + 1);
    if t == i {
        assert(squares_from(x, i)[0] == t);
    } else {
        lemma_squares_hold(x, i + 1, t);
        let k = choose|k: int| 0 <= k < rest.len() && rest[k] == t;
        if bit(x, i) {
            assert(squares_from(x, i)[k + 1] == t);
        } else {
            assert(squares_from(x, i)[k] == t);
        }
    }
}

/// The moves to the squares of a sequence hold the move to each of them.
pub proof fn lemma_moves_over_hold(from: int, targets: Seq<int>, flag: MoveFlag, t: int)
    requires
        targets.contains(t),
    ensures
        moves_over(from, targets, flag).contains(Move::encode(from, t, flag)),
    decreases targets.len(),
{
    let all = moves_over(from, targets, flag);
    let before = moves_over(from, targets.drop_last(), flag);
    assert(all.len() == before.len() + 1);
    if targets.last() == t {
        assert(all[all.len() - 1] == Move::encode(from, t, flag));
    } else {
        let k = choose|k: int| 0 <= k < targets.len() && targets[k] == t;
        assert(targets.drop_last()[k] == t);
        lemma_moves_over_hold(from, targets.drop_last(), flag, t);
        let j = choose|j: int| 0 <= j < before.len() && before[j] == Move::encode(from, t, flag);
        assert(all[j] == Move::encode(from, t, flag));
    }
}

/// The moves to the squares of a bitboard hold the move to each member.
pub proof fn lemma_moves_to_hold(from: int, mask: u64, flag: MoveFlag, t: int)
    requires
        bit(mask, t),
        0 <= t < 64,
    ensures
        moves_to(from, mask, flag).contains(Move::encode(from, t, flag)),
{
    lemma_squares_hold(mask, 0, t);
    lemma_moves_over_hold(from, squares_of(mask), flag, t);
}

/// A flag is one of the promotions that are generated: each of the four,
/// or without quiet moves the promotion to a queen.
pub open spec fn promotion_wanted(flag: MoveFlag, quiets: bool) -> bool {
    flag == MoveFlag::PromoteQueen || (quiets && (flag == MoveFlag::PromoteKnight || flag
        == MoveFlag::PromoteBishop || flag == MoveFlag::PromoteRook))
}

/// The promotions on the squares of a sequence hold each wanted promotion
/// on each of them.
pub proof fn lemma_promotions_over_hold(
    from: int,
    targets: Seq<int>,
    quiets: bool,
    flag: MoveFlag,
    t: int,
)
    requires
        targets.contains(t),
        promotion_wanted(flag, quiets),
    ensures
        promotions_over(from, targets, quiets).contains(Move::encode(from, t, flag)),
    decreases targets.len(),
{
    let all = promotions_over(from, targets, quiets);
    let before = promotions_over(from, targets.drop_last(), quiets);
    let last = promotions(from, targets.last(), quiets);
    let wanted = Move::encode(from, t, flag);
    assert(all == before + last);
    if targets.last() == t {
        let k: int = if !quiets || flag == MoveFlag::PromoteQueen {
            last.len() - 1
        } else if flag == MoveFlag::PromoteKnight {
            0
        } else if flag == MoveFlag::PromoteBishop {
            1
        } else {
            2
        };
        assert(last[k] == wanted);
        assert(all[before.len() + k] == wanted);
    } else {
        let k = choose|k: int| 0 <= k < targets.len() && targets[k] == t;
        assert(targets.drop_last()[k] == t);
        lemma_promotions_over_hold(from, targets.drop_last(), quiets, flag, t);
        let j = choose|j: int| 0 <= j < before.len() && before[j] == wanted;
        assert(all[j] == wanted);
    }
}

/// The promotions on the squares of a bitboard hold each wanted promotion
/// on each member.
pub proof fn lemma_promotions_to_hold(from: int, mask: u64, quiets: bool, flag: MoveFlag, t: int)
    requires
        bit(mask, t),
        0 <= t < 64,
        promotion_wanted(flag, quiets),
    ensures
        promotions_to(from, mask, quiets).contains(Move::encode(from, t, flag)),
{
    lemma_squares_hold(mask, 0, t);
    lemma_promotions_over_hold(from, squares_of(mask), quiets, flag, t);
}

/// A sequence holds what a part of it holds.
pub proof fn lemma_joined_hold(a: Seq<Move>, b: Seq<Move>, m: Move)
    requires
        a.contains(m) || b.contains(m),
    ensures
        (a + b).contains(m),
{
    if a.contains(m) {
        let k = choose|k: int| 0 <= k < a.len() && a[k] == m;
        assert((a + b)[k] == m);
    } else {
        let k = choose|k: int| 0 <= k < b.len() && b[k] == m;
        assert((a + b)[a.len() + k] == m);
    }
}

/// The moves gathered over a sequence of squares hold the moves of the
/// piece on each of them.
pub proof fn lemma_gathered_over_hold(
    g: MoveMasks,
    mover: Mover,
    squares: Seq<int>,
    s: int,
    m: Move,
)
    requires
        squares.contains(s),
        moves_of(g, mover, s).contains(m),
    ensures
        gathered_over(g, mover, squares).contains(m),
    decreases squares.len(),
{
    let before = gathered_over(g, mover, squares.drop_last());
    let last = moves_of(g, mover, squares.last());
    if squares.last() != s {
        let k = choose|k: int| 0 <= k < squares.len() && squares[k] == s;
        assert(squares.drop_last()[k] == s);
        lemma_gathered_over_hold(g, mover, squares.drop_last(), s, m);
    }
    lemma_joined_hold(before, last, m);
}

/// The moves of one kind of mover hold the moves of each piece of that kind.
pub proof fn lemma_gathered_hold(g: MoveMasks, mover: Mover, s: int, m: Move)
    requires
        0 <= s < 64,
        bit(movers(g, mover), s),
        moves_of(g, mover, s).contains(m),
    ensures
        gathered(g, mover).contains(m),
{
    lemma_squares_hold(movers(g, mover), 0, s);
    lemma_gathered_over_hold(g, mover, squares_of(movers(g, mover)), s, m);
}

/// The moves that the masks allow hold the moves of the king, and outside
/// a double check the castling moves and the moves of every other piece.
pub proof fn lemma_moves_for_hold(g: MoveMasks, m: Move)
    requires
        king_moves(g).contains(m) || (!g.double_check && (castling_moves(g).contains(m) || gathered(
            g,
            Mover::Knight,
        ).contains(m) || gathered(g, Mover::Diagonal).contains(m) || gathered(
            g,
            Mover::Orthogonal,
        ).contains(m) || gathered(g, Mover::Pawn).contains(m))),
    ensures
        moves_for(g).contains(m),
{
    let a = king_moves(g);
    let b = castling_moves(g);
    let c = gathered(g, Mover::Knight);
    let d = gathered(g, Mover::Diagonal);
    let e = gathered(g, Mover::Orthogonal);
    let f = gathered(g, Mover::Pawn);
    if !g.double_check {
        if a.contains(m) || b.contains(m) {
            lemma_joined_hold(a, b, m);
        }
        if c.contains(m) || (a + b).contains(m) {
            lemma_joined_hold(a + b, c, m);
        }
        if d.contains(m) || (a + b + c).contains(m) {
            lemma_joined_hold(a + b + c, d, m);
        }
        if e.contains(m) || (a + b + c + d).contains(m) {
            lemma_joined_hold(a + b + c + d, e, m);
        }
        if f.contains(m) || (a + b + c + d + e).contains(m) {
            lemma_joined_hold(a + b + c + d + e, f, m);
        }
    }
}

/// Every generated move is a move of the king or a castling move, or it
/// is described as a move of a knight, a slider or a pawn.
pub proof fn lemma_listed_parts(g: MoveMasks, i: int)
    requires
        0 <= i < moves_for(g).len(),
    ensures
        king_moves(g).contains(moves_for(g)[i]) || castling_moves(g).contains(moves_for(g)[i])
            || described(g, Mover::Knight, moves_for(g)[i]) || described(
            g,
            Mover::Diagonal,
            moves_for(g)[i],
        ) || described(g, Mover::Orthogonal, moves_for(g)[i]) || described(
            g,
            Mover::Pawn,
            moves_for(g)[i],
        ),
{
    let m = moves_for(g)[i];
    let king = king_moves(g);
    let castling = castling_moves(g);
    let knights = gathered(g, Mover::Knight);
    let diagonals = gathered(g, Mover::Diagonal);
    let orthogonals = gathered(g, Mover::Orthogonal);
    let pawns = gathered(g, Mover::Pawn);
    lemma_gathered(g, Mover::Knight);
    lemma_gathered(g, Mover::Diagonal);
    lemma_gathered(g, Mover::Orthogonal);
    lemma_gathered(g, Mover::Pawn);
    if i < king.len() {
        assert(m == king[i]);
    } else {
        let a = i - king.len();
        let b = a - castling.len();
        let c = b - knights.len();
        let d = c - diagonals.len();
        let e = d - orthogonals.len();
        if a < castling.len() {
            assert(m == castling[a]);
        } else if b < knights.len() {
            assert(m == knights[b]);
        } else if c < diagonals.len() {
            assert(m == diagonals[c]);
        } else if d < orthogonals.len() {
            assert(m == orthogonals[d]);
        } else {
            assert(m == pawns[e]);
        }
    }
}

/// The moves to squares of the board from a square of the board are
/// encodings.
pub proof fn lemma_moves_over_encoded(from: int, targets: Seq<int>, flag: MoveFlag)
    requires
        0 <= from < 64,
        forall|k: int| 0 <= k < targets.len() ==> 0 <= #[trigger] targets[k] < 64,
    ensures
        forall|i: int|
            0 <= i < moves_over(from, targets, flag).len() ==> encoded(
                #[trigger] moves_over(from, targets, flag)[i],
            ),
    decreases targets.len(),
{
    if targets.len() > 0 {
        let before = targets.drop_last();
        assert forall|k: int| 0 <= k < before.len() implies 0 <= #[trigger] before[k] < 64 by {
            assert(before[k] == targets[k]);
        }
        lemma_moves_over_encoded(from, before, flag);
        lemma_encode_fields(from, targets.last(), flag);
        let earlier = moves_over(from, before, flag);
        let all = moves_over(from, targets, flag);
        assert forall|i: int| 0 <= i < all.len() implies encoded(#[trigger] all[i]) by {
            if i < earlier.len() {
                assert(all[i] == earlier[i]);
            } else {
                assert(all[i] == Move::encode(from, targets.last(), flag));
            }
        }
    }
}

/// The promotions on squares of the board from a square of the board are
/// encodings.
pub proof fn lemma_promotions_over_encoded(from: int, targets: Seq<int>, quiets: bool)
    requires
        0 <= from < 64,
        forall|k: int| 0 <= k < targets.len() ==> 0 <= #[trigger] targets[k] < 64,
    ensures
        forall|i: int|
            0 <= i < promotions_over(from, targets, quiets).len() ==> encoded(
                #[trigger] promotions_over(from, targets, quiets)[i],
            ),
    decreases targets.len(),
{
    if targets.len() > 0 {
        let before = targets.drop_last();
        let t = targets.last();
        assert forall|k: int| 0 <= k < before.len() implies 0 <= #[trigger] before[k] < 64 by {
            assert(before[k] == targets[k]);
        }
        lemma_promotions_over_encoded(from, before, quiets);
        lemma_encode_fields(from, t, MoveFlag::PromoteKnight);
        lemma_encode_fields(from, t, MoveFlag::PromoteBishop);
        lemma_encode_fields(from, t, MoveFlag::PromoteRook);
        lemma_encode_fields(from, t, MoveFlag::PromoteQueen);
        let earlier = promotions_over(from, before, quiets);
        let block = promotions(from, t, quiets);
        let all = promotions_over(from, targets, quiets);
        assert forall|i: int| 0 <= i < all.len() implies encoded(#[trigger] all[i]) by {
            if i < earlier.len() {
                assert(all[i] == earlier[i]);
            } else {
                assert(all[i] == block[i - earlier.len()]);
            }
        }
    }
}

/// The moves of one piece are encodings.
pub proof fn lemma_moves_of_encoded(g: MoveMasks, mover: Mover, s: int)
    requires
        0 <= s < 64,
    ensures
        forall|i: int|
            0 <= i < moves_of(g, mover, s).len() ==> encoded(#[trigger] moves_of(g, mover, s)[i]),
{
    let targets = match mover {
        Mover::Knight => knight_targets(g, s),
        Mover::Diagonal => diagonal_targets(g, s),
        Mover::Orthogonal => orthogonal_targets(g, s),
        Mover::Pawn => pawn_targets(g, s),
    };
    lemma_squares_rising(targets, 0);
    lemma_moves_over_encoded(s, squares_of(targets), MoveFlag::Normal);
    lemma_promotions_over_encoded(s, squares_of(targets), g.quiets);
    if mover == Mover::Pawn {
        let double = pawn_double_step(g, s);
        let capture = pawn_en_passant(g, s);
        let plain = if rank_of(s) == (if g.us == PieceColor::White {
            6int
        } else {
            1int
        }) {
            promotions_to(s, targets, g.quiets)
        } else {
            moves_to(s, targets, MoveFlag::Normal)
        };
        let all = pawn_moves(g, s);
        assert(all == double + plain + capture);
        if double.len() > 0 {
            lemma_encode_fields(s, s + 2 * forward(g.us), MoveFlag::PawnTwoUp);
        }
        if capture.len() > 0 {
            lemma_encode_fields(s, g.en_passant as int, MoveFlag::EnPassant);
        }
        assert forall|i: int| 0 <= i < all.len() implies encoded(#[trigger] all[i]) by {
            if i < double.len() {
                assert(all[i] == double[i]);
            } else if i < double.len() + plain.len() {
                assert(all[i] == plain[i - double.len()]);
            } else {
                assert(all[i] == capture[i - double.len() - plain.len()]);
            }
        }
    }
}

/// The moves gathered over squares of the board are encodings.
pub proof fn lemma_gathered_over_encoded(g: MoveMasks, mover: Mover, squares: Seq<int>)
    requires
        forall|k: int| 0 <= k < squares.len() ==> 0 <= #[trigger] squares[k] < 64,
    ensures
        forall|i: int|
            0 <= i < gathered_over(g, mover, squares).len() ==> encoded(
                #[trigger] gathered_over(g, mover, squares)[i],
            ),
    decreases squares.len(),
{
    if squares.len() > 0 {
        let before = squares.drop_last();
        assert forall|k: int| 0 <= k < before.len() implies 0 <= #[trigger] before[k] < 64 by {
            assert(before[k] == squares[k]);
        }
        lemma_gathered_over_encoded(g, mover, before);
        lemma_moves_of_encoded(g, mover, squares.last());
        let earlier = gathered_over(g, mover, before);
        let last = moves_of(g, mover, squares.last());
        let all = gathered_over(g, mover, squares);
        assert forall|i: int| 0 <= i < all.len() implies encoded(#[trigger] all[i]) by {
            if i < earlier.len() {
                assert(all[i] == earlier[i]);
            } else {
                assert(all[i] == last[i - earlier.len()]);
            }
        }
    }
}

/// Every generated move is an encoding.
pub proof fn lemma_listed_encoded(g: MoveMasks, i: int)
    requires
        0 <= g.king,
        0 <= i < moves_for(g).len(),
    ensures
        encoded(moves_for(g)[i]),
{
    let m = moves_for(g)[i];
    let home_rank = home(g.us);
    let king = king_moves(g);
    let castling = castling_moves(g);
    let knights = gathered(g, Mover::Knight);
    let diagonals = gathered(g, Mover::Diagonal);
    let orthogonals = gathered(g, Mover::Orthogonal);
    let pawns = gathered(g, Mover::Pawn);
    lemma_squares_rising(g.knights, 0);
    lemma_squares_rising(g.diagonals, 0);
    lemma_squares_rising(g.orthogonals, 0);
    lemma_squares_rising(g.pawns, 0);
    lemma_gathered_over_encoded(g, Mover::Knight, squares_of(g.knights));
    lemma_gathered_over_encoded(g, Mover::Diagonal, squares_of(g.diagonals));
    lemma_gathered_over_encoded(g, Mover::Orthogonal, squares_of(g.orthogonals));
    lemma_gathered_over_encoded(g, Mover::Pawn, squares_of(g.pawns));
    if g.king < 64 {
        lemma_squares_rising(king_targets(g), 0);
        lemma_moves_over_encoded(g.king as int, squares_of(king_targets(g)), MoveFlag::Normal);
    }
    lemma_encode_fields(4 + home_rank, 6 + home_rank, MoveFlag::Castle);
    lemma_encode_fields(4 + home_rank, 2 + home_rank, MoveFlag::Castle);
    if i < king.len() {
        assert(m == king[i]);
    } else {
        let a = i - king.len();
        let b = a - castling.len();
        let c = b - knights.len();
        let d = c - diagonals.len();
        let e = d - orthogonals.len();
        if a < castling.len() {
            assert(m == castling[a]);
        } else if b < knights.len() {
            assert(m == knights[b]);
        } else if c < diagonals.len() {
            assert(m == diagonals[c]);
        } else if d < orthogonals.len() {
            assert(m == orthogonals[d]);
        } else {
            assert(m == pawns[e]);
        }
    }
}

} // verus!
