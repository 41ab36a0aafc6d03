//! What stays true of a position through every legal move: one king of
//! each colour, no pawn on the first or the last rank, castling rights only
//! with king and rook at home, and an en-passant target only behind a pawn
//! that has just made a double step.

use vstd::prelude::*;
use crate::bitboard::pawn_capture;
use crate::bits::{bit, group_bits, lemma_bitboard_of, lemma_lowest};
use crate::board_helper::rank_of;
use crate::chess_move::{lemma_encode_fields, Move, MoveFlag};
use crate::piece::{lemma_occupied, PieceColor, PieceType};
use crate::play::usable;
use crate::position::{canonical, corner_of, lemma_made_wf, no_piece, Position};
use crate::rules::{
    castling_moves, forward, gathered, home, kind_index, king_moves, king_targets, legal_moves,
    masks_of, may_castle_king_side, may_castle_queen_side, on_home_rank, pawn_capture_targets,
    pawn_may_step, pawn_targets, pieces, side, squares_of, Mover, KING_SIDE_PATH, QUEEN_SIDE_PATH,
};
use crate::uniqueness::{
    described, lemma_gathered, lemma_moves_over, lemma_squares_rising, pawn_described,
};

verus! {

/// A square holds a piece of a kind and a colour.
pub open spec fn holds(p: Position, s: int, kind: PieceType, color: PieceColor) -> bool {
    0 <= s < 64 && p.board[s].occupied() && p.board[s].kind() == kind && p.board[s].color()
        == color
}

/// A square is empty.
pub open spec fn free(p: Position, s: int) -> bool {
    0 <= s < 64 && p.board[s] == no_piece()
}

/// There is exactly one king of a colour.
pub open spec fn one_king(p: Position, color: PieceColor) -> bool {
    exists|s: int|
        #[trigger] holds(p, s, PieceType::King, color) && forall|t: int|
            #[trigger] holds(p, t, PieceType::King, color) ==> t == s
}

/// No pawn stands on the first or on the last rank.
pub open spec fn pawns_inside(p: Position) -> bool {
    forall|s: int, color: PieceColor|
        #[trigger] holds(p, s, PieceType::Pawn, color) ==> 1 <= rank_of(s) <= 6
}

/// The colour to which a castling right belongs.
pub open spec fn color_of_right(right: int) -> PieceColor {
    if right < 2 {
        PieceColor::White
    } else {
        PieceColor::Black
    }
}

/// Every castling right has its rook in its corner and its king at home.
pub open spec fn rights_grounded(p: Position) -> bool {
    forall|right: int|
        0 <= right < 4 && #[trigger] p.castling[right] ==> holds(
            p,
            corner_of(right),
            PieceType::Rook,
            color_of_right(right),
        ) && holds(
            p,
            4 + home(color_of_right(right)),
            PieceType::King,
            color_of_right(right),
        )
}

/// An en-passant target lies on the third rank before a white pawn or on
/// the sixth before a black one.
pub open spec fn target_grounded(p: Position) -> bool {
    p.en_passant != -1 ==> (rank_of(p.en_passant) == 2 && holds(
        p,
        p.en_passant + 8,
        PieceType::Pawn,
        PieceColor::White,
    )) || (rank_of(p.en_passant) == 5 && holds(
        p,
        p.en_passant - 8,
        PieceType::Pawn,
        PieceColor::Black,
    ))
}

/// The position is one of a game.
pub open spec fn valid(p: Position) -> bool {
    &&& p.wf()
    &&& one_king(p, PieceColor::White)
    &&& one_king(p, PieceColor::Black)
    &&& pawns_inside(p)
    &&& rights_grounded(p)
    &&& target_grounded(p)
}

/// The rank of the pawns of a colour before their last step.
pub open spec fn last_but_one(us: PieceColor) -> int {
    if us == PieceColor::White {
        6
    } else {
        1
    }
}

/// The rank on which the pawns of a colour start.
pub open spec fn start_rank(us: PieceColor) -> int {
    if us == PieceColor::White {
        1
    } else {
        6
    }
}

/// No king stands on a square.
pub open spec fn no_king(p: Position, s: int) -> bool {
    !holds(p, s, PieceType::King, PieceColor::White) && !holds(
        p,
        s,
        PieceType::King,
        PieceColor::Black,
    )
}

/// What a move has to be for the position to stay one of a game: it moves a
/// piece of the side to move, it takes no king, and its flag says what it
/// does. A castling king is at home with its rook in the corner and the
/// squares that both land on free; an en-passant capture lands on a free
/// square behind a pawn of the other side; a double step starts on the
/// start rank and lands on a free square; a pawn goes one rank forward, and
/// from the last rank but one only as a promotion.
pub open spec fn sound(p: Position, m: Move) -> bool {
    let us = p.turn;
    let from = m.from();
    let to = m.to();
    let piece = p.board[from];
    &&& piece.occupied() && piece.color() == us
    &&& match m.flag() {
        MoveFlag::Castle => {
            &&& holds(p, from, PieceType::King, us) && from == 4 + home(us)
            &&& (to == 6 + home(us) && holds(p, 7 + home(us), PieceType::Rook, us) && free(
                p,
                5 + home(us),
            ) && free(p, 6 + home(us))) || (to == 2 + home(us) && holds(
                p,
                home(us),
                PieceType::Rook,
                us,
            ) && free(p, 3 + home(us)) && free(p, 2 + home(us)))
        },
        MoveFlag::EnPassant => {
            &&& holds(p, from, PieceType::Pawn, us)
            &&& 8 <= to < 56 && free(p, to)
            &&& holds(p, to - forward(us), PieceType::Pawn, us.opposite())
        },
        MoveFlag::PawnTwoUp => {
            &&& holds(p, from, PieceType::Pawn, us)
            &&& rank_of(from) == start_rank(us)
            &&& to == from + 2 * forward(us)
            &&& free(p, to)
        },
        MoveFlag::Normal => {
            &&& no_king(p, to)
            &&& piece.kind() == PieceType::Pawn ==> rank_of(to) * 8 == rank_of(from) * 8 + forward(
                us,
            ) && rank_of(from) != last_but_one(us)
        },
        _ => holds(p, from, PieceType::Pawn, us) && no_king(p, to),
    }
}

/// A sound move leaves one king of each colour.
proof fn lemma_kings_kept(p: Position, m: Move, color: PieceColor)
    requires
        valid(p),
        sound(p, m),
    ensures
        one_king(p.made(m), color),
{
    let q = p.made(m);
    let from = m.from();
    let to = m.to();
    let piece = p.board[from];
    let k = choose|s: int|
        #[trigger] holds(p, s, PieceType::King, color) && forall|t: int|
            #[trigger] holds(p, t, PieceType::King, color) ==> t == s;
    lemma_occupied(piece);
    let moved = holds(p, from, PieceType::King, color);
    let s = if moved {
        to
    } else {
        k
    };
    assert(holds(p, k, PieceType::King, color));
    if moved {
        assert(k == from);
        assert(m.flag() == MoveFlag::Castle || m.flag() == MoveFlag::Normal);
        assert(holds(q, to, PieceType::King, color));
    } else {
        assert(k != from);
        assert(k != to) by {
            if m.flag() == MoveFlag::Normal || m.flag().is_promotion() {
                assert(no_king(p, to));
            }
        }
        assert(q.board[k] == p.board[k]);
        assert(holds(q, k, PieceType::King, color));
    }
    assert forall|t: int| #[trigger] holds(q, t, PieceType::King, color) implies t == s by {
        if t == to && m.flag() != MoveFlag::EnPassant {
            assert(q.board[to] == p.placed(m));
            assert(moved);
        } else if q.board[t] == p.board[t] {
            assert(holds(p, t, PieceType::King, color));
            assert(t == k);
            if moved {
                assert(q.board[from] == no_piece());
            }
        } else {
            assert(q.board[t] == no_piece() || (m.flag() == MoveFlag::Castle && q.board[t].kind()
                == PieceType::Rook) || (m.flag() == MoveFlag::EnPassant && t == to));
        }
    }
}

/// A sound move leaves no pawn on the first or the last rank.
proof fn lemma_pawns_kept(p: Position, m: Move)
    requires
        valid(p),
        sound(p, m),
    ensures
        pawns_inside(p.made(m)),
{
    let q = p.made(m);
    let from = m.from();
    let to = m.to();
    let piece = p.board[from];
    lemma_occupied(piece);
    assert forall|s: int, color: PieceColor| #[trigger]
        holds(q, s, PieceType::Pawn, color) implies 1 <= rank_of(s) <= 6 by {
        if q.board[s] == p.board[s] {
            assert(holds(p, s, PieceType::Pawn, color));
        } else if s == to {
            if m.flag() == MoveFlag::Normal {
                assert(holds(p, from, PieceType::Pawn, p.turn));
                assert(1 <= rank_of(from) <= 6);
            } else if m.flag() == MoveFlag::PawnTwoUp {
                assert(holds(p, from, PieceType::Pawn, p.turn));
            }
        }
    }
}

/// A sound move leaves every castling right that remains with its rook and
/// its king at home.
proof fn lemma_rights_kept(p: Position, m: Move)
    requires
        valid(p),
        sound(p, m),
    ensures
        rights_grounded(p.made(m)),
{
    let q = p.made(m);
    let from = m.from();
    let to = m.to();
    let piece = p.board[from];
    lemma_occupied(piece);
    assert forall|right: int| 0 <= right < 4 && #[trigger] q.castling[right] implies holds(
        q,
        corner_of(right),
        PieceType::Rook,
        color_of_right(right),
    ) && holds(q, 4 + home(color_of_right(right)), PieceType::King, color_of_right(right)) by {
        let color = color_of_right(right);
        let corner = corner_of(right);
        let throne = 4 + home(color);
        assert(p.castling[right]);
        assert(holds(p, corner, PieceType::Rook, color));
        assert(holds(p, throne, PieceType::King, color));
        if m.flag() != MoveFlag::EnPassant {
            assert(!p.loses_right(m, right));
        }
        assert(from != corner && from != throne);
        assert(to != throne) by {
            if m.flag() == MoveFlag::Normal || m.flag().is_promotion() {
                assert(no_king(p, to));
            }
        }
        assert(to != corner) by {
            if to == corner && m.flag() != MoveFlag::EnPassant && m.flag() != MoveFlag::Castle
                && m.flag() != MoveFlag::PawnTwoUp {
                assert(p.captured(m) == p.board[to]);
            }
        }
        assert(q.board[corner] == p.board[corner]);
        assert(q.board[throne] == p.board[throne]);
    }
}

/// A sound move leaves a target only behind the pawn that made a double step.
proof fn lemma_target_kept(p: Position, m: Move)
    requires
        valid(p),
        sound(p, m),
    ensures
        target_grounded(p.made(m)),
{
    let q = p.made(m);
    let from = m.from();
    lemma_occupied(p.board[from]);
    if m.flag() == MoveFlag::PawnTwoUp {
        assert(holds(p, from, PieceType::Pawn, p.turn));
        assert(q.board[m.to()] == p.board[from]);
    }
}

/// A sound move leads from a position of a game to a position of a game.
pub proof fn lemma_sound_move_keeps_valid(p: Position, m: Move)
    requires
        valid(p),
        sound(p, m),
    ensures
        valid(p.made(m)),
{
    lemma_occupied(p.board[m.from()]);
    lemma_made_wf(p, m);
    lemma_kings_kept(p, m, PieceColor::White);
    lemma_kings_kept(p, m, PieceColor::Black);
    lemma_pawns_kept(p, m);
    lemma_rights_kept(p, m);
    lemma_target_kept(p, m);
}

/// A member of the bitboard of a kind and colour holds such a piece.
pub proof fn lemma_holds(p: Position, kind: PieceType, color: PieceColor, s: int)
    requires
        kind != PieceType::Empty,
        bit(pieces(p, kind, color), s),
    ensures
        holds(p, s, kind, color),
{
    lemma_bitboard_of(
        |s: int| p.board[s].occupied() && p.board[s].index() == kind_index(kind, color),
        s,
    );
    lemma_occupied(p.board[s]);
}

/// A square that a piece may go to holds no king and no piece of the side to move.
pub proof fn lemma_open_square(p: Position, quiets: bool, s: int)
    requires
        0 <= s < 64,
        bit(masks_of(p, quiets).open, s),
    ensures
        no_king(p, s),
        !(p.board[s].occupied() && p.board[s].color() == p.turn),
{
    broadcast use group_bits;

    let us = p.turn;
    let them = us.opposite();
    lemma_bitboard_of(|s: int| p.board[s].occupied() && p.board[s].color() == us, s);
    lemma_bitboard_of(
        |s: int| p.board[s].occupied() && p.board[s].index() == kind_index(PieceType::King, them),
        s,
    );
    if p.board[s].occupied() {
        lemma_occupied(p.board[s]);
    }
}

/// A square that is in no bitboard of a side is empty.
pub proof fn lemma_free(p: Position, s: int)
    requires
        p.wf(),
        0 <= s < 64,
        !bit(side(p, PieceColor::White) | side(p, PieceColor::Black), s),
    ensures
        free(p, s),
{
    broadcast use group_bits;

    lemma_bitboard_of(|s: int| p.board[s].occupied() && p.board[s].color() == PieceColor::White, s);
    lemma_bitboard_of(|s: int| p.board[s].occupied() && p.board[s].color() == PieceColor::Black, s);
    assert(canonical(p.board[s]));
}

/// The squares of the castling paths on the first rank and on the last.
pub proof fn lemma_path_members(j: u64)
    by (bit_vector)
    requires
        j < 64,
    ensures
        ((0x60u64 >> j) & 1 == 1) == (j == 5 || j == 6),
        ((0x0eu64 >> j) & 1 == 1) == (j == 1 || j == 2 || j == 3),
        ((0x0cu64 >> j) & 1 == 1) == (j == 2 || j == 3),
        (((0x60u64 << 56u64) >> j) & 1 == 1) == (j == 61 || j == 62),
        (((0x0eu64 << 56u64) >> j) & 1 == 1) == (j == 57 || j == 58 || j == 59),
        (((0x0cu64 << 56u64) >> j) & 1 == 1) == (j == 58 || j == 59),
{
}

/// A move of a knight, a slider or a pawn that is described as the
/// generator makes it is sound.
proof fn lemma_described_sound(p: Position, quiets: bool, mover: Mover, m: Move)
    requires
        p.wf(),
        described(masks_of(p, quiets), mover, m),
    ensures
        sound(p, m),
{
    broadcast use group_bits;

    let g = masks_of(p, quiets);
    let us = p.turn;
    let them = us.opposite();
    let s = m.from();
    let to = m.to();
    match mover {
        Mover::Knight => {
            lemma_holds(p, PieceType::Knight, us, s);
            lemma_open_square(p, quiets, to);
        },
        Mover::Diagonal => {
            if bit(pieces(p, PieceType::Bishop, us), s) {
                lemma_holds(p, PieceType::Bishop, us, s);
            } else {
                lemma_holds(p, PieceType::Queen, us, s);
            }
            lemma_open_square(p, quiets, to);
        },
        Mover::Orthogonal => {
            if bit(pieces(p, PieceType::Rook, us), s) {
                lemma_holds(p, PieceType::Rook, us, s);
            } else {
                lemma_holds(p, PieceType::Queen, us, s);
            }
            lemma_open_square(p, quiets, to);
        },
        Mover::Pawn => {
            lemma_holds(p, PieceType::Pawn, us, s);
            assert(pawn_described(g, m));
            if m.flag() == MoveFlag::PawnTwoUp {
                let step = crate::rules::pawn_double_step(g, s);
                assert(step.len() == 1 && step[0] == m);
                assert(rank_of(s) == start_rank(us));
                lemma_encode_fields(s, s + 2 * forward(us), MoveFlag::PawnTwoUp);
                lemma_free(p, s + 2 * forward(us));
            } else if m.flag() == MoveFlag::EnPassant {
                let capture = crate::rules::pawn_en_passant(g, s);
                assert(capture.len() == 1 && capture[0] == m);
                assert(crate::rules::en_passant_allowed(g, s));
                lemma_encode_fields(s, g.en_passant as int, MoveFlag::EnPassant);
                lemma_free(p, g.en_passant as int);
                lemma_holds(p, PieceType::Pawn, them, g.en_passant - forward(us));
            } else {
                assert(bit(pawn_targets(g, s), to));
                if bit(pawn_capture_targets(g, s), to) {
                    lemma_open_square(p, quiets, to);
                    lemma_bitboard_of(|t: int| pawn_capture(us, s, t), to);
                } else {
                    assert(pawn_may_step(g, s));
                    assert(to == s + forward(us));
                    lemma_free(p, to);
                }
            }
        },
    }
}

/// Every legal move of a position is sound.
pub proof fn lemma_legal_moves_sound(p: Position, quiets: bool)
    requires
        p.wf(),
    ensures
        forall|i: int|
            0 <= i < legal_moves(p, quiets).len() ==> sound(
                p,
                #[trigger] legal_moves(p, quiets)[i],
            ),
{
    broadcast use group_bits;

    let g = masks_of(p, quiets);
    let us = p.turn;
    let kings = pieces(p, PieceType::King, us);
    vstd::std_specs::bits::axiom_u64_trailing_zeros(kings);
    let king = king_moves(g);
    if g.king < 64 {
        lemma_lowest(kings);
        lemma_holds(p, PieceType::King, us, g.king as int);
        let targets = king_targets(g);
        lemma_squares_rising(targets, 0);
        lemma_moves_over(g.king as int, squares_of(targets), MoveFlag::Normal, targets);
    }
    assert forall|i: int| 0 <= i < king.len() implies sound(p, #[trigger] king[i]) by {
        assert(king[i].from() == g.king);
        assert(king[i].flag() == MoveFlag::Normal);
        assert(bit(king_targets(g), king[i].to()));
        lemma_open_square(p, quiets, king[i].to());
    }
    let castling = castling_moves(g);
    assert forall|i: int| 0 <= i < castling.len() implies sound(p, #[trigger] castling[i]) by {
        lemma_path_members((5 + home(us)) as u64);
        lemma_path_members((6 + home(us)) as u64);
        lemma_path_members((2 + home(us)) as u64);
        lemma_path_members((3 + home(us)) as u64);
        lemma_encode_fields(4 + home(us), 6 + home(us), MoveFlag::Castle);
        lemma_encode_fields(4 + home(us), 2 + home(us), MoveFlag::Castle);
        let m = castling[i];
        if may_castle_king_side(g) && m == Move::encode(4 + home(us), 6 + home(us), MoveFlag::Castle) {
            let path = on_home_rank(KING_SIDE_PATH, us);
            assert(bit(path, 5 + home(us)) && bit(path, 6 + home(us)));
            assert(!bit(g.all & path, 5 + home(us)));
            assert(!bit(g.all & path, 6 + home(us)));
            lemma_free(p, 5 + home(us));
            lemma_free(p, 6 + home(us));
            lemma_holds(p, PieceType::Rook, us, 7 + home(us));
        } else {
            assert(may_castle_queen_side(g));
            assert(m == Move::encode(4 + home(us), 2 + home(us), MoveFlag::Castle));
            let path = on_home_rank(QUEEN_SIDE_PATH, us);
            assert(bit(path, 3 + home(us)) && bit(path, 2 + home(us)));
            assert(!bit(g.all & path, 3 + home(us)));
            assert(!bit(g.all & path, 2 + home(us)));
            lemma_free(p, 3 + home(us));
            lemma_free(p, 2 + home(us));
            lemma_holds(p, PieceType::Rook, us, home(us));
        }
    }
    lemma_gathered(g, Mover::Knight);
    lemma_gathered(g, Mover::Diagonal);
    lemma_gathered(g, Mover::Orthogonal);
    lemma_gathered(g, Mover::Pawn);
    let knights = gathered(g, Mover::Knight);
    let diagonals = gathered(g, Mover::Diagonal);
    let orthogonals = gathered(g, Mover::Orthogonal);
    let pawns = gathered(g, Mover::Pawn);
    assert forall|i: int| 0 <= i < knights.len() implies sound(p, #[trigger] knights[i]) by {
        lemma_described_sound(p, quiets, Mover::Knight, knights[i]);
    }
    assert forall|i: int| 0 <= i < diagonals.len() implies sound(p, #[trigger] diagonals[i]) by {
        lemma_described_sound(p, quiets, Mover::Diagonal, diagonals[i]);
    }
    assert forall|i: int| 0 <= i < orthogonals.len() implies sound(p, #[trigger] orthogonals[i]) by {
        lemma_described_sound(p, quiets, Mover::Orthogonal, orthogonals[i]);
    }
    assert forall|i: int| 0 <= i < pawns.len() implies sound(p, #[trigger] pawns[i]) by {
        lemma_described_sound(p, quiets, Mover::Pawn, pawns[i]);
    }
    let moves = legal_moves(p, quiets);
    assert forall|i: int| 0 <= i < moves.len() implies sound(p, #[trigger] moves[i]) by {
        if g.double_check {
            assert(moves[i] == king[i]);
        } else {
            let a = king.len();
            let b = a + castling.len();
            let c = b + knights.len();
            let d = c + diagonals.len();
            let e = d + orthogonals.len();
            if i < a {
                assert(moves[i] == king[i]);
            } else if i < b {
                assert(moves[i] == castling[i - a]);
            } else if i < c {
                assert(moves[i] == knights[i - b]);
            } else if i < d {
                assert(moves[i] == diagonals[i - c]);
            } else if i < e {
                assert(moves[i] == orthogonals[i - d]);
            } else {
                assert(moves[i] == pawns[i - e]);
            }
        }
    }
}

/// A sound move can be made and taken back.
pub proof fn lemma_sound_usable(p: Position, m: Move)
    requires
        p.wf(),
        sound(p, m),
    ensures
        usable(p, m),
{
    lemma_occupied(p.board[m.from()]);
}

/// Every legal move of a position can be made and taken back: its origin
/// holds a piece, a promotion moves a pawn, an en-passant capture lands on
/// an empty square, and a castling king finds the square of the rook free.
pub proof fn lemma_legal_moves_usable(p: Position, quiets: bool)
    requires
        p.wf(),
    ensures
        forall|i: int|
            0 <= i < legal_moves(p, quiets).len() ==> usable(
                p,
                #[trigger] legal_moves(p, quiets)[i],
            ),
{
    lemma_legal_moves_sound(p, quiets);
    let moves = legal_moves(p, quiets);
    assert forall|i: int| 0 <= i < moves.len() implies usable(p, #[trigger] moves[i]) by {
        lemma_sound_usable(p, moves[i]);
    }
}

/// Every legal move leads from a position of a game to a position of a
/// game: there is still one king of each colour, no pawn stands on the
/// first or the last rank, every castling right that remains has its rook
/// and its king at home, and a target lies behind the pawn that has just
/// made a double step.
pub proof fn lemma_legal_moves_keep_valid(p: Position, quiets: bool, i: int)
    requires
        valid(p),
        0 <= i < legal_moves(p, quiets).len(),
    ensures
        valid(p.made(legal_moves(p, quiets)[i])),
{
    lemma_legal_moves_sound(p, quiets);
    lemma_sound_move_keeps_valid(p, legal_moves(p, quiets)[i]);
}

} // verus!
