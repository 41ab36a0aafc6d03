//! The move generator: attack, check and pin masks, and the legal moves.

use vstd::prelude::*;
use crate::bits::{
    bit, group_bits, has_square, lemma_bit_zero_all, lemma_bitboard_of, lemma_bitboard_of_members,
    lowest, single, square_bit,
};
use crate::board::{agree, ChessBoard};
use crate::board_helper::BoardHelper;
use crate::chess_move::{Move, MoveFlag};
use crate::piece::{PieceColor, PieceType};
use crate::rules::{
    attack_mask, attack_set, castling_moves, check_mask, diagonal_targets, double_check,
    en_passant_allowed, gathered, gathered_over, king_moves, king_square, kind_index,
    knight_targets, legal_moves, masks_of, may_castle_king_side, may_castle_queen_side, moves_for,
    moves_from, moves_of, moves_over, moves_to, movers, orthogonal_targets, pawn_capture_targets,
    pawn_double_step, pawn_en_passant, pawn_may_step, pawn_moves, pawn_targets, pieces, pin_mask,
    probe_hit, probe_hits, probe_yield, probed, promotions, promotions_over, promotions_to, side,
    square_in_check, squares_from, squares_of, xray, MoveMasks, Mover, Probe, KING_SIDE_PATH,
    QUEEN_SIDE_PATH, QUEEN_SIDE_WALK,
};
use crate::sliders::{bishop_sees, rook_sees};
use crate::tables::AttackTables;

verus! {

/// Namespace of the generator.
pub struct MoveGenerator;

/// The squares of two bitboards from `i` on are the same if their members from `i` on are.
proof fn lemma_squares_same(x: u64, y: u64, i: int)
    requires
        0 <= i,
        forall|j: int| i <= j < 64 ==> bit(x, j) == bit(y, j),
    ensures
        squares_from(x, i) == squares_from(y, i),
    decreases 64 - i,
{
    if i < 64 {
        lemma_squares_same(x, y, i + 1);
    }
}

/// Squares that are not members can be skipped.
proof fn lemma_squares_skip(x: u64, i: int, l: int)
    requires
        0 <= i <= l,
        forall|j: int| i <= j < l ==> !bit(x, j),
    ensures
        squares_from(x, i) == squares_from(x, l),
    decreases l - i,
{
    if i < l {
        lemma_squares_skip(x, i + 1, l);
    }
}

/// The squares of a bitboard are its lowest square and the squares of the rest.
pub proof fn lemma_squares_pop(x: u64)
    requires
        x != 0,
    ensures
        squares_of(x) == seq![lowest(x)] + squares_of(x & !single(lowest(x))),
{
    let l = lowest(x);
    let rest = x & !single(l);
    crate::bits::lemma_lowest(x);
    crate::bits::lemma_drop_lowest(x);
    assert forall|j: int| 0 <= j < l + 1 implies !bit(rest, j) by {
        assert(bit(rest, j) == (bit(x, j) && j != l));
    }
    assert forall|j: int| l + 1 <= j < 64 implies bit(x, j) == bit(rest, j) by {
        assert(bit(rest, j) == (bit(x, j) && j != l));
    }
    lemma_squares_skip(x, 0, l);
    lemma_squares_same(x, rest, l + 1);
    lemma_squares_skip(rest, 0, l + 1);
}

/// The empty bitboard has no squares.
pub proof fn lemma_squares_empty()
    ensures
        squares_of(0) == Seq::<int>::empty(),
{
    lemma_bit_zero_all();
    lemma_squares_skip(0, 0, 64);
}

/// On a board whose mailbox and bitboards agree, each bitboard holds the
/// squares of its pieces.
pub proof fn lemma_piece_sets(b: &ChessBoard, kind: PieceType, color: PieceColor)
    requires
        b.pieces_ok(),
        kind != PieceType::Empty,
    ensures
        b.bitboards@[kind_index(kind, color)] == pieces(b@, kind, color),
        b.side_bitboards@[color.code()] == side(b@, color),
{
    reveal(agree);
    let idx = kind_index(kind, color);
    assert forall|s: int| 0 <= s < 64 implies bit(b.bitboards@[idx], s) == (
    b.board@[s].occupied() && b.board@[s].index() == idx) by {}
    lemma_bitboard_of_members(
        b.bitboards@[idx],
        |s: int| b@.board[s].occupied() && b@.board[s].index() == kind_index(kind, color),
    );
    assert forall|s: int| 0 <= s < 64 implies bit(b.side_bitboards@[color.code()], s) == (
    b.board@[s].occupied() && b.board@[s].color() == color) by {
        assert(bit(b.side_bitboards@[color.code()], s) == (b.board@[s].occupied()
            && b.board@[s].color().code() == color.code()));
    }
    lemma_bitboard_of_members(
        b.side_bitboards@[color.code()],
        |s: int| b@.board[s].occupied() && b@.board[s].color() == color,
    );
}

/// The squares that a piece of a kind and colour on `square` attacks.
pub fn attack_from(
    tables: &AttackTables,
    kind: PieceType,
    color: PieceColor,
    square: i32,
    occ: u64,
) -> (r: u64)
    requires
        0 <= square < 64,
    ensures
        r == attack_set(kind, color, square as int, occ),
{
    match kind {
        PieceType::Pawn => tables.pawn_attack(color, square),
        PieceType::Knight => tables.knight_attack(square),
        PieceType::Bishop => tables.bishop_attack(square, occ),
        PieceType::Rook => tables.rook_attack(square, occ),
        PieceType::Queen => {
            let r = tables.bishop_attack(square, occ) | tables.rook_attack(square, occ);
            proof {
                broadcast use group_bits, lemma_bitboard_of;

                lemma_bitboard_of_members(
                    r,
                    |t: int|
                        rook_sees(square as int, occ, t) || bishop_sees(square as int, occ, t),
                );
            }
            r
        },
        PieceType::King => tables.king_attack(square),
        PieceType::Empty => 0,
    }
}

/// The state of a probe in the middle of its loop: `acc` and `hits` hold
/// what the pieces of `set` that are no longer in `rem` gave.
spec fn probing(
    probe: Probe,
    kind: PieceType,
    color: PieceColor,
    set: u64,
    occ: u64,
    anchor: int,
    rem: u64,
    acc: u64,
    hits: u64,
) -> bool {
    &&& forall|s: int| bit(rem, s) ==> bit(set, s)
    &&& forall|s: int|
        bit(hits, s) <==> (bit(set, s) && !bit(rem, s) && probe_hit(
            probe,
            kind,
            color,
            s,
            occ,
            anchor,
        ))
    &&& forall|t: int|
        bit(acc, t) <==> exists|s: int|
            #[trigger] bit(set, s) && !bit(rem, s) && probe_hit(probe, kind, color, s, occ, anchor)
                && bit(probe_yield(probe, kind, color, s, occ, anchor), t)
}

proof fn lemma_probe_step(
    probe: Probe,
    kind: PieceType,
    color: PieceColor,
    set: u64,
    occ: u64,
    anchor: int,
    rem: u64,
    acc: u64,
    hits: u64,
    s: int,
)
    requires
        probing(probe, kind, color, set, occ, anchor, rem, acc, hits),
        bit(rem, s),
    ensures
        probe_hit(probe, kind, color, s, occ, anchor) ==> probing(
            probe,
            kind,
            color,
            set,
            occ,
            anchor,
            rem & !single(s),
            acc | probe_yield(probe, kind, color, s, occ, anchor),
            hits | single(s),
        ),
        !probe_hit(probe, kind, color, s, occ, anchor) ==> probing(
            probe,
            kind,
            color,
            set,
            occ,
            anchor,
            rem & !single(s),
            acc,
            hits,
        ),
{
    broadcast use group_bits;

    let rem2 = rem & !single(s);
    let y = probe_yield(probe, kind, color, s, occ, anchor);
    let hit = probe_hit(probe, kind, color, s, occ, anchor);
    let acc2 = if hit {
        acc | y
    } else {
        acc
    };
    assert forall|t: int| bit(acc2, t) implies exists|u: int|
        #[trigger] bit(set, u) && !bit(rem2, u) && probe_hit(probe, kind, color, u, occ, anchor)
            && bit(probe_yield(probe, kind, color, u, occ, anchor), t) by {
        if bit(acc, t) {
            let u = choose|u: int|
                #[trigger] bit(set, u) && !bit(rem, u) && probe_hit(
                    probe,
                    kind,
                    color,
                    u,
                    occ,
                    anchor,
                ) && bit(probe_yield(probe, kind, color, u, occ, anchor), t);
            assert(bit(set, u) && !bit(rem2, u));
        } else {
            assert(bit(set, s) && !bit(rem2, s));
        }
    }
    assert forall|t: int|
        (exists|u: int|
            #[trigger] bit(set, u) && !bit(rem2, u) && probe_hit(
                probe,
                kind,
                color,
                u,
                occ,
                anchor,
            ) && bit(probe_yield(probe, kind, color, u, occ, anchor), t)) implies bit(acc2, t) by {
        let u = choose|u: int|
            #[trigger] bit(set, u) && !bit(rem2, u) && probe_hit(probe, kind, color, u, occ, anchor)
                && bit(probe_yield(probe, kind, color, u, occ, anchor), t);
        if u != s {
            assert(bit(set, u) && !bit(rem, u));
        }
    }
}

/// Asks every piece of a set what a probe wants to know, and returns the
/// union of the answers and the pieces that gave one.
pub fn probe_set(
    tables: &AttackTables,
    probe: Probe,
    kind: PieceType,
    color: PieceColor,
    set: u64,
    occ: u64,
    anchor: i32,
) -> (r: (u64, u64))
    requires
        0 <= anchor < 64,
    ensures
        r.0 == probed(probe, kind, color, set, occ, anchor as int),
        r.1 == probe_hits(probe, kind, color, set, occ, anchor as int),
{
    let mut rem = set;
    let mut acc = 0u64;
    let mut hits = 0u64;
    let slider = kind == PieceType::Bishop || kind == PieceType::Rook;
    let seen_from_anchor = attack_from(tables, kind, color, anchor, occ);
    proof {
        lemma_bit_zero_all();
    }
    while rem != 0
        invariant
            0 <= anchor < 64,
            slider == (kind == PieceType::Bishop || kind == PieceType::Rook),
            seen_from_anchor == attack_set(kind, color, anchor as int, occ),
            probing(probe, kind, color, set, occ, anchor as int, rem, acc, hits),
        decreases rem,
    {
        let ghost before = rem;
        let s = BoardHelper::pop_lsb(&mut rem);
        proof {
            lemma_probe_step(probe, kind, color, set, occ, anchor as int, before, acc, hits, s as int);
        }
        match probe {
            Probe::Attack => {
                acc = acc | attack_from(tables, kind, color, s, occ);
                hits = hits | square_bit(s);
            },
            Probe::Check => {
                let seen = attack_from(tables, kind, color, s, occ);
                if has_square(seen, anchor) {
                    if slider {
                        acc = acc | ((seen & seen_from_anchor) | square_bit(s));
                    } else {
                        acc = acc | square_bit(s);
                    }
                    hits = hits | square_bit(s);
                }
            },
            Probe::Pin => {
                acc = acc | (tables.squares_between(s, anchor) | square_bit(s));
                hits = hits | square_bit(s);
            },
        }
    }
    proof {
        lemma_bit_zero_all();
        assert forall|t: int| 0 <= t < 64 implies bit(acc, t) == (exists|s: int|
            #[trigger] bit(set, s) && probe_hit(probe, kind, color, s, occ, anchor as int) && bit(
                probe_yield(probe, kind, color, s, occ, anchor as int),
                t,
            )) by {
            if bit(acc, t) {
                let s = choose|s: int|
                    #[trigger] bit(set, s) && !bit(rem, s) && probe_hit(
                        probe,
                        kind,
                        color,
                        s,
                        occ,
                        anchor as int,
                    ) && bit(probe_yield(probe, kind, color, s, occ, anchor as int), t);
                assert(bit(set, s));
            }
            if exists|s: int|
                #[trigger] bit(set, s) && probe_hit(probe, kind, color, s, occ, anchor as int)
                    && bit(probe_yield(probe, kind, color, s, occ, anchor as int), t) {
                let s = choose|s: int|
                    #[trigger] bit(set, s) && probe_hit(probe, kind, color, s, occ, anchor as int)
                        && bit(probe_yield(probe, kind, color, s, occ, anchor as int), t);
                assert(bit(set, s) && !bit(rem, s));
            }
        }
        lemma_bitboard_of_members(
            acc,
            |t: int|
                exists|s: int|
                    #[trigger] bit(set, s) && probe_hit(probe, kind, color, s, occ, anchor as int)
                        && bit(probe_yield(probe, kind, color, s, occ, anchor as int), t),
        );
        lemma_bitboard_of_members(
            hits,
            |s: int| bit(set, s) && probe_hit(probe, kind, color, s, occ, anchor as int),
        );
    }
    (acc, hits)
}

impl ChessBoard {
    /// The bitboard of the pieces of one kind and colour, as the set of their squares.
    pub fn piece_set(&self, kind: PieceType, color: PieceColor) -> (r: u64)
        requires
            self.pieces_ok(),
            kind != PieceType::Empty,
        ensures
            r == pieces(self@, kind, color),
    {
        proof {
            lemma_piece_sets(self, kind, color);
        }
        self.bitboards[kind.get_side_index(color)]
    }

    /// The bitboard of the pieces of one colour, as the set of their squares.
    pub fn side_set(&self, color: PieceColor) -> (r: u64)
        requires
            self.pieces_ok(),
        ensures
            r == side(self@, color),
    {
        proof {
            lemma_piece_sets(self, PieceType::Pawn, color);
        }
        self.side_bitboards[color.to_index()]
    }

    /// The king of a colour is attacked. False if there is no such king.
    pub fn is_king_in_check(&self, king_color: PieceColor) -> (r: bool)
        requires
            self.pieces_ok(),
        ensures
            r == (king_square(self@, king_color) < 64 && square_in_check(
                self@,
                king_color,
                king_square(self@, king_color),
            )),
    {
        proof {
            lemma_piece_sets(self, PieceType::King, king_color);
        }
        let square = self.get_king_square(king_color);
        if square >= 64 {
            return false;
        }
        self.is_square_in_check(king_color, square)
    }

    /// A square is attacked by the side that is not `king_color`.
    pub fn is_square_in_check(&self, king_color: PieceColor, square: i32) -> (r: bool)
        requires
            self.pieces_ok(),
            0 <= square < 64,
        ensures
            r == square_in_check(self@, king_color, square as int),
    {
        let them = king_color.flipped();
        let all_pieces = self.side_set(PieceColor::White) | self.side_set(PieceColor::Black);
        let queens = self.piece_set(PieceType::Queen, them);
        let pawn_checks = self.tables.pawn_attack(king_color, square) & self.piece_set(
            PieceType::Pawn,
            them,
        );
        let knight_checks = self.tables.knight_attack(square) & self.piece_set(
            PieceType::Knight,
            them,
        );
        let king_checks = self.tables.king_attack(square) & self.piece_set(PieceType::King, them);
        let bishop_checks = self.tables.bishop_attack(square, all_pieces) & (self.piece_set(
            PieceType::Bishop,
            them,
        ) | queens);
        let rook_checks = self.tables.rook_attack(square, all_pieces) & (self.piece_set(
            PieceType::Rook,
            them,
        ) | queens);
        (pawn_checks | knight_checks | bishop_checks | rook_checks | king_checks) != 0
    }
}

impl MoveGenerator {
    /// The squares that the side not to move attacks, the king of the side
    /// to move taken off the board.
    pub fn get_attack_mask(board: &ChessBoard) -> (r: u64)
        requires
            board.pieces_ok(),
        ensures
            r == attack_mask(board@),
    {
        let us = board.get_turn();
        let them = us.flipped();
        let king_mask = board.piece_set(PieceType::King, us);
        let occ = (board.side_set(PieceColor::White) | board.side_set(PieceColor::Black))
            ^ king_mask;
        let tables = &board.tables;
        let (pawns, _) = probe_set(
            tables,
            Probe::Attack,
            PieceType::Pawn,
            them,
            board.piece_set(PieceType::Pawn, them),
            occ,
            0,
        );
        let (knights, _) = probe_set(
            tables,
            Probe::Attack,
            PieceType::Knight,
            them,
            board.piece_set(PieceType::Knight, them),
            occ,
            0,
        );
        let (bishops, _) = probe_set(
            tables,
            Probe::Attack,
            PieceType::Bishop,
            them,
            board.piece_set(PieceType::Bishop, them),
            occ,
            0,
        );
        let (rooks, _) = probe_set(
            tables,
            Probe::Attack,
            PieceType::Rook,
            them,
            board.piece_set(PieceType::Rook, them),
            occ,
            0,
        );
        let (queens, _) = probe_set(
            tables,
            Probe::Attack,
            PieceType::Queen,
            them,
            board.piece_set(PieceType::Queen, them),
            occ,
            0,
        );
        let (kings, _) = probe_set(
            tables,
            Probe::Attack,
            PieceType::King,
            them,
            board.piece_set(PieceType::King, them),
            occ,
            0,
        );
        pawns | knights | bishops | rooks | queens | kings
    }

    /// What a rook attacks through the first of `blockers` on each of its rays.
    pub fn xray_rook_attacks(
        tables: &AttackTables,
        occupied: u64,
        blockers: u64,
        rook_square: i32,
    ) -> (r: u64)
        requires
            0 <= rook_square < 64,
        ensures
            r == xray(PieceType::Rook, occupied, blockers, rook_square as int),
    {
        let attacks = tables.rook_attack(rook_square, blockers);
        attacks ^ tables.rook_attack(rook_square, occupied ^ (blockers & attacks))
    }

    /// What a bishop attacks through the first of `blockers` on each of its rays.
    pub fn xray_bishop_attacks(
        tables: &AttackTables,
        occupied: u64,
        blockers: u64,
        bishop_square: i32,
    ) -> (r: u64)
        requires
            0 <= bishop_square < 64,
        ensures
            r == xray(PieceType::Bishop, occupied, blockers, bishop_square as int),
    {
        let attacks = tables.bishop_attack(bishop_square, blockers);
        attacks ^ tables.bishop_attack(bishop_square, occupied ^ (blockers & attacks))
    }

    /// The lines of the pins on the pieces of the side to move: first those
    /// by rooks and queens, then those by bishops and queens.
    pub fn get_pinned_mask(board: &ChessBoard) -> (r: (u64, u64))
        requires
            board.pieces_ok(),
        ensures
            r.0 == pin_mask(board@, PieceType::Rook),
            r.1 == pin_mask(board@, PieceType::Bishop),
    {
        let us = board.get_turn();
        let them = us.flipped();
        proof {
            lemma_piece_sets(board, PieceType::King, us);
        }
        let king = board.get_king_square(us);
        if king >= 64 {
            return (0, 0);
        }
        let tables = &board.tables;
        let queens = board.piece_set(PieceType::Queen, them);
        let opp_bq = board.piece_set(PieceType::Bishop, them) | queens;
        let opp_rq = board.piece_set(PieceType::Rook, them) | queens;
        let occupied = board.side_set(PieceColor::White) | board.side_set(PieceColor::Black);
        let own = board.side_set(us);
        let pinner_bq = Self::xray_bishop_attacks(tables, occupied, own, king) & opp_bq;
        let pinner_rq = Self::xray_rook_attacks(tables, occupied, own, king) & opp_rq;
        let (bishop_pins, _) = probe_set(
            tables,
            Probe::Pin,
            PieceType::Bishop,
            us,
            pinner_bq,
            occupied,
            king,
        );
        let (rook_pins, _) = probe_set(
            tables,
            Probe::Pin,
            PieceType::Rook,
            us,
            pinner_rq,
            occupied,
            king,
        );
        (rook_pins, bishop_pins)
    }

    /// Whether the king of the side to move is in check twice, and the
    /// squares on which another piece ends the check: every square if there
    /// is no check.
    pub fn get_check_mask(board: &ChessBoard) -> (r: (bool, u64))
        requires
            board.pieces_ok(),
        ensures
            r.0 == double_check(board@),
            r.1 == check_mask(board@),
    {
        let us = board.get_turn();
        let them = us.flipped();
        proof {
            lemma_piece_sets(board, PieceType::King, us);
        }
        let king = board.get_king_square(us);
        if king >= 64 {
            return (false, 0xffff_ffff_ffff_ffff);
        }
        let tables = &board.tables;
        let occ = board.side_set(PieceColor::White) | board.side_set(PieceColor::Black);
        let queens = board.piece_set(PieceType::Queen, them);
        let (pawn_mask, pawn_hits) = probe_set(
            tables,
            Probe::Check,
            PieceType::Pawn,
            them,
            board.piece_set(PieceType::Pawn, them),
            occ,
            king,
        );
        let (knight_mask, knight_hits) = probe_set(
            tables,
            Probe::Check,
            PieceType::Knight,
            them,
            board.piece_set(PieceType::Knight, them),
            occ,
            king,
        );
        let (bishop_mask, bishop_hits) = probe_set(
            tables,
            Probe::Check,
            PieceType::Bishop,
            them,
            board.piece_set(PieceType::Bishop, them) | queens,
            occ,
            king,
        );
        let (rook_mask, rook_hits) = probe_set(
            tables,
            Probe::Check,
            PieceType::Rook,
            them,
            board.piece_set(PieceType::Rook, them) | queens,
            occ,
            king,
        );
        let checks = BoardHelper::count_bits(pawn_hits) + BoardHelper::count_bits(knight_hits)
            + BoardHelper::count_bits(bishop_hits) + BoardHelper::count_bits(rook_hits);
        if checks == 0 {
            (false, 0xffff_ffff_ffff_ffff)
        } else {
            (checks >= 2, pawn_mask | knight_mask | bishop_mask | rook_mask)
        }
    }

    /// What the generator knows of the position before it looks at single pieces.
    pub fn move_masks(board: &ChessBoard, quiets: bool) -> (g: MoveMasks)
        requires
            board.consistent(),
        ensures
            g == masks_of(board@, quiets),
            -1 <= g.en_passant < 64,
            0 <= g.king <= 64,
    {
        let us = board.get_turn();
        let them = us.flipped();
        proof {
            lemma_piece_sets(board, PieceType::King, us);
        }
        let king = board.get_king_square(us);
        let friendly = board.side_set(us);
        let enemy = board.side_set(them);
        let attacked = Self::get_attack_mask(board);
        let (pin_hv, pin_d) = Self::get_pinned_mask(board);
        let in_check = king < 64 && has_square(attacked, king);
        let mut double_check = false;
        let mut check = 0xffff_ffff_ffff_ffffu64;
        if in_check {
            let (twice, mask) = Self::get_check_mask(board);
            double_check = twice;
            check = mask;
        }
        let own_queens = board.piece_set(PieceType::Queen, us);
        let own_rooks = board.piece_set(PieceType::Rook, us);
        let side_index = us.to_index();
        MoveMasks {
            us,
            quiets,
            king,
            friendly,
            enemy,
            all: board.side_set(PieceColor::White) | board.side_set(PieceColor::Black),
            open: !friendly & !board.piece_set(PieceType::King, them),
            attacked,
            pin_hv,
            pin_d,
            in_check,
            double_check,
            check,
            filter: if quiets {
                0xffff_ffff_ffff_ffff
            } else {
                enemy
            },
            en_passant: board.en_passant,
            king_side: board.castling_rights[side_index * 2],
            queen_side: board.castling_rights[side_index * 2 + 1],
            knights: board.piece_set(PieceType::Knight, us),
            diagonals: board.piece_set(PieceType::Bishop, us) | own_queens,
            orthogonals: own_rooks | own_queens,
            rooks: own_rooks,
            pawns: board.piece_set(PieceType::Pawn, us),
            enemy_pawns: board.piece_set(PieceType::Pawn, them),
            enemy_orthogonals: board.piece_set(PieceType::Rook, them) | board.piece_set(
                PieceType::Queen,
                them,
            ),
        }
    }

    /// Appends the moves from one square to each square of a bitboard.
    pub fn generate_moves(from: i32, move_mask: u64, out_moves: &mut Vec<Move>)
        requires
            0 <= from < 64,
        ensures
            final(out_moves)@ == old(out_moves)@ + moves_to(
                from as int,
                move_mask,
                MoveFlag::Normal,
            ),
    {
        let mut rem = move_mask;
        let ghost mut done: Seq<int> = Seq::empty();
        assert(out_moves@ =~= old(out_moves)@ + moves_over(from as int, done, MoveFlag::Normal));
        while rem != 0
            invariant
                0 <= from < 64,
                done + squares_of(rem) == squares_of(move_mask),
                out_moves@ == old(out_moves)@ + moves_over(from as int, done, MoveFlag::Normal),
            decreases rem,
        {
            proof {
                lemma_squares_pop(rem);
            }
            let square_to = BoardHelper::pop_lsb(&mut rem);
            out_moves.push(Move::new(from, square_to, MoveFlag::Normal));
            proof {
                let next = done.push(square_to as int);
                assert(next.drop_last() =~= done);
                assert(next + squares_of(rem) =~= done + (seq![square_to as int] + squares_of(
                    rem,
                )));
                assert(out_moves@ =~= old(out_moves)@ + moves_over(
                    from as int,
                    next,
                    MoveFlag::Normal,
                ));
                done = next;
            }
        }
        proof {
            lemma_squares_empty();
            assert(done =~= squares_of(move_mask));
        }
    }

    /// Appends the promotions of a pawn on each square of a bitboard.
    pub fn generate_moves_promotion(
        from: i32,
        move_mask: u64,
        out_moves: &mut Vec<Move>,
        is_quiet: bool,
    )
        requires
            0 <= from < 64,
        ensures
            final(out_moves)@ == old(out_moves)@ + promotions_to(from as int, move_mask, is_quiet),
    {
        let mut rem = move_mask;
        let ghost mut done: Seq<int> = Seq::empty();
        assert(out_moves@ =~= old(out_moves)@ + promotions_over(from as int, done, is_quiet));
        while rem != 0
            invariant
                0 <= from < 64,
                done + squares_of(rem) == squares_of(move_mask),
                out_moves@ == old(out_moves)@ + promotions_over(from as int, done, is_quiet),
            decreases rem,
        {
            proof {
                lemma_squares_pop(rem);
            }
            let ghost before = out_moves@;
            let square_to = BoardHelper::pop_lsb(&mut rem);
            if is_quiet {
                out_moves.push(Move::new(from, square_to, MoveFlag::PromoteKnight));
                out_moves.push(Move::new(from, square_to, MoveFlag::PromoteBishop));
                out_moves.push(Move::new(from, square_to, MoveFlag::PromoteRook));
            }
            out_moves.push(Move::new(from, square_to, MoveFlag::PromoteQueen));
            proof {
                let next = done.push(square_to as int);
                assert(next.drop_last() =~= done);
                assert(next + squares_of(rem) =~= done + (seq![square_to as int] + squares_of(
                    rem,
                )));
                assert(out_moves@ =~= before + promotions(
                    from as int,
                    square_to as int,
                    is_quiet,
                ));
                assert(out_moves@ =~= old(out_moves)@ + promotions_over(
                    from as int,
                    next,
                    is_quiet,
                ));
                done = next;
            }
        }
        proof {
            lemma_squares_empty();
            assert(done =~= squares_of(move_mask));
        }
    }

    /// The destinations of a knight, a diagonal slider or an orthogonal slider on `s`.
    fn piece_targets(tables: &AttackTables, g: &MoveMasks, mover: Mover, s: i32) -> (r: u64)
        requires
            0 <= s < 64,
            mover != Mover::Pawn,
        ensures
            r == match mover {
                Mover::Knight => knight_targets(*g, s as int),
                Mover::Diagonal => diagonal_targets(*g, s as int),
                Mover::Orthogonal => orthogonal_targets(*g, s as int),
                Mover::Pawn => 0,
            },
    {
        let is_pinned = has_square(g.pin_hv | g.pin_d, s);
        match mover {
            Mover::Knight => {
                if is_pinned {
                    0
                } else {
                    tables.knight_attack(s) & g.open & g.check & g.filter
                }
            },
            Mover::Diagonal => {
                let free = tables.bishop_attack(s, g.all) & g.open & g.check & g.filter;
                if !is_pinned {
                    free
                } else if !has_square(g.pin_hv, s) {
                    free & g.pin_d
                } else {
                    0
                }
            },
            Mover::Orthogonal => {
                let free = tables.rook_attack(s, g.all) & g.open & g.check & g.filter;
                if !is_pinned {
                    free
                } else if !has_square(g.pin_d, s) {
                    free & g.pin_hv
                } else {
                    0
                }
            },
            Mover::Pawn => 0,
        }
    }

    /// Appends the moves of a pawn on `s`.
    fn generate_pawn_moves(tables: &AttackTables, g: &MoveMasks, s: i32, out_moves: &mut Vec<Move>)
        requires
            0 <= s < 64,
            -1 <= g.en_passant < 64,
            0 <= g.king <= 64,
        ensures
            final(out_moves)@ == old(out_moves)@ + pawn_moves(*g, s as int),
    {
        let white = g.us == PieceColor::White;
        let dir: i32 = if white {
            8
        } else {
            -8
        };
        let rank = BoardHelper::get_rank(s);
        let is_pinned = has_square(g.pin_hv | g.pin_d, s);
        let pinned_hv = has_square(g.pin_hv, s);
        let pinned_d = has_square(g.pin_d, s);
        let free = tables.pawn_attack(g.us, s) & g.enemy & g.open & g.check;
        let mut targets: u64 = if !is_pinned {
            free
        } else if pinned_d && !pinned_hv {
            free & g.pin_d
        } else {
            0
        };
        assert(targets == pawn_capture_targets(*g, s as int));
        let to = s + dir;
        let mut may_step = false;
        if g.quiets && 0 <= to && to < 64 {
            may_step = !has_square(g.all, to) && (!pinned_hv || has_square(g.pin_hv, to)) && (
            !pinned_d || has_square(g.pin_d, to));
        }
        assert(may_step == pawn_may_step(*g, s as int));
        let ghost start = out_moves@;
        if may_step {
            targets = targets | (square_bit(to) & g.check);
            let start_rank: i32 = if white {
                1
            } else {
                6
            };
            if rank == start_rank {
                let two = s + 2 * dir;
                if !has_square(g.all, two) && has_square(g.check, two) {
                    out_moves.push(Move::new(s, two, MoveFlag::PawnTwoUp));
                }
            }
        }
        assert(targets == pawn_targets(*g, s as int));
        assert(out_moves@ =~= start + pawn_double_step(*g, s as int));
        let last_but_one: i32 = if white {
            6
        } else {
            1
        };
        if rank == last_but_one {
            Self::generate_moves_promotion(s, targets, out_moves, g.quiets);
        } else {
            Self::generate_moves(s, targets, out_moves);
        }
        let ghost middle = out_moves@;
        let ep = g.en_passant;
        let mut allowed = false;
        if 8 <= ep && ep < 56 && !is_pinned {
            let victim = ep - dir;
            if has_square(tables.pawn_attack(g.us, s), ep) && !has_square(g.pin_d, victim)
                && !has_square(g.all, ep) && has_square(g.enemy_pawns, victim) {
                if g.king < 64 && rank == BoardHelper::get_rank(g.king) {
                    let blockers = g.all ^ (square_bit(victim) | square_bit(s));
                    allowed = tables.rook_attack(g.king, blockers) & g.enemy_orthogonals == 0;
                } else {
                    allowed = has_square(g.check, victim);
                }
            }
        }
        assert(allowed == en_passant_allowed(*g, s as int));
        if allowed {
            out_moves.push(Move::new(s, ep, MoveFlag::EnPassant));
        }
        assert(out_moves@ =~= middle + pawn_en_passant(*g, s as int));
        assert(out_moves@ =~= old(out_moves)@ + pawn_moves(*g, s as int));
    }

    /// Appends the moves of all pieces of one kind of mover.
    fn gather(tables: &AttackTables, g: &MoveMasks, mover: Mover, out_moves: &mut Vec<Move>)
        requires
            -1 <= g.en_passant < 64,
            0 <= g.king <= 64,
        ensures
            final(out_moves)@ == old(out_moves)@ + gathered(*g, mover),
    {
        let set = match mover {
            Mover::Knight => g.knights,
            Mover::Diagonal => g.diagonals,
            Mover::Orthogonal => g.orthogonals,
            Mover::Pawn => g.pawns,
        };
        let mut rem = set;
        let ghost mut done: Seq<int> = Seq::empty();
        assert(out_moves@ =~= old(out_moves)@ + gathered_over(*g, mover, done));
        while rem != 0
            invariant
                -1 <= g.en_passant < 64,
                0 <= g.king <= 64,
                set == movers(*g, mover),
                done + squares_of(rem) == squares_of(set),
                out_moves@ == old(out_moves)@ + gathered_over(*g, mover, done),
            decreases rem,
        {
            proof {
                lemma_squares_pop(rem);
            }
            let ghost before = out_moves@;
            let s = BoardHelper::pop_lsb(&mut rem);
            match mover {
                Mover::Pawn => {
                    Self::generate_pawn_moves(tables, g, s, out_moves);
                },
                _ => {
                    let targets = Self::piece_targets(tables, g, mover, s);
                    Self::generate_moves(s, targets, out_moves);
                },
            }
            proof {
                let next = done.push(s as int);
                assert(next.drop_last() =~= done);
                assert(next + squares_of(rem) =~= done + (seq![s as int] + squares_of(rem)));
                assert(out_moves@ =~= before + moves_of(*g, mover, s as int));
                assert(out_moves@ =~= old(out_moves)@ + gathered_over(*g, mover, next));
                done = next;
            }
        }
        proof {
            lemma_squares_empty();
            assert(done =~= squares_of(set));
        }
    }

    /// Appends the castling moves.
    fn generate_castling(g: &MoveMasks, out_moves: &mut Vec<Move>)
        ensures
            final(out_moves)@ == old(out_moves)@ + castling_moves(*g),
    {
        let white = g.us == PieceColor::White;
        let home: i32 = if white {
            0
        } else {
            56
        };
        let ghost start = out_moves@;
        let at_home = g.quiets && !g.in_check && g.king == 4 + home;
        let king_path: u64 = if white {
            KING_SIDE_PATH
        } else {
            KING_SIDE_PATH << 56
        };
        let queen_path: u64 = if white {
            QUEEN_SIDE_PATH
        } else {
            QUEEN_SIDE_PATH << 56
        };
        let queen_walk: u64 = if white {
            QUEEN_SIDE_WALK
        } else {
            QUEEN_SIDE_WALK << 56
        };
        let king_side = at_home && g.king_side && g.all & king_path == 0 && g.attacked & king_path
            == 0 && has_square(g.rooks, 7 + home);
        assert(king_side == may_castle_king_side(*g));
        if king_side {
            out_moves.push(Move::new(4 + home, 6 + home, MoveFlag::Castle));
        }
        let queen_side = at_home && g.queen_side && g.all & queen_path == 0 && g.attacked
            & queen_walk == 0 && has_square(g.rooks, home);
        assert(queen_side == may_castle_queen_side(*g));
        if queen_side {
            out_moves.push(Move::new(4 + home, 2 + home, MoveFlag::Castle));
        }
        assert(out_moves@ =~= start + castling_moves(*g));
    }

    /// The legal moves of the position, in the order of the rules; without
    /// `generate_quiet` only the captures and the promotions to a queen.
    pub fn get_legal_moves(board: &ChessBoard, generate_quiet: bool) -> (moves: Vec<Move>)
        requires
            board.consistent(),
        ensures
            moves@ == legal_moves(board@, generate_quiet),
    {
        let g = Self::move_masks(board, generate_quiet);
        let tables = &board.tables;
        let mut moves: Vec<Move> = Vec::new();
        if g.king < 64 {
            let targets = tables.king_attack(g.king) & !g.attacked & g.open & g.filter;
            Self::generate_moves(g.king, targets, &mut moves);
        }
        assert(moves@ =~= king_moves(g));
        if g.double_check {
            return moves;
        }
        Self::generate_castling(&g, &mut moves);
        Self::gather(tables, &g, Mover::Knight, &mut moves);
        Self::gather(tables, &g, Mover::Diagonal, &mut moves);
        Self::gather(tables, &g, Mover::Orthogonal, &mut moves);
        Self::gather(tables, &g, Mover::Pawn, &mut moves);
        assert(moves@ =~= moves_for(g));
        moves
    }

    /// The legal moves that start on one square.
    pub fn get_legal_moves_for_square(board: &ChessBoard, square: i32) -> (moves: Vec<Move>)
        requires
            board.consistent(),
        ensures
            moves@ == moves_from(legal_moves(board@, true), square as int),
    {
        let all = Self::get_legal_moves(board, true);
        let mut moves: Vec<Move> = Vec::new();
        let mut i: usize = 0;
        assert(all@.take(0) =~= Seq::<Move>::empty());
        while i < all.len()
            invariant
                i <= all@.len(),
                moves@ == moves_from(all@.take(i as int), square as int),
            decreases all@.len() - i,
        {
            let m = all[i];
            proof {
                assert(all@.take(i + 1).drop_last() =~= all@.take(i as int));
            }
            if m.get_from_idx() == square {
                moves.push(m);
            }
            i += 1;
        }
        assert(all@.take(all@.len() as int) =~= all@);
        moves
    }
}

} // verus!
