//! The rules of move generation, stated on positions.
//!
//! The legal moves of a position are given as a sequence, in the order in
//! which the generator produces them: the moves of the king, then castling,
//! then the knights, the diagonal sliders, the orthogonal sliders and the
//! pawns, each kind from the lowest square up and each piece to its lowest
//! destination first.

use vstd::prelude::*;
use crate::bitboard::{king_attacks, knight_attacks, pawn_attacks};
use crate::bits::{bit, bitboard_of, count, lowest, single};
use crate::board_helper::{on_board, rank_of};
use crate::chess_move::{Move, MoveFlag};
use crate::piece::{PieceColor, PieceType};
use crate::position::Position;
use crate::sliders::{between, bishop_attacks, queen_attacks, rook_attacks};

verus! {

/// Index of a kind and a colour among the twelve piece bitboards.
pub open spec fn kind_index(kind: PieceType, color: PieceColor) -> int {
    color.code() * 6 + kind.code() - 1
}

/// The squares that hold a piece of one kind and colour.
pub open spec fn pieces(p: Position, kind: PieceType, color: PieceColor) -> u64 {
    bitboard_of(|s: int| p.board[s].occupied() && p.board[s].index() == kind_index(kind, color))
}

/// The squares that hold a piece of one colour.
pub open spec fn side(p: Position, color: PieceColor) -> u64 {
    bitboard_of(|s: int| p.board[s].occupied() && p.board[s].color() == color)
}

/// The occupied squares.
pub open spec fn occupancy(p: Position) -> u64 {
    side(p, PieceColor::White) | side(p, PieceColor::Black)
}

/// The square of the king of one colour: the lowest one if there are
/// several, 64 if there is none.
pub open spec fn king_square(p: Position, color: PieceColor) -> int {
    lowest(pieces(p, PieceType::King, color))
}

/// The squares that a piece of a kind and colour on `s` attacks.
pub open spec fn attack_set(kind: PieceType, color: PieceColor, s: int, occ: u64) -> u64 {
    match kind {
        PieceType::Pawn => pawn_attacks(color, s),
        PieceType::Knight => knight_attacks(s),
        PieceType::Bishop => bishop_attacks(s, occ),
        PieceType::Rook => rook_attacks(s, occ),
        PieceType::Queen => queen_attacks(s, occ),
        PieceType::King => king_attacks(s),
        PieceType::Empty => 0,
    }
}

/// What is asked of each piece of a set.
#[derive(Clone, Copy, Debug, PartialEq, Eq, Structural)]
pub enum Probe {
    /// What the piece attacks.
    Attack,
    /// Whether the piece attacks the anchor, and what would end that attack.
    Check,
    /// The piece and the squares between it and the anchor.
    Pin,
}

/// The piece on `s` counts for a probe.
pub open spec fn probe_hit(
    probe: Probe,
    kind: PieceType,
    color: PieceColor,
    s: int,
    occ: u64,
    anchor: int,
) -> bool {
    probe == Probe::Check ==> bit(attack_set(kind, color, s, occ), anchor)
}

/// What the piece on `s` adds to the result of a probe. For a check by a
/// slider these are its square and the squares between it and the anchor:
/// what it attacks and what a slider of its kind on the anchor would attack.
pub open spec fn probe_yield(
    probe: Probe,
    kind: PieceType,
    color: PieceColor,
    s: int,
    occ: u64,
    anchor: int,
) -> u64 {
    match probe {
        Probe::Attack => attack_set(kind, color, s, occ),
        Probe::Check => if kind == PieceType::Bishop || kind == PieceType::Rook {
            (attack_set(kind, color, s, occ) & attack_set(kind, color, anchor, occ)) | single(s)
        } else {
            single(s)
        },
        Probe::Pin => between(s, anchor) | single(s),
    }
}

/// The pieces of a set that count for a probe.
pub open spec fn probe_hits(
    probe: Probe,
    kind: PieceType,
    color: PieceColor,
    set: u64,
    occ: u64,
    anchor: int,
) -> u64 {
    bitboard_of(|s: int| bit(set, s) && probe_hit(probe, kind, color, s, occ, anchor))
}

/// The result of a probe: the union of what the pieces of the set that
/// count add to it.
pub open spec fn probed(
    probe: Probe,
    kind: PieceType,
    color: PieceColor,
    set: u64,
    occ: u64,
    anchor: int,
) -> u64 {
    bitboard_of(
        |t: int|
            exists|s: int|
                #[trigger] bit(set, s) && probe_hit(probe, kind, color, s, occ, anchor) && bit(
                    probe_yield(probe, kind, color, s, occ, anchor),
                    t,
                ),
    )
}

/// The squares that the pieces of one colour attack, with `occ` the
/// occupied squares.
pub open spec fn attacked_by(p: Position, by: PieceColor, occ: u64) -> u64 {
    probed(Probe::Attack, PieceType::Pawn, by, pieces(p, PieceType::Pawn, by), occ, 0) | probed(
        Probe::Attack,
        PieceType::Knight,
        by,
        pieces(p, PieceType::Knight, by),
        occ,
        0,
    ) | probed(Probe::Attack, PieceType::Bishop, by, pieces(p, PieceType::Bishop, by), occ, 0)
        | probed(Probe::Attack, PieceType::Rook, by, pieces(p, PieceType::Rook, by), occ, 0)
        | probed(Probe::Attack, PieceType::Queen, by, pieces(p, PieceType::Queen, by), occ, 0)
        | probed(Probe::Attack, PieceType::King, by, pieces(p, PieceType::King, by), occ, 0)
}

/// The squares on which the king of the side to move may not stand: what
/// the other side attacks when that king is taken off the board, so that it
/// cannot hide behind itself.
pub open spec fn attack_mask(p: Position) -> u64 {
    attacked_by(
        p,
        p.turn.opposite(),
        occupancy(p) ^ pieces(p, PieceType::King, p.turn),
    )
}

/// A square is attacked by the side that is not `color`.
pub open spec fn square_in_check(p: Position, color: PieceColor, sq: int) -> bool {
    let them = color.opposite();
    let occ = occupancy(p);
    (pawn_attacks(color, sq) & pieces(p, PieceType::Pawn, them)) | (knight_attacks(sq) & pieces(
        p,
        PieceType::Knight,
        them,
    )) | (bishop_attacks(sq, occ) & (pieces(p, PieceType::Bishop, them) | pieces(
        p,
        PieceType::Queen,
        them,
    ))) | (rook_attacks(sq, occ) & (pieces(p, PieceType::Rook, them) | pieces(
        p,
        PieceType::Queen,
        them,
    ))) | (king_attacks(sq) & pieces(p, PieceType::King, them)) != 0
}

/// The diagonal sliders of one colour.
pub open spec fn diagonal_sliders(p: Position, color: PieceColor) -> u64 {
    pieces(p, PieceType::Bishop, color) | pieces(p, PieceType::Queen, color)
}

/// The orthogonal sliders of one colour.
pub open spec fn orthogonal_sliders(p: Position, color: PieceColor) -> u64 {
    pieces(p, PieceType::Rook, color) | pieces(p, PieceType::Queen, color)
}

/// What a slider on `s` attacks through the first of `blockers` on each of
/// its rays: the squares behind those blockers up to the next piece.
pub open spec fn xray(kind: PieceType, occ: u64, blockers: u64, s: int) -> u64 {
    let attacks = attack_set(kind, PieceColor::White, s, blockers);
    attacks ^ attack_set(kind, PieceColor::White, s, occ ^ (blockers & attacks))
}

/// The sliders of the other side that pin a piece to the king on `king`.
pub open spec fn pinners(p: Position, kind: PieceType, king: int) -> u64 {
    let them = p.turn.opposite();
    xray(kind, occupancy(p), side(p, p.turn), king) & if kind == PieceType::Rook {
        orthogonal_sliders(p, them)
    } else {
        diagonal_sliders(p, them)
    }
}

/// The squares of the lines on which a piece is pinned to the king of the
/// side to move, by rooks and queens (`kind` the rook) or by bishops and
/// queens: each pinner and the squares between it and the king.
pub open spec fn pin_mask(p: Position, kind: PieceType) -> u64 {
    let king = king_square(p, p.turn);
    if king < 64 {
        probed(Probe::Pin, kind, p.turn, pinners(p, kind, king), occupancy(p), king)
    } else {
        0
    }
}

/// The pieces of one kind that give check to the king on `king`.
pub open spec fn checkers(p: Position, kind: PieceType, king: int) -> u64 {
    let them = p.turn.opposite();
    let set = if kind == PieceType::Bishop {
        diagonal_sliders(p, them)
    } else if kind == PieceType::Rook {
        orthogonal_sliders(p, them)
    } else {
        pieces(p, kind, them)
    };
    probe_hits(Probe::Check, kind, them, set, occupancy(p), king)
}

/// The squares that end the check of one kind of piece.
pub open spec fn check_squares(p: Position, kind: PieceType, king: int) -> u64 {
    let them = p.turn.opposite();
    let set = if kind == PieceType::Bishop {
        diagonal_sliders(p, them)
    } else if kind == PieceType::Rook {
        orthogonal_sliders(p, them)
    } else {
        pieces(p, kind, them)
    };
    probed(Probe::Check, kind, them, set, occupancy(p), king)
}

/// The number of checks on the king on `king`; a queen counts where it
/// checks as a bishop and where it checks as a rook.
pub open spec fn check_count(p: Position, king: int) -> nat {
    count(checkers(p, PieceType::Pawn, king)) + count(checkers(p, PieceType::Knight, king))
        + count(checkers(p, PieceType::Bishop, king)) + count(
        checkers(p, PieceType::Rook, king),
    )
}

/// The king of the side to move is in check twice.
pub open spec fn double_check(p: Position) -> bool {
    king_square(p, p.turn) < 64 && check_count(p, king_square(p, p.turn)) >= 2
}

/// The squares on which a piece other than the king ends the check: every
/// square if there is no check.
pub open spec fn check_mask(p: Position) -> u64 {
    let king = king_square(p, p.turn);
    if king < 64 && check_count(p, king) > 0 {
        check_squares(p, PieceType::Pawn, king) | check_squares(p, PieceType::Knight, king)
            | check_squares(p, PieceType::Bishop, king) | check_squares(
            p,
            PieceType::Rook,
            king,
        )
    } else {
        0xffff_ffff_ffff_ffff
    }
}

/// What the generator knows of a position before it looks at single pieces.
#[derive(Clone, Copy, Debug)]
pub struct MoveMasks {
    /// The side to move.
    pub us: PieceColor,
    /// Quiet moves are wanted too, not only captures and queen promotions.
    pub quiets: bool,
    /// The square of the king of the side to move, or 64.
    pub king: i32,
    /// The pieces of the side to move.
    pub friendly: u64,
    /// The pieces of the other side.
    pub enemy: u64,
    /// All pieces.
    pub all: u64,
    /// The squares a piece may go to: not on a piece of its side, and not on the other king.
    pub open: u64,
    /// The squares the king may not go to.
    pub attacked: u64,
    /// The lines of the pins by rooks and queens.
    pub pin_hv: u64,
    /// The lines of the pins by bishops and queens.
    pub pin_d: u64,
    /// The king is in check.
    pub in_check: bool,
    /// The king is in check twice.
    pub double_check: bool,
    /// The squares that end the check; every square without a check.
    pub check: u64,
    /// Every square if quiet moves are wanted, else the pieces of the other side.
    pub filter: u64,
    /// The en-passant target, or -1.
    pub en_passant: i32,
    /// The right to castle on the king's side.
    pub king_side: bool,
    /// The right to castle on the queen's side.
    pub queen_side: bool,
    /// The knights of the side to move.
    pub knights: u64,
    /// Its bishops and queens.
    pub diagonals: u64,
    /// Its rooks and queens.
    pub orthogonals: u64,
    /// Its rooks.
    pub rooks: u64,
    /// Its pawns.
    pub pawns: u64,
    /// The pawns of the other side.
    pub enemy_pawns: u64,
    /// The rooks and queens of the other side.
    pub enemy_orthogonals: u64,
}

/// What the generator knows of a position.
pub open spec fn masks_of(p: Position, quiets: bool) -> MoveMasks {
    let us = p.turn;
    let them = p.turn.opposite();
    let king = king_square(p, us);
    let attacked = attack_mask(p);
    let in_check = bit(attacked, king);
    MoveMasks {
        us,
        quiets,
        king: king as i32,
        friendly: side(p, us),
        enemy: side(p, them),
        all: occupancy(p),
        open: !side(p, us) & !pieces(p, PieceType::King, them),
        attacked,
        pin_hv: pin_mask(p, PieceType::Rook),
        pin_d: pin_mask(p, PieceType::Bishop),
        in_check,
        double_check: in_check && double_check(p),
        check: if in_check {
            check_mask(p)
        } else {
            0xffff_ffff_ffff_ffff
        },
        filter: if quiets {
            0xffff_ffff_ffff_ffff
        } else {
            side(p, them)
        },
        en_passant: p.en_passant as i32,
        king_side: p.castling[us.code() * 2],
        queen_side: p.castling[us.code() * 2 + 1],
        knights: pieces(p, PieceType::Knight, us),
        diagonals: diagonal_sliders(p, us),
        orthogonals: orthogonal_sliders(p, us),
        rooks: pieces(p, PieceType::Rook, us),
        pawns: pieces(p, PieceType::Pawn, us),
        enemy_pawns: pieces(p, PieceType::Pawn, them),
        enemy_orthogonals: orthogonal_sliders(p, them),
    }
}

/// The squares of a bitboard from `i` on, in rising order.
pub open spec fn squares_from(x: u64, i: int) -> Seq<int>
    decreases 64 - i,
{
    if i >= 64 || i < 0 {
        Seq::empty()
    } else if bit(x, i) {
        seq![i] + squares_from(x, i + 1)
    } else {
        squares_from(x, i + 1)
    }
}

/// The squares of a bitboard in rising order.
pub open spec fn squares_of(x: u64) -> Seq<int> {
    squares_from(x, 0)
}

/// The moves from one square to each square of a sequence, with one flag.
pub open spec fn moves_over(from: int, targets: Seq<int>, flag: MoveFlag) -> Seq<Move>
    decreases targets.len(),
{
    if targets.len() == 0 {
        Seq::empty()
    } else {
        moves_over(from, targets.drop_last(), flag).push(
            Move::encode(from, targets.last(), flag),
        )
    }
}

/// The moves from one square to each square of a bitboard, lowest first.
pub open spec fn moves_to(from: int, mask: u64, flag: MoveFlag) -> Seq<Move> {
    moves_over(from, squares_of(mask), flag)
}

/// The promotions of a pawn on one destination: to knight, bishop and rook
/// if quiet moves are wanted, and to queen.
pub open spec fn promotions(from: int, to: int, quiets: bool) -> Seq<Move> {
    if quiets {
        seq![
            Move::encode(from, to, MoveFlag::PromoteKnight),
            Move::encode(from, to, MoveFlag::PromoteBishop),
            Move::encode(from, to, MoveFlag::PromoteRook),
            Move::encode(from, to, MoveFlag::PromoteQueen),
        ]
    } else {
        seq![Move::encode(from, to, MoveFlag::PromoteQueen)]
    }
}

/// The promotions of a pawn on each square of a sequence.
pub open spec fn promotions_over(from: int, targets: Seq<int>, quiets: bool) -> Seq<Move>
    decreases targets.len(),
{
    if targets.len() == 0 {
        Seq::empty()
    } else {
        promotions_over(from, targets.drop_last(), quiets) + promotions(
            from,
            targets.last(),
            quiets,
        )
    }
}

/// The promotions of a pawn on each square of a bitboard, lowest first.
pub open spec fn promotions_to(from: int, mask: u64, quiets: bool) -> Seq<Move> {
    promotions_over(from, squares_of(mask), quiets)
}

/// A piece on `s` is pinned.
pub open spec fn pinned(g: MoveMasks, s: int) -> bool {
    bit(g.pin_hv | g.pin_d, s)
}

/// The destinations of the king.
pub open spec fn king_targets(g: MoveMasks) -> u64 {
    king_attacks(g.king as int) & !g.attacked & g.open & g.filter
}

/// The destinations of a knight on `s`: none if it is pinned.
pub open spec fn knight_targets(g: MoveMasks, s: int) -> u64 {
    if pinned(g, s) {
        0
    } else {
        knight_attacks(s) & g.open & g.check & g.filter
    }
}

/// The diagonal destinations of a bishop or queen on `s`: along the pin if
/// it is pinned on a diagonal, none if it is pinned on a rank or file.
pub open spec fn diagonal_targets(g: MoveMasks, s: int) -> u64 {
    let free = bishop_attacks(s, g.all) & g.open & g.check & g.filter;
    if !pinned(g, s) {
        free
    } else if !bit(g.pin_hv, s) {
        free & g.pin_d
    } else {
        0
    }
}

/// The orthogonal destinations of a rook or queen on `s`: along the pin if
/// it is pinned on a rank or file, none if it is pinned on a diagonal.
pub open spec fn orthogonal_targets(g: MoveMasks, s: int) -> u64 {
    let free = rook_attacks(s, g.all) & g.open & g.check & g.filter;
    if !pinned(g, s) {
        free
    } else if !bit(g.pin_d, s) {
        free & g.pin_hv
    } else {
        0
    }
}

/// The direction in which the pawns of a colour move.
pub open spec fn forward(us: PieceColor) -> int {
    if us == PieceColor::White {
        8
    } else {
        -8
    }
}

/// The squares that a pawn on `s` may capture on.
pub open spec fn pawn_capture_targets(g: MoveMasks, s: int) -> u64 {
    let free = pawn_attacks(g.us, s) & g.enemy & g.open & g.check;
    if !pinned(g, s) {
        free
    } else if bit(g.pin_d, s) && !bit(g.pin_hv, s) {
        free & g.pin_d
    } else {
        0
    }
}

/// A pawn on `s` may step forward, as far as the square before it and the
/// pins go: the square is on the board and empty, and the step stays on the
/// line of any pin.
pub open spec fn pawn_may_step(g: MoveMasks, s: int) -> bool {
    let to = s + forward(g.us);
    &&& g.quiets
    &&& on_board(to)
    &&& !bit(g.all, to)
    &&& !bit(g.pin_hv, s) || bit(g.pin_hv, to)
    &&& !bit(g.pin_d, s) || bit(g.pin_d, to)
}

/// The squares that a pawn on `s` reaches by a capture or a single step.
pub open spec fn pawn_targets(g: MoveMasks, s: int) -> u64 {
    if pawn_may_step(g, s) {
        pawn_capture_targets(g, s) | (single(s + forward(g.us)) & g.check)
    } else {
        pawn_capture_targets(g, s)
    }
}

/// The double step of a pawn on `s`, if it has one.
pub open spec fn pawn_double_step(g: MoveMasks, s: int) -> Seq<Move> {
    let to = s + 2 * forward(g.us);
    if pawn_may_step(g, s) && rank_of(s) == (if g.us == PieceColor::White {
        1int
    } else {
        6int
    }) && !bit(g.all, to) && bit(g.check, to) {
        seq![Move::encode(s, to, MoveFlag::PawnTwoUp)]
    } else {
        Seq::empty()
    }
}

/// The square of the pawn that a capture on the en-passant target removes.
pub open spec fn en_passant_victim(g: MoveMasks) -> int {
    g.en_passant - forward(g.us)
}

/// A pawn on `s` may capture en passant: there is a target in the range of
/// the pawn, the pawn is not pinned and the pawn to capture is not pinned
/// on a diagonal; the target is empty and the pawn to capture is there; and
/// if the pawn shares its rank with the king, no rook or queen attacks the
/// king along that rank once both pawns are gone, else the capture ends any
/// check.
pub open spec fn en_passant_allowed(g: MoveMasks, s: int) -> bool {
    let victim = en_passant_victim(g);
    &&& 8 <= g.en_passant < 56
    &&& !pinned(g, s)
    &&& bit(pawn_attacks(g.us, s), g.en_passant as int)
    &&& !bit(g.pin_d, victim)
    &&& !bit(g.all, g.en_passant as int)
    &&& bit(g.enemy_pawns, victim)
    &&& if g.king < 64 && rank_of(s) == rank_of(g.king as int) {
        rook_attacks(g.king as int, g.all ^ (single(victim) | single(s))) & g.enemy_orthogonals
            == 0
    } else {
        bit(g.check, victim)
    }
}

/// The en-passant capture of a pawn on `s`, if it has one.
pub open spec fn pawn_en_passant(g: MoveMasks, s: int) -> Seq<Move> {
    if en_passant_allowed(g, s) {
        seq![Move::encode(s, g.en_passant as int, MoveFlag::EnPassant)]
    } else {
        Seq::empty()
    }
}

/// The moves of a pawn on `s`: the double step, then captures and single
/// steps, as promotions from the last rank but one, then the en-passant capture.
pub open spec fn pawn_moves(g: MoveMasks, s: int) -> Seq<Move> {
    let last_but_one = if g.us == PieceColor::White {
        6int
    } else {
        1int
    };
    pawn_double_step(g, s) + (if rank_of(s) == last_but_one {
        promotions_to(s, pawn_targets(g, s), g.quiets)
    } else {
        moves_to(s, pawn_targets(g, s), MoveFlag::Normal)
    }) + pawn_en_passant(g, s)
}

/// The kinds of pieces whose moves are gathered square by square.
#[derive(Clone, Copy, Debug, PartialEq, Eq, Structural)]
pub enum Mover {
    Knight,
    Diagonal,
    Orthogonal,
    Pawn,
}

/// The pieces of one kind of mover.
pub open spec fn movers(g: MoveMasks, mover: Mover) -> u64 {
    match mover {
        Mover::Knight => g.knights,
        Mover::Diagonal => g.diagonals,
        Mover::Orthogonal => g.orthogonals,
        Mover::Pawn => g.pawns,
    }
}

/// The moves of the piece of one kind of mover on `s`.
pub open spec fn moves_of(g: MoveMasks, mover: Mover, s: int) -> Seq<Move> {
    match mover {
        Mover::Knight => moves_to(s, knight_targets(g, s), MoveFlag::Normal),
        Mover::Diagonal => moves_to(s, diagonal_targets(g, s), MoveFlag::Normal),
        Mover::Orthogonal => moves_to(s, orthogonal_targets(g, s), MoveFlag::Normal),
        Mover::Pawn => pawn_moves(g, s),
    }
}

/// The moves of the pieces on the squares of a sequence.
pub open spec fn gathered_over(g: MoveMasks, mover: Mover, squares: Seq<int>) -> Seq<Move>
    decreases squares.len(),
{
    if squares.len() == 0 {
        Seq::empty()
    } else {
        gathered_over(g, mover, squares.drop_last()) + moves_of(g, mover, squares.last())
    }
}

/// The moves of all pieces of one kind of mover, from the lowest square up.
pub open spec fn gathered(g: MoveMasks, mover: Mover) -> Seq<Move> {
    gathered_over(g, mover, squares_of(movers(g, mover)))
}

/// The squares between king and rook on the king's side of the first rank.
pub const KING_SIDE_PATH: u64 = 0x60;

/// The squares between king and rook on the queen's side of the first rank.
pub const QUEEN_SIDE_PATH: u64 = 0x0e;

/// The squares that the king crosses on the queen's side of the first rank.
pub const QUEEN_SIDE_WALK: u64 = 0x0c;

/// The first square of the home rank of a colour.
pub open spec fn home(us: PieceColor) -> int {
    us.code() * 56
}

/// A path of the first rank, on the home rank of a colour.
pub open spec fn on_home_rank(path: u64, us: PieceColor) -> u64 {
    if us == PieceColor::White {
        path
    } else {
        path << 56
    }
}

/// The king may castle on the king's side: it has the right and is not in
/// check, king and rook are at home, the squares between them are empty and
/// those that the king crosses are not attacked.
pub open spec fn may_castle_king_side(g: MoveMasks) -> bool {
    &&& g.quiets && !g.in_check
    &&& g.king_side
    &&& g.king == 4 + home(g.us)
    &&& g.all & on_home_rank(KING_SIDE_PATH, g.us) == 0
    &&& g.attacked & on_home_rank(KING_SIDE_PATH, g.us) == 0
    &&& bit(g.rooks, 7 + home(g.us))
}

/// The king may castle on the queen's side.
pub open spec fn may_castle_queen_side(g: MoveMasks) -> bool {
    &&& g.quiets && !g.in_check
    &&& g.queen_side
    &&& g.king == 4 + home(g.us)
    &&& g.all & on_home_rank(QUEEN_SIDE_PATH, g.us) == 0
    &&& g.attacked & on_home_rank(QUEEN_SIDE_WALK, g.us) == 0
    &&& bit(g.rooks, home(g.us))
}

/// The castling moves.
pub open spec fn castling_moves(g: MoveMasks) -> Seq<Move> {
    (if may_castle_king_side(g) {
        seq![Move::encode(4 + home(g.us), 6 + home(g.us), MoveFlag::Castle)]
    } else {
        Seq::empty()
    }) + (if may_castle_queen_side(g) {
        seq![Move::encode(4 + home(g.us), 2 + home(g.us), MoveFlag::Castle)]
    } else {
        Seq::empty()
    })
}

/// The moves of the king, castling apart.
pub open spec fn king_moves(g: MoveMasks) -> Seq<Move> {
    if g.king < 64 {
        moves_to(g.king as int, king_targets(g), MoveFlag::Normal)
    } else {
        Seq::empty()
    }
}

/// The moves that the masks allow: in a double check those of the king only.
pub open spec fn moves_for(g: MoveMasks) -> Seq<Move> {
    if g.double_check {
        king_moves(g)
    } else {
        king_moves(g) + castling_moves(g) + gathered(g, Mover::Knight) + gathered(
            g,
            Mover::Diagonal,
        ) + gathered(g, Mover::Orthogonal) + gathered(g, Mover::Pawn)
    }
}

/// The legal moves of a position; without `quiets` only the captures and
/// the promotions to a queen among them.
pub open spec fn legal_moves(p: Position, quiets: bool) -> Seq<Move> {
    moves_for(masks_of(p, quiets))
}

/// The moves of a sequence that start on one square, in their order.
pub open spec fn moves_from(moves: Seq<Move>, square: int) -> Seq<Move>
    decreases moves.len(),
{
    if moves.len() == 0 {
        Seq::empty()
    } else if moves.last().from() == square {
        moves_from(moves.drop_last(), square).push(moves.last())
    } else {
        moves_from(moves.drop_last(), square)
    }
}

} // verus!
