//! The mathematical model of a position, and of making and taking back a move.
//!
//! A position is what the rules of the game can see of a board: the piece
//! on each square, the side to move, the castling rights, the en-passant
//! target and the two move counters. Making a move and taking it back are
//! functions on positions; the board of the executable code is held to them.

use vstd::prelude::*;
use crate::chess_move::{Move, MoveFlag, ReversibleMove};
use crate::piece::{Piece, PieceColor, PieceType};
use crate::zobrist::position_hash;

verus! {

/// The empty square.
pub open spec fn no_piece() -> Piece {
    Piece(0)
}

/// A byte that the mailbox may hold: the empty square or a piece of one of the six kinds.
pub open spec fn canonical(p: Piece) -> bool {
    p.0 == 0 || p.occupied()
}

/// What the rules can see of a board.
pub struct Position {
    /// The piece on each of the 64 squares.
    pub board: Seq<Piece>,
    /// The side to move.
    pub turn: PieceColor,
    /// The en-passant target, or -1.
    pub en_passant: int,
    /// The castling rights: white king side, white queen side, black king side, black queen side.
    pub castling: Seq<bool>,
    /// Half moves since the last capture or pawn move, modulo 256.
    pub half_move: int,
    /// The number of the move, modulo 65536.
    pub full_move: int,
}

/// The square of the pawn that an en-passant capture removes, seen from the
/// target square: one rank behind it, from the capturing side.
pub open spec fn victim_square(moving: Piece, to: int) -> int {
    if moving.color() == PieceColor::Black {
        to + 8
    } else {
        to - 8
    }
}

/// The square that a pawn of the colour of `moving` passes on a double step from `from`.
pub open spec fn passed_square(moving: Piece, from: int) -> int {
    if moving.color() == PieceColor::White {
        from + 8
    } else {
        from - 8
    }
}

/// The king's destination is one of the four castling destinations.
pub open spec fn is_castle_target(to: int) -> bool {
    to == 6 || to == 2 || to == 62 || to == 58
}

/// The corner from which the rook comes when the king castles to `to`.
pub open spec fn rook_origin(to: int) -> int {
    if to == 6 {
        7
    } else if to == 2 {
        0
    } else if to == 62 {
        63
    } else {
        56
    }
}

/// The square on which the rook lands when the king castles to `to`.
pub open spec fn rook_landing(to: int) -> int {
    if to == 6 {
        5
    } else if to == 2 {
        3
    } else if to == 62 {
        61
    } else {
        59
    }
}

/// The corner square that belongs to a castling right.
pub open spec fn corner_of(right: int) -> int {
    if right == 0 {
        7
    } else if right == 1 {
        0
    } else if right == 2 {
        63
    } else {
        56
    }
}

/// A castling right is lost when the king of its colour moves, when a rook
/// leaves its corner, and when a rook is captured on it.
pub open spec fn right_lost(moving: Piece, captured: Piece, from: int, to: int, right: int) -> bool {
    ||| moving.kind() == PieceType::King && moving.color().code() == right / 2
    ||| moving.kind() == PieceType::Rook && from == corner_of(right)
    ||| captured.kind() == PieceType::Rook && to == corner_of(right)
}

/// The kind that a promotion flag asks for.
pub open spec fn promoted_kind(flag: MoveFlag) -> PieceType {
    match flag {
        MoveFlag::PromoteQueen => PieceType::Queen,
        MoveFlag::PromoteRook => PieceType::Rook,
        MoveFlag::PromoteBishop => PieceType::Bishop,
        MoveFlag::PromoteKnight => PieceType::Knight,
        _ => PieceType::Empty,
    }
}

/// The squares of a move are such that making it and taking it back stay on
/// the board: an en-passant capture has a rank behind its target on either
/// side, a double step passes a square of the board, and a castling king
/// goes to one of the four castling destinations.
pub open spec fn move_in_bounds(m: Move) -> bool {
    match m.flag() {
        MoveFlag::EnPassant => 8 <= m.to() < 56,
        MoveFlag::PawnTwoUp => 8 <= m.from() < 56,
        MoveFlag::Castle => is_castle_target(m.to()),
        _ => true,
    }
}

/// A record can be taken back without leaving the board.
pub open spec fn record_ok(r: ReversibleMove) -> bool {
    &&& move_in_bounds(r.board_move)
    &&& canonical(r.captured)
    &&& -1 <= r.en_passant_square < 64
}

impl Position {
    /// The position is well formed: 64 squares with canonical bytes, four
    /// rights, a target on the board or none, counters in their range.
    pub open spec fn wf(self) -> bool {
        &&& self.board.len() == 64
        &&& forall|sq: int| 0 <= sq < 64 ==> canonical(#[trigger] self.board[sq])
        &&& self.castling.len() == 4
        &&& -1 <= self.en_passant < 64
        &&& 0 <= self.half_move < 256
        &&& 0 <= self.full_move < 65536
    }

    /// The hash of the position, from scratch.
    pub open spec fn hash(self) -> u64 {
        position_hash(self.board, self.castling, self.turn)
    }

    /// The piece that a move carries.
    pub open spec fn moving(self, m: Move) -> Piece {
        self.board[m.from()]
    }

    /// The piece that a move puts on its destination: the moving piece, or
    /// what it is promoted to.
    pub open spec fn placed(self, m: Move) -> Piece {
        if m.flag().is_promotion() {
            self.moving(m).with_kind(promoted_kind(m.flag()))
        } else {
            self.moving(m)
        }
    }

    /// The board on which the moving piece is carried to its destination:
    /// the board itself, or for a castling move the board with the rook
    /// already across.
    pub open spec fn board_with_rook_across(self, m: Move) -> Seq<Piece> {
        if m.flag() == MoveFlag::Castle {
            self.board.update(rook_origin(m.to()), no_piece()).update(
                rook_landing(m.to()),
                self.board[rook_origin(m.to())],
            )
        } else {
            self.board
        }
    }

    /// The board of an en-passant capture before the captured pawn is removed.
    pub open spec fn board_with_pawn_across(self, m: Move) -> Seq<Piece> {
        self.board.update(m.from(), no_piece()).update(m.to(), self.moving(m))
    }

    /// The piece that a move removes from the board.
    pub open spec fn captured(self, m: Move) -> Piece {
        if m.flag() == MoveFlag::EnPassant {
            self.board_with_pawn_across(m)[victim_square(self.moving(m), m.to())]
        } else {
            self.board_with_rook_across(m).update(m.from(), no_piece())[m.to()]
        }
    }

    /// The board after a move.
    pub open spec fn made_board(self, m: Move) -> Seq<Piece> {
        if m.flag() == MoveFlag::EnPassant {
            self.board_with_pawn_across(m).update(
                victim_square(self.moving(m), m.to()),
                no_piece(),
            )
        } else {
            self.board_with_rook_across(m).update(m.from(), no_piece()).update(
                m.to(),
                self.placed(m),
            )
        }
    }

    /// A move takes away a castling right: the king of its colour moves, or
    /// a rook leaves its corner, or a rook is captured on it.
    pub open spec fn loses_right(self, m: Move, right: int) -> bool {
        right_lost(self.moving(m), self.captured(m), m.from(), m.to(), right)
    }

    /// The castling rights after a move.
    pub open spec fn made_castling(self, m: Move) -> Seq<bool> {
        if m.flag() == MoveFlag::EnPassant {
            self.castling
        } else {
            Seq::new(4, |i: int| self.castling[i] && !self.loses_right(m, i))
        }
    }

    /// A move starts the count of half moves again: an en-passant capture,
    /// any other capture, or a move of a pawn.
    pub open spec fn resets_clock(self, m: Move) -> bool {
        m.flag() == MoveFlag::EnPassant || !self.captured(m).empty() || self.moving(m).kind()
            == PieceType::Pawn
    }

    /// The position after a move. A move from an empty square changes nothing.
    pub open spec fn made(self, m: Move) -> Position {
        if self.moving(m).empty() {
            self
        } else {
            Position {
                board: self.made_board(m),
                turn: self.turn.opposite(),
                en_passant: if m.flag() == MoveFlag::PawnTwoUp {
                    passed_square(self.moving(m), m.from())
                } else {
                    -1
                },
                castling: self.made_castling(m),
                half_move: if self.resets_clock(m) {
                    0
                } else {
                    (self.half_move + 1) % 256
                },
                full_move: (self.full_move + self.turn.code()) % 65536,
            }
        }
    }

    /// The record that a move leaves behind holds what the position cannot
    /// recompute: the captured piece and the target, rights and clock of before.
    pub open spec fn recorded(self, m: Move, r: ReversibleMove) -> bool {
        &&& r.board_move == m
        &&& r.captured == self.captured(m)
        &&& r.en_passant_square == self.en_passant
        &&& r.castling@ == self.castling
        &&& r.half_move == self.half_move
    }

    /// The position before the move of a record.
    pub open spec fn unmade(self, r: ReversibleMove) -> Position {
        let m = r.board_move;
        let moving = self.board[m.to()];
        let emptied = self.board.update(m.to(), r.captured);
        let restored = if m.flag() == MoveFlag::EnPassant {
            emptied.update(m.to(), no_piece()).update(victim_square(moving, m.to()), r.captured)
        } else if m.flag() == MoveFlag::Castle {
            emptied.update(rook_landing(m.to()), no_piece()).update(
                rook_origin(m.to()),
                emptied[rook_landing(m.to())],
            )
        } else {
            emptied
        };
        let back = if m.flag().is_promotion() {
            moving.with_kind(PieceType::Pawn)
        } else {
            moving
        };
        Position {
            board: restored.update(m.from(), back),
            turn: self.turn.opposite(),
            en_passant: r.en_passant_square as int,
            castling: r.castling@,
            half_move: r.half_move as int,
            full_move: (self.full_move - self.turn.opposite().code()) % 65536,
        }
    }

    /// What making a move relies upon of a legal move, as far as taking it
    /// back goes: the origin holds a piece; a promotion moves a pawn; an
    /// en-passant capture lands on an empty square; a castling king leaves a
    /// square that is neither its destination nor one of the rook's, and the
    /// rook lands on an empty square.
    pub open spec fn applicable(self, m: Move) -> bool {
        &&& move_in_bounds(m)
        &&& self.moving(m).occupied()
        &&& m.flag().is_promotion() ==> self.moving(m).kind_code() == 1
        &&& m.flag() == MoveFlag::EnPassant ==> self.board[m.to()] == no_piece()
        &&& m.flag() == MoveFlag::Castle ==> {
            &&& m.from() != m.to()
            &&& m.from() != rook_origin(m.to())
            &&& m.from() != rook_landing(m.to())
            &&& self.board[rook_landing(m.to())] == no_piece()
        }
    }
}

/// Making a move keeps a position well formed.
pub proof fn lemma_made_wf(p: Position, m: Move)
    requires
        p.wf(),
        move_in_bounds(m),
    ensures
        p.made(m).wf(),
        canonical(p.captured(m)),
{
    let q = p.made(m);
    if !p.moving(m).empty() {
        assert(canonical(p.board[m.from()]));
        assert(canonical(p.placed(m)));
        assert(canonical(p.board[rook_origin(m.to())]));
        assert forall|sq: int| 0 <= sq < 64 implies canonical(#[trigger] q.board[sq]) by {
            assert(canonical(p.board[sq]));
        }
    }
    if m.flag() == MoveFlag::EnPassant {
        assert(canonical(p.board[victim_square(p.moving(m), m.to())]));
    } else {
        assert(canonical(p.board[m.to()]));
        assert(canonical(p.board[rook_origin(m.to())]));
    }
}

/// Taking back a record keeps a position well formed.
pub proof fn lemma_unmade_wf(p: Position, r: ReversibleMove)
    requires
        p.wf(),
        record_ok(r),
    ensures
        p.unmade(r).wf(),
{
    let q = p.unmade(r);
    let m = r.board_move;
    assert(canonical(p.board[m.to()]));
    assert(canonical(p.board[rook_landing(m.to())]));
    assert forall|sq: int| 0 <= sq < 64 implies canonical(#[trigger] q.board[sq]) by {
        assert(canonical(p.board[sq]));
    }
}

/// Taking back a move that was made gives the position of before: the same
/// pieces on the same squares, the same side to move, the same rights and
/// target, and both counters as they were.
pub proof fn lemma_unmake_inverts_make(p: Position, m: Move, r: ReversibleMove)
    requires
        p.wf(),
        p.applicable(m),
        p.recorded(m, r),
    ensures
        p.made(m).unmade(r) == p,
{
    let q = p.made(m).unmade(r);
    assert(q.board =~= p.board);
    assert(q.castling =~= p.castling);
}

} // verus!
