//! When two boards count as equal.

use vstd::prelude::*;
use crate::board::ChessBoard;
use crate::chess_move::ReversibleMove;
use crate::piece::Piece;

verus! {

/// Two arrays of bitboards hold the same bitboards.
fn same_bitboards<const N: usize>(a: &[u64; N], b: &[u64; N]) -> (r: bool)
    ensures
        r == (a@ == b@),
{
    let mut i: usize = 0;
    while i < N
        invariant
            i <= N,
            forall|j: int| 0 <= j < i ==> a@[j] == b@[j],
        decreases N - i,
    {
        if a[i] != b[i] {
            return false;
        }
        i += 1;
    }
    assert(a@ =~= b@);
    true
}

/// Two mailboxes hold the same pieces.
fn same_mailbox(a: &[Piece; 64], b: &[Piece; 64]) -> (r: bool)
    ensures
        r == (a@ == b@),
{
    let mut i: usize = 0;
    while i < 64
        invariant
            i <= 64,
            forall|j: int| 0 <= j < i ==> a@[j] == b@[j],
        decreases 64 - i,
    {
        if a[i] != b[i] {
            return false;
        }
        i += 1;
    }
    assert(a@ =~= b@);
    true
}

/// Two sets of castling rights are the same.
fn same_rights(a: &[bool; 4], b: &[bool; 4]) -> (r: bool)
    ensures
        r == (a@ == b@),
{
    let r = a[0] == b[0] && a[1] == b[1] && a[2] == b[2] && a[3] == b[3];
    if r {
        assert(a@ =~= b@);
    }
    r
}

/// Two records hold the same move and the same state of before.
pub open spec fn same_record_spec(a: ReversibleMove, b: ReversibleMove) -> bool {
    &&& a.board_move == b.board_move
    &&& a.captured == b.captured
    &&& a.zobrist_hash == b.zobrist_hash
    &&& a.en_passant_square == b.en_passant_square
    &&& a.castling@ == b.castling@
    &&& a.half_move == b.half_move
    &&& a.repetition_saved == b.repetition_saved
}

/// Two histories hold the same records in the same order.
pub open spec fn same_history_spec(a: Seq<ReversibleMove>, b: Seq<ReversibleMove>) -> bool {
    a.len() == b.len() && forall|i: int| 0 <= i < a.len() ==> same_record_spec(a[i], b[i])
}

fn same_record(a: &ReversibleMove, b: &ReversibleMove) -> (r: bool)
    ensures
        r == same_record_spec(*a, *b),
{
    a.board_move == b.board_move && a.captured == b.captured && a.zobrist_hash == b.zobrist_hash
        && a.en_passant_square == b.en_passant_square && same_rights(&a.castling, &b.castling)
        && a.half_move == b.half_move && a.repetition_saved == b.repetition_saved
}

fn same_history(a: &Vec<ReversibleMove>, b: &Vec<ReversibleMove>) -> (r: bool)
    ensures
        r == same_history_spec(a@, b@),
{
    if a.len() != b.len() {
        return false;
    }
    let mut i: usize = 0;
    while i < a.len()
        invariant
            i <= a@.len(),
            a@.len() == b@.len(),
            forall|j: int| 0 <= j < i ==> same_record_spec(a@[j], b@[j]),
        decreases a@.len() - i,
    {
        if !same_record(&a[i], &b[i]) {
            return false;
        }
        i += 1;
    }
    true
}

impl ChessBoard {
    /// Two boards show the same game: the same pieces, side to move,
    /// target, rights and counters, and the same history. The table of
    /// repetitions and the hash are not looked at.
    pub open spec fn same_game(&self, other: &ChessBoard) -> bool {
        &&& self.bitboards@ == other.bitboards@
        &&& self.side_bitboards@ == other.side_bitboards@
        &&& self.board@ == other.board@
        &&& self.turn == other.turn
        &&& self.en_passant == other.en_passant
        &&& self.castling_rights@ == other.castling_rights@
        &&& same_history_spec(self.move_history@, other.move_history@)
        &&& self.half_move == other.half_move
        &&& self.full_move == other.full_move
    }
}

impl PartialEq for ChessBoard {
    fn eq(&self, other: &ChessBoard) -> (r: bool) {
        same_bitboards(&self.bitboards, &other.bitboards) && same_bitboards(
            &self.side_bitboards,
            &other.side_bitboards,
        ) && same_mailbox(&self.board, &other.board) && self.turn == other.turn
            && self.en_passant == other.en_passant && same_rights(
            &self.castling_rights,
            &other.castling_rights,
        ) && same_history(&self.move_history, &other.move_history) && self.half_move
            == other.half_move && self.full_move == other.full_move
    }
}

impl vstd::std_specs::cmp::PartialEqSpecImpl for ChessBoard {
    open spec fn obeys_eq_spec() -> bool {
        true
    }

    open spec fn eq_spec(&self, other: &ChessBoard) -> bool {
        self.same_game(other)
    }
}

} // verus!
