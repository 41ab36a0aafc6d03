//! Playing on a board: the legal moves as a list, moves made only if they
//! are legal, mate, and the count of the positions of a search tree.

use vstd::prelude::*;
use vstd::string::StringSliceAdditionalSpecFns;
use crate::validity::lemma_legal_moves_usable;
use crate::board::ChessBoard;
use crate::chess_move::{Move, MoveContainer, MoveFlag};
use crate::make_move::{lemma_make_then_unmake, make_post, same_board};
use crate::move_generation::MoveGenerator;
use crate::piece::Piece;
use crate::position::{canonical, move_in_bounds, Position};
use crate::rules::{king_square, legal_moves, moves_from, square_in_check};

verus! {

/// A move can be made and taken back on a position: its squares are in
/// bounds and it has what the model asks of a legal move.
pub open spec fn usable(p: Position, m: Move) -> bool {
    move_in_bounds(m) && p.applicable(m)
}

/// The first moves of a sequence, as many as a `MoveContainer` holds.
pub open spec fn contained(moves: Seq<Move>) -> Seq<Move> {
    if moves.len() <= 218 {
        moves
    } else {
        moves.take(218)
    }
}

/// The last move of a sequence whose text in coordinate notation is `text`.
pub open spec fn move_named(moves: Seq<Move>, text: Seq<u8>) -> Option<Move>
    decreases moves.len(),
{
    if moves.len() == 0 {
        None
    } else if moves.last().uci_bytes() == text {
        Some(moves.last())
    } else {
        move_named(moves.drop_last(), text)
    }
}

/// The number of positions at the leaves of the tree of legal moves of a
/// given depth.
pub open spec fn perft_nodes(p: Position, depth: nat) -> nat
    decreases depth, 1int, 0int,
{
    if depth == 0 {
        1
    } else {
        perft_sum(p, legal_moves(p, true), depth)
    }
}

/// The number of leaves below the moves of a sequence.
pub open spec fn perft_sum(p: Position, moves: Seq<Move>, depth: nat) -> nat
    decreases depth, 0int, moves.len(),
{
    if depth == 0 || moves.len() == 0 {
        0
    } else {
        perft_sum(p, moves.drop_last(), depth) + perft_nodes(
            p.made(moves.last()),
            (depth - 1) as nat,
        )
    }
}

/// A count as a machine number: itself, or the largest number if it does not fit.
pub open spec fn capped(n: nat) -> u64 {
    if n > 0xffff_ffff_ffff_ffff {
        0xffff_ffff_ffff_ffff
    } else {
        n as u64
    }
}

/// Two boards show the same position, history, table of repetitions and hash.
pub open spec fn same_state(a: &ChessBoard, b: &ChessBoard) -> bool {
    &&& a@ == b@
    &&& a.move_history@ == b.move_history@
    &&& a.repetitions@ == b.repetitions@
    &&& a.zobrist_hash == b.zobrist_hash
    &&& a.keys == b.keys
    &&& a.tables == b.tables
}

/// The moves of a vector as a list of at most 218.
pub fn to_container(moves: &Vec<Move>) -> (c: MoveContainer)
    ensures
        c@ == contained(moves@),
{
    let mut c = MoveContainer::new();
    let mut i: usize = 0;
    assert(moves@.take(0) =~= Seq::<Move>::empty());
    while i < moves.len() && i < 218
        invariant
            i <= moves@.len(),
            i <= 218,
            c@ == moves@.take(i as int),
        decreases moves@.len() - i,
    {
        c.push(moves[i]);
        i += 1;
        assert(c@ =~= moves@.take(i as int));
    }
    assert(moves@.len() <= 218 ==> moves@.take(i as int) =~= moves@);
    c
}

impl ChessBoard {
    /// The legal moves of the position; the first 218 of them if there are more.
    pub fn get_legal_moves(&self) -> (c: MoveContainer)
        requires
            self.consistent(),
        ensures
            c@ == contained(legal_moves(self@, true)),
    {
        to_container(&MoveGenerator::get_legal_moves(self, true))
    }

    /// The legal captures and promotions to a queen.
    pub fn get_legal_captures(&self) -> (c: MoveContainer)
        requires
            self.consistent(),
        ensures
            c@ == contained(legal_moves(self@, false)),
    {
        to_container(&MoveGenerator::get_legal_moves(self, false))
    }

    /// The legal moves that start on one square.
    pub fn get_legal_moves_for_square(&self, square: i32) -> (c: MoveContainer)
        requires
            self.consistent(),
        ensures
            c@ == contained(moves_from(legal_moves(self@, true), square as int)),
    {
        to_container(&MoveGenerator::get_legal_moves_for_square(self, square))
    }

    /// The side to move is mated: its king is attacked and it has no legal move.
    pub fn is_check_mate(&self) -> (r: bool)
        requires
            self.consistent(),
        ensures
            r == (king_square(self@, self.turn) < 64 && square_in_check(
                self@,
                self.turn,
                king_square(self@, self.turn),
            ) && legal_moves(self@, true).len() == 0),
    {
        self.is_king_in_check(self.turn) && MoveGenerator::get_legal_moves(self, true).len() == 0
    }

    /// The move can be made and taken back on this board.
    pub fn can_make(&self, chess_move: Move) -> (r: bool)
        requires
            self@.wf(),
        ensures
            r == usable(self@, chess_move),
    {
        let from = chess_move.get_from_idx();
        let to = chess_move.get_to_idx();
        let moving = self.get_piece(from);
        assert(canonical(self.board@[from as int]));
        if moving.is_none() {
            return false;
        }
        match chess_move.get_flag() {
            MoveFlag::EnPassant => 8 <= to && to < 56 && self.get_piece(to) == Piece(0),
            MoveFlag::PawnTwoUp => 8 <= from && from < 56,
            MoveFlag::Castle => {
                let (rook_from, rook_to): (i32, i32) = if to == 6 {
                    (7, 5)
                } else if to == 2 {
                    (0, 3)
                } else if to == 62 {
                    (63, 61)
                } else {
                    (56, 59)
                };
                (to == 6 || to == 2 || to == 62 || to == 58) && from != to && from != rook_from
                    && from != rook_to && self.get_piece(rook_to) == Piece(0)
            },
            MoveFlag::Normal => true,
            _ => moving.get_piece() == 1,
        }
    }

    /// Makes a move if it is one of the legal moves of the position, and
    /// says whether it did.
    pub fn make_move_checked(&mut self, chess_move: Move) -> (r: bool)
        requires
            old(self).wf(),
        ensures
            r == legal_moves(old(self)@, true).contains(chess_move),
            r ==> make_post(old(self), chess_move, false, final(self)),
            !r ==> same_board(final(self), old(self)),
            final(self).wf(),
            r && old(self).history_ok() ==> final(self).history_ok(),
    {
        let moves = MoveGenerator::get_legal_moves(self, true);
        let mut found = false;
        let mut i: usize = 0;
        while i < moves.len()
            invariant
                i <= moves@.len(),
                found == moves@.take(i as int).contains(chess_move),
            decreases moves@.len() - i,
        {
            if moves[i] == chess_move {
                found = true;
            }
            proof {
                let before = moves@.take(i as int);
                let after = moves@.take(i + 1);
                assert(after =~= before.push(moves@[i as int]));
                if before.contains(chess_move) {
                    let j = choose|j: int| 0 <= j < before.len() && before[j] == chess_move;
                    assert(after[j] == chess_move);
                }
                if moves@[i as int] == chess_move {
                    assert(after[i as int] == chess_move);
                }
            }
            i += 1;
        }
        assert(moves@.take(moves@.len() as int) =~= moves@);
        if !found {
            return false;
        }
        proof {
            lemma_legal_moves_usable(self@, true);
            let j = choose|j: int| 0 <= j < moves@.len() && moves@[j] == chess_move;
            assert(usable(self@, moves@[j]));
        }
        self.make_move(chess_move, false);
        true
    }

    /// Makes the legal move whose text in coordinate notation is `uci`, if
    /// there is one.
    pub fn make_move_uci(&mut self, uci: &str) -> (r: Option<()>)
        requires
            old(self).wf(),
        ensures
            r is Some <==> move_named(legal_moves(old(self)@, true), uci.spec_bytes()) is Some,
            r is Some ==> make_post(
                old(self),
                move_named(legal_moves(old(self)@, true), uci.spec_bytes()).unwrap(),
                false,
                final(self),
            ),
            r is None ==> same_board(final(self), old(self)),
            final(self).wf(),
            r is Some && old(self).history_ok() ==> final(self).history_ok(),
    {
        let moves = MoveGenerator::get_legal_moves(self, true);
        let mut found: Option<Move> = None;
        let mut i: usize = 0;
        while i < moves.len()
            invariant
                i <= moves@.len(),
                found == move_named(moves@.take(i as int), uci.spec_bytes()),
                found matches Some(m) ==> moves@.contains(m),
            decreases moves@.len() - i,
        {
            proof {
                assert(moves@.take(i + 1).drop_last() =~= moves@.take(i as int));
            }
            if moves[i].matches_uci(uci) {
                found = Some(moves[i]);
            }
            i += 1;
        }
        assert(moves@.take(moves@.len() as int) =~= moves@);
        match found {
            Some(m) => {
                proof {
                    lemma_legal_moves_usable(self@, true);
                    let j = choose|j: int| 0 <= j < moves@.len() && moves@[j] == m;
                    assert(usable(self@, moves@[j]));
                }
                self.make_move(m, false);
                Some(())
            },
            None => None,
        }
    }

    /// The number of positions at the leaves of the tree of legal moves of
    /// the given depth, or the largest number if the count does not fit. The
    /// board is left as it was.
    pub fn perft(&mut self, depth: u32) -> (nodes: u64)
        requires
            old(self).wf(),
            old(self).history_ok(),
        ensures
            nodes == capped(perft_nodes(old(self)@, depth as nat)),
            same_state(final(self), old(self)),
            final(self).wf(),
            final(self).history_ok(),
        decreases depth,
    {
        if depth == 0 {
            return 1;
        }
        let moves = MoveGenerator::get_legal_moves(self, true);
        let ghost start = *self;
        let mut positions = 0u64;
        let mut i: usize = 0;
        assert(moves@.take(0) =~= Seq::<Move>::empty());
        while i < moves.len()
            invariant
                depth > 0,
                i <= moves@.len(),
                start.wf(),
                start.history_ok(),
                moves@ == legal_moves(start@, true),
                same_state(self, &start),
                self.wf(),
                self.history_ok(),
                positions == capped(perft_sum(start@, moves@.take(i as int), depth as nat)),
            decreases moves@.len() - i,
        {
            let m = moves[i];
            proof {
                assert(moves@.take(i + 1).drop_last() =~= moves@.take(i as int));
                assert(moves@.take(i + 1).last() == m);
                lemma_legal_moves_usable(start@, true);
                assert(usable(start@, moves@[i as int]));
            }
            let ghost before = *self;
            self.make_move(m, true);
            let below = self.perft(depth - 1);
            let ghost searched = *self;
            let result = self.unmake_move();
            proof {
                lemma_make_then_unmake(&before, m, true, &searched, &*self, result);
            }
            positions = if positions > 0xffff_ffff_ffff_ffff - below {
                0xffff_ffff_ffff_ffff
            } else {
                positions + below
            };
            i += 1;
        }
        assert(moves@.take(moves@.len() as int) =~= moves@);
        positions
    }

    /// The moves of the position with the count of `perft` below each.
    pub fn perft_divide(&mut self, depth: u32) -> (counts: Vec<(Move, u64)>)
        requires
            old(self).wf(),
            old(self).history_ok(),
            depth > 0,
        ensures
            same_state(final(self), old(self)),
            final(self).wf(),
            final(self).history_ok(),
            counts@.len() == legal_moves(old(self)@, true).len(),
            forall|i: int|
                0 <= i < counts@.len() ==> (#[trigger] counts@[i]).0 == legal_moves(
                    old(self)@,
                    true,
                )[i] && counts@[i].1 == capped(
                    perft_nodes(old(self)@.made(counts@[i].0), (depth - 1) as nat),
                ),
    {
        let moves = MoveGenerator::get_legal_moves(self, true);
        let ghost start = *self;
        let mut counts: Vec<(Move, u64)> = Vec::new();
        let mut i: usize = 0;
        while i < moves.len()
            invariant
                depth > 0,
                i <= moves@.len(),
                start.wf(),
                start.history_ok(),
                moves@ == legal_moves(start@, true),
                same_state(self, &start),
                self.wf(),
                self.history_ok(),
                counts@.len() == i,
                forall|j: int|
                    0 <= j < i ==> (#[trigger] counts@[j]).0 == moves@[j] && counts@[j].1
                        == capped(perft_nodes(start@.made(counts@[j].0), (depth - 1) as nat)),
            decreases moves@.len() - i,
        {
            let m = moves[i];
            proof {
                lemma_legal_moves_usable(start@, true);
                assert(usable(start@, moves@[i as int]));
            }
            let ghost before = *self;
            self.make_move(m, true);
            let below = self.perft(depth - 1);
            let ghost searched = *self;
            let result = self.unmake_move();
            proof {
                lemma_make_then_unmake(&before, m, true, &searched, &*self, result);
            }
            counts.push((m, below));
            i += 1;
        }
        counts
    }
}

} // verus!
