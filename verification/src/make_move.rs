//! Making a move and taking it back.

use vstd::prelude::*;
use crate::bits::{bit, lemma_bits_equal};
use crate::board::{agree, ChessBoard};
use crate::chess_move::{Move, MoveFlag, ReversibleMove};
use crate::piece::{Piece, PieceColor, PieceType};
use crate::position::{
    canonical, lemma_made_wf, lemma_unmade_wf, lemma_unmake_inverts_make, move_in_bounds,
    record_ok, right_lost,
};
use crate::repetition_table::{
    cleared, counted, counted_existing, slot_of, uncounted, RepetitionEntry,
};

verus! {

/// The table of repetitions in which a move is counted: emptied if the move
/// starts the clock again outside a search, else as it was. An en-passant
/// capture leaves the table as it is.
pub open spec fn table_before_count(pre: &ChessBoard, m: Move, is_search: bool) -> Seq<
    RepetitionEntry,
> {
    if !is_search && m.flag() != MoveFlag::EnPassant && pre@.resets_clock(m) {
        cleared()
    } else {
        pre.repetitions@
    }
}

/// The table of repetitions after a move: the new position is counted, in a
/// search only if the table knows it already.
pub open spec fn table_after_count(pre: &ChessBoard, m: Move, is_search: bool) -> Seq<
    RepetitionEntry,
> {
    let hash = pre@.made(m).hash();
    if is_search {
        counted_existing(table_before_count(pre, m, is_search), hash)
    } else {
        counted(table_before_count(pre, m, is_search), hash)
    }
}

/// The new position was counted.
pub open spec fn was_counted(pre: &ChessBoard, m: Move, is_search: bool) -> bool {
    let hash = pre@.made(m).hash();
    is_search ==> table_before_count(pre, m, is_search)[slot_of(hash)].zobrist_hash == hash
}

/// Two boards are the same in every field.
pub open spec fn same_board(a: &ChessBoard, b: &ChessBoard) -> bool {
    &&& a.same_pieces(b)
    &&& a.same_frame(b)
    &&& a.zobrist_hash == b.zobrist_hash
}

/// What making a move does to a board. A move from an empty square changes
/// nothing. Any other move leads to the position that the model gives,
/// counts it in the table of repetitions, and puts on the history a record
/// of the move, of what it captured, and of the target, rights, clock and
/// hash of before.
pub open spec fn make_post(pre: &ChessBoard, m: Move, is_search: bool, post: &ChessBoard) -> bool {
    if pre@.moving(m).empty() {
        same_board(post, pre)
    } else {
        &&& post@ == pre@.made(m)
        &&& post.keys == pre.keys
        &&& post.tables == pre.tables
        &&& post.repetitions@ == table_after_count(pre, m, is_search)
        &&& post.move_history@.len() == pre.move_history@.len() + 1
        &&& post.move_history@.drop_last() == pre.move_history@
        &&& pre@.recorded(m, post.move_history@.last())
        &&& post.move_history@.last().zobrist_hash == pre.zobrist_hash
        &&& post.move_history@.last().repetition_saved == was_counted(pre, m, is_search)
    }
}

/// What taking back a move does to a board. With no move to take back,
/// nothing changes. Otherwise the last record leaves the history, the
/// position is the one that the model gives, the hash is the one of the
/// record, and the count of the position left is taken back if it was made.
pub open spec fn unmake_post(pre: &ChessBoard, post: &ChessBoard, result: Option<Move>) -> bool {
    if pre.move_history@.len() == 0 {
        result is None && same_board(post, pre)
    } else {
        let r = pre.move_history@.last();
        &&& result == Some(r.board_move)
        &&& post@ == pre@.unmade(r)
        &&& post.move_history@ == pre.move_history@.drop_last()
        &&& post.zobrist_hash == r.zobrist_hash
        &&& post.keys == pre.keys
        &&& post.tables == pre.tables
        &&& post.repetitions@ == if r.repetition_saved {
            uncounted(pre.repetitions@, pre.zobrist_hash)
        } else {
            pre.repetitions@
        }
    }
}

impl ChessBoard {
    /// Takes away the castling rights that a move costs.
    fn update_rights(&mut self, moving: Piece, captured: Piece, from: i32, to: i32)
        requires
            0 <= from < 64,
            0 <= to < 64,
        ensures
            final(self).castling_rights@ == Seq::new(
                4,
                |i: int|
                    old(self).castling_rights@[i] && !right_lost(
                        moving,
                        captured,
                        from as int,
                        to as int,
                        i,
                    ),
            ),
            final(self).gap() == old(self).gap(),
            final(self).same_pieces(old(self)),
            final(self).turn == old(self).turn,
            final(self).en_passant == old(self).en_passant,
            final(self).half_move == old(self).half_move,
            final(self).full_move == old(self).full_move,
            final(self).repetitions == old(self).repetitions,
            final(self).move_history == old(self).move_history,
            final(self).keys == old(self).keys,
            final(self).tables == old(self).tables,
    {
        let king = moving.get_piece_type() == PieceType::King;
        let rook = moving.get_piece_type() == PieceType::Rook;
        let taken = captured.get_piece_type() == PieceType::Rook;
        let color = moving.get_color().to_index();
        if (king && color == 0) || (rook && from == 7) || (taken && to == 7) {
            self.drop_right(0);
        }
        if (king && color == 0) || (rook && from == 0) || (taken && to == 0) {
            self.drop_right(1);
        }
        if (king && color == 1) || (rook && from == 63) || (taken && to == 63) {
            self.drop_right(2);
        }
        if (king && color == 1) || (rook && from == 56) || (taken && to == 56) {
            self.drop_right(3);
        }
        assert(self.castling_rights@ =~= Seq::new(
            4,
            |i: int|
                old(self).castling_rights@[i] && !right_lost(
                    moving,
                    captured,
                    from as int,
                    to as int,
                    i,
                ),
        ));
    }

    /// Counts the position in the table of repetitions and puts the record of
    /// the move on the history.
    fn close_move(
        &mut self,
        chess_move: Move,
        captured: Piece,
        en_passant: i32,
        castling: [bool; 4],
        half_move: u8,
        hash: u64,
        is_in_search: bool,
    )
        ensures
            final(self).repetitions@ == if is_in_search {
                counted_existing(old(self).repetitions@, old(self).zobrist_hash)
            } else {
                counted(old(self).repetitions@, old(self).zobrist_hash)
            },
            final(self).move_history@ == old(self).move_history@.push(
                ReversibleMove {
                    board_move: chess_move,
                    captured,
                    zobrist_hash: hash,
                    en_passant_square: en_passant,
                    castling,
                    half_move,
                    repetition_saved: is_in_search ==> old(self).repetitions@[slot_of(
                        old(self).zobrist_hash,
                    )].zobrist_hash == old(self).zobrist_hash,
                },
            ),
            final(self).same_pieces(old(self)),
            final(self).zobrist_hash == old(self).zobrist_hash,
            final(self).turn == old(self).turn,
            final(self).en_passant == old(self).en_passant,
            final(self).castling_rights == old(self).castling_rights,
            final(self).half_move == old(self).half_move,
            final(self).full_move == old(self).full_move,
            final(self).keys == old(self).keys,
            final(self).tables == old(self).tables,
    {
        let saved = if is_in_search {
            self.repetitions.increment_existing_repetition(self.zobrist_hash)
        } else {
            self.repetitions.increment_repetition(self.zobrist_hash)
        };
        let record = ReversibleMove::new(
            chess_move,
            captured,
            en_passant,
            castling,
            half_move,
            hash,
            saved,
        );
        self.move_history.push(record);
    }

    /// Makes a move. The move is taken as legal: nothing of it is checked
    /// but that the origin holds a piece, without which nothing happens.
    #[verifier::rlimit(30)]
    pub fn make_move(&mut self, chess_move: Move, is_in_search: bool)
        requires
            old(self).wf(),
            move_in_bounds(chess_move),
        ensures
            make_post(old(self), chess_move, is_in_search, final(self)),
            final(self).wf(),
            old(self).history_ok() && (old(self)@.applicable(chess_move) || old(self)@.moving(
                chess_move,
            ).empty()) ==> final(self).history_ok(),
    {
        let from = chess_move.get_from_idx();
        let to = chess_move.get_to_idx();
        let moving_piece = self.get_piece(from);
        if moving_piece.is_none() {
            return ;
        }
        let ghost pre = *self;
        let ghost p = self@;
        proof {
            assert(canonical(self.board@[from as int]));
            assert(canonical(self.board@[to as int]));
            lemma_made_wf(p, chess_move);
            self.lemma_gap_zero();
        }
        let flag = chess_move.get_flag();
        let en_passant_hold = self.en_passant;
        let zobrist_hold = self.zobrist_hash;
        let castling_hold = self.castling_rights;
        let half_move_hold = self.half_move;

        self.en_passant = -1;
        if self.turn == PieceColor::Black {
            self.full_move = if self.full_move == 65535 {
                0
            } else {
                self.full_move + 1
            };
        }
        self.flip_turn();
        if flag == MoveFlag::EnPassant {
            let victim: i32 = if moving_piece.get_color() == PieceColor::Black {
                to + 8
            } else {
                to - 8
            };
            let _ = self.set_piece(from, Piece::new(0));
            let _ = self.set_piece(to, moving_piece);
            let captured = self.set_piece(victim, Piece::new(0));
            self.half_move = 0;
            proof {
                assert(self.castling_rights@ =~= p.made(chess_move).castling);
                assert(self@ == p.made(chess_move));
                self.lemma_gap_zero();
            }
            self.close_move(
                chess_move,
                captured,
                en_passant_hold,
                castling_hold,
                half_move_hold,
                zobrist_hold,
                is_in_search,
            );
            proof {
                assert(self.move_history@.drop_last() =~= pre.move_history@);
                self.lemma_made(pre, chess_move, is_in_search);
            }
            return ;
        }
        let mut placed = moving_piece;
        match flag {
            MoveFlag::PawnTwoUp => {
                self.en_passant = if moving_piece.get_color() == PieceColor::White {
                    from + 8
                } else {
                    from - 8
                };
            },
            MoveFlag::Castle => {
                let (rook_from, rook_to): (i32, i32) = if to == 6 {
                    (7, 5)
                } else if to == 2 {
                    (0, 3)
                } else if to == 62 {
                    (63, 61)
                } else {
                    (56, 59)
                };
                let rook = self.set_piece(rook_from, Piece::new(0));
                let _ = self.set_piece(rook_to, rook);
            },
            MoveFlag::PromoteQueen => {
                placed.set_piece(PieceType::Queen);
            },
            MoveFlag::PromoteRook => {
                placed.set_piece(PieceType::Rook);
            },
            MoveFlag::PromoteBishop => {
                placed.set_piece(PieceType::Bishop);
            },
            MoveFlag::PromoteKnight => {
                placed.set_piece(PieceType::Knight);
            },
            _ => {},
        }
        assert(placed == p.placed(chess_move));
        assert(self.board@ == p.board_with_rook_across(chess_move));
        let _ = self.set_piece(from, Piece::new(0));
        let captured = self.set_piece(to, placed);
        assert(captured == p.captured(chess_move));
        assert(self.board@ == p.made_board(chess_move));

        if !captured.is_none() || moving_piece.get_piece_type() == PieceType::Pawn {
            if !is_in_search {
                self.repetitions.clear();
            }
            self.half_move = 0;
        } else {
            self.half_move = if self.half_move == 255 {
                0
            } else {
                self.half_move + 1
            };
        }
        self.update_rights(moving_piece, captured, from, to);
        proof {
            assert(self.castling_rights@ =~= p.made(chess_move).castling);
            assert(self@ == p.made(chess_move));
            self.lemma_gap_zero();
        }
        self.close_move(
            chess_move,
            captured,
            en_passant_hold,
            castling_hold,
            half_move_hold,
            zobrist_hold,
            is_in_search,
        );
        proof {
            assert(self.move_history@.drop_last() =~= pre.move_history@);
            self.lemma_made(pre, chess_move, is_in_search);
        }
    }

    /// The record on top of the history belongs to the move just made, so
    /// the history stays sound and the board consistent.
    proof fn lemma_made(&self, pre: ChessBoard, m: Move, is_search: bool)
        requires
            pre.wf(),
            move_in_bounds(m),
            !pre@.moving(m).empty(),
            self@ == pre@.made(m),
            self.hash_ok(),
            self.pieces_ok(),
            self.move_history@.len() == pre.move_history@.len() + 1,
            self.move_history@.drop_last() == pre.move_history@,
            pre@.recorded(m, self.move_history@.last()),
            self.move_history@.last().zobrist_hash == pre.zobrist_hash,
        ensures
            self.wf(),
            pre.history_ok() && pre@.applicable(m) ==> self.history_ok(),
    {
        let r = self.move_history@.last();
        lemma_made_wf(pre@, m);
        assert forall|i: int| 0 <= i < self.move_history@.len() implies record_ok(
            #[trigger] self.move_history@[i],
        ) by {
            if i < pre.move_history@.len() {
                assert(self.move_history@[i] == self.move_history@.drop_last()[i]);
                assert(record_ok(pre.move_history@[i]));
            }
        }
        if pre.history_ok() && pre@.applicable(m) {
            lemma_unmake_inverts_make(pre@, m, r);
        }
    }

    /// Takes back the last move made, and returns it; `None` if there is none.
    pub fn unmake_move(&mut self) -> (result: Option<Move>)
        requires
            old(self).consistent(),
        ensures
            unmake_post(old(self), final(self), result),
            final(self).consistent(),
            old(self).history_ok() && old(self).move_history@.len() > 0 ==> final(self).wf()
                && final(self).history_ok(),
    {
        if self.move_history.len() == 0 {
            return None;
        }
        let ghost pre = *self;
        let ghost p = self@;
        let move_made = self.move_history.pop().unwrap();
        proof {
            assert(record_ok(pre.move_history@[pre.move_history@.len() - 1]));
            lemma_unmade_wf(p, move_made);
        }
        if move_made.repetition_saved {
            let _ = self.repetitions.decrement_repetition(self.zobrist_hash);
        }
        let from = move_made.board_move.get_from_idx();
        let to = move_made.board_move.get_to_idx();
        let flag = move_made.board_move.get_flag();
        assert(canonical(self.board@[to as int]));
        let mut moving_piece = self.set_piece(to, move_made.captured);
        match flag {
            MoveFlag::EnPassant => {
                let victim: i32 = if moving_piece.get_color() == PieceColor::Black {
                    to + 8
                } else {
                    to - 8
                };
                let _ = self.set_piece(to, Piece::new(0));
                let _ = self.set_piece(victim, move_made.captured);
            },
            MoveFlag::Castle => {
                let (rook_from, rook_to): (i32, i32) = if to == 6 {
                    (7, 5)
                } else if to == 2 {
                    (0, 3)
                } else if to == 62 {
                    (63, 61)
                } else {
                    (56, 59)
                };
                let rook = self.set_piece(rook_to, Piece::new(0));
                let _ = self.set_piece(rook_from, rook);
            },
            MoveFlag::PromoteQueen | MoveFlag::PromoteRook | MoveFlag::PromoteBishop
            | MoveFlag::PromoteKnight => {
                moving_piece.set_piece(PieceType::Pawn);
            },
            _ => {},
        }
        let _ = self.set_piece(from, moving_piece);
        self.en_passant = move_made.en_passant_square;
        self.castling_rights = move_made.castling;
        self.half_move = move_made.half_move;
        self.turn = self.turn.flipped();
        self.zobrist_hash = move_made.zobrist_hash;
        if self.turn == PieceColor::Black {
            self.full_move = if self.full_move == 0 {
                65535
            } else {
                self.full_move - 1
            };
        }
        proof {
            assert(self.board@ =~= p.unmade(move_made).board);
            assert(self@ == p.unmade(move_made));
            assert forall|i: int| 0 <= i < self.move_history@.len() implies record_ok(
                #[trigger] self.move_history@[i],
            ) by {
                assert(record_ok(pre.move_history@[i]));
            }
        }
        Some(move_made.board_move)
    }

    /// The game is drawn by the fifty-move rule or by threefold repetition.
    pub fn is_draw(&self) -> (r: bool)
        ensures
            r == (self.half_move == 100 || (self.repetitions@[slot_of(
                self.zobrist_hash,
            )].zobrist_hash == self.zobrist_hash && self.repetitions@[slot_of(
                self.zobrist_hash,
            )].repetitions >= 3)),
    {
        if self.half_move == 100 {
            return true;
        }
        match self.repetitions.get_repetitions(self.zobrist_hash) {
            Some(reps) => reps >= 3,
            None => false,
        }
    }
}

/// On a consistent board a square is in the bitboard of a kind and colour
/// exactly if the mailbox holds such a piece on it.
pub proof fn lemma_mailbox_agreement(b: &ChessBoard, sq: int, idx: int)
    requires
        b.pieces_ok(),
        0 <= sq < 64,
        0 <= idx < 12,
    ensures
        bit(b.bitboards@[idx], sq) <==> (b.board@[sq].occupied() && b.board@[sq].index() == idx),
        b.board@[sq].occupied() ==> bit(
            b.side_bitboards@[b.board@[sq].color().code()],
            sq,
        ),
        !b.board@[sq].occupied() ==> !bit(b.side_bitboards@[0], sq) && !bit(
            b.side_bitboards@[1],
            sq,
        ),
        bit(b.side_bitboards@[0], sq) <==> (exists|i: int|
            0 <= i < 6 && #[trigger] bit(b.bitboards@[i], sq)),
        bit(b.side_bitboards@[1], sq) <==> (exists|i: int|
            6 <= i < 12 && #[trigger] bit(b.bitboards@[i], sq)),
{
    reveal(agree);
    let piece = b.board@[sq];
    if piece.occupied() {
        assert(bit(b.bitboards@[piece.index()], sq));
    }
    assert(bit(b.side_bitboards@[0], sq) == (piece.occupied() && piece.color().code() == 0));
    assert(bit(b.side_bitboards@[1], sq) == (piece.occupied() && piece.color().code() == 1));
}

/// The bitboards of two boards with the same mailbox are the same.
pub proof fn lemma_same_mailbox(a: &ChessBoard, b: &ChessBoard)
    requires
        a.pieces_ok(),
        b.pieces_ok(),
        a.board@ == b.board@,
    ensures
        a.bitboards@ == b.bitboards@,
        a.side_bitboards@ == b.side_bitboards@,
{
    reveal(agree);
    assert forall|idx: int| 0 <= idx < 12 implies a.bitboards@[idx] == b.bitboards@[idx] by {
        assert forall|sq: int| 0 <= sq < 64 implies bit(a.bitboards@[idx], sq) == bit(
            b.bitboards@[idx],
            sq,
        ) by {
            assert(bit(a.bitboards@[idx], sq) == (a.board@[sq].occupied() && a.board@[sq].index()
                == idx));
        }
        lemma_bits_equal(a.bitboards@[idx], b.bitboards@[idx]);
    }
    assert forall|c: int| 0 <= c < 2 implies a.side_bitboards@[c] == b.side_bitboards@[c] by {
        assert forall|sq: int| 0 <= sq < 64 implies bit(a.side_bitboards@[c], sq) == bit(
            b.side_bitboards@[c],
            sq,
        ) by {
            assert(bit(a.side_bitboards@[c], sq) == (a.board@[sq].occupied()
                && a.board@[sq].color().code() == c));
        }
        lemma_bits_equal(a.side_bitboards@[c], b.side_bitboards@[c]);
    }
    assert(a.bitboards@ =~= b.bitboards@);
    assert(a.side_bitboards@ =~= b.side_bitboards@);
}

/// After a move outside a search the table of repetitions holds the new
/// position, with a count of at least one unless the count ran over.
pub proof fn lemma_counted_after_make(pre: &ChessBoard, m: Move, post: &ChessBoard)
    requires
        !pre@.moving(m).empty(),
        make_post(pre, m, false, post),
        post.hash_ok(),
    ensures
        post.repetitions@[slot_of(post.zobrist_hash)].zobrist_hash == post.zobrist_hash,
        post.repetitions@[slot_of(post.zobrist_hash)].repetitions >= 1 || (table_before_count(
            pre,
            m,
            false,
        )[slot_of(post.zobrist_hash)] == (RepetitionEntry {
            zobrist_hash: post.zobrist_hash,
            repetitions: 255,
        })),
{
}

/// The table of repetitions comes back as it was when a move is made and
/// taken back in a search, and outside a search if the move does not empty
/// the table and the slot of the new position held that position already.
pub open spec fn table_restorable(pre: &ChessBoard, m: Move, is_search: bool) -> bool {
    is_search || (table_before_count(pre, m, is_search) == pre.repetitions@
        && pre.repetitions@[slot_of(pre@.made(m).hash())].zobrist_hash == pre@.made(m).hash())
}

/// Making a move and taking it back leaves the board as it was: the
/// mailbox, the bitboards, the side to move, the castling rights, the
/// target, both counters, the hash and the history. The table of
/// repetitions is as it was too where `table_restorable` holds.
pub proof fn lemma_make_then_unmake(
    pre: &ChessBoard,
    m: Move,
    is_search: bool,
    mid: &ChessBoard,
    post: &ChessBoard,
    result: Option<Move>,
)
    requires
        pre.wf(),
        pre@.applicable(m),
        make_post(pre, m, is_search, mid),
        mid.consistent(),
        mid.hash_ok(),
        unmake_post(mid, post, result),
        post.consistent(),
    ensures
        result == Some(m),
        post@ == pre@,
        post.board@ == pre.board@,
        post.bitboards@ == pre.bitboards@,
        post.side_bitboards@ == pre.side_bitboards@,
        post.zobrist_hash == pre.zobrist_hash,
        post.move_history@ == pre.move_history@,
        post.wf(),
        table_restorable(pre, m, is_search) ==> post.repetitions@ == pre.repetitions@,
{
    let r = mid.move_history@.last();
    lemma_unmake_inverts_make(pre@, m, r);
    lemma_same_mailbox(post, pre);
    if table_restorable(pre, m, is_search) {
        assert(post.repetitions@ =~= pre.repetitions@);
    }
}

} // verus!
