//! The board: bitboards and mailbox kept in step, and moves made and taken back.

use std::sync::Arc;
use vstd::prelude::*;
use crate::bits::{bit, group_bits, lemma_bit_zero_all, lowest, single, square_bit};
use crate::board_helper::BoardHelper;
use crate::chess_move::ReversibleMove;
use crate::piece::{Piece, PieceColor, PieceType};
use crate::position::{canonical, no_piece, record_ok, Position};
use crate::repetition_table::{cleared, RepetitionTable};
use crate::tables::AttackTables;
use crate::zobrist::{
    castling_hash, lemma_castling_hash_update, lemma_pieces_hash_update, piece_key, pieces_hash,
    square_hash, turn_hash, zobrist_key, ZobristKeys, ZOBRIST_CASTLING, ZOBRIST_TURN,
};

verus! {

/// A position with everything that making and taking back moves needs:
/// the pieces twice, by square and by kind, the hash, the history of the
/// moves made and the table of repetitions.
#[derive(Clone, Debug)]
pub struct ChessBoard {
    /// One bitboard for each kind of each colour: white pawn to white king, then black.
    pub bitboards: [u64; 12],
    /// The pieces of each colour.
    pub side_bitboards: [u64; 2],
    /// The piece on each square.
    pub board: [Piece; 64],
    /// The side to move.
    pub turn: PieceColor,
    /// The en-passant target, or -1.
    pub en_passant: i32,
    /// White king side, white queen side, black king side, black queen side.
    pub castling_rights: [bool; 4],
    /// Half moves since the last capture or pawn move.
    pub half_move: u8,
    /// The number of the move.
    pub full_move: u16,
    /// The hash of the position.
    pub zobrist_hash: u64,
    /// How often the positions of the game occurred.
    pub repetitions: RepetitionTable,
    /// The records of the moves made, the last one on top.
    pub move_history: Vec<ReversibleMove>,
    /// The keys of the hash.
    pub keys: Arc<ZobristKeys>,
    /// The attack tables.
    pub tables: Arc<AttackTables>,
}

impl View for ChessBoard {
    type V = Position;

    open spec fn view(&self) -> Position {
        Position {
            board: self.board@,
            turn: self.turn,
            en_passant: self.en_passant as int,
            castling: self.castling_rights@,
            half_move: self.half_move as int,
            full_move: self.full_move as int,
        }
    }
}

/// The bitboards say what the mailbox says: a square is in the bitboard of
/// a kind and colour exactly if the mailbox holds such a piece there, and
/// in the bitboard of a colour exactly if it holds a piece of that colour.
#[verifier::opaque]
pub open spec fn agree(bitboards: Seq<u64>, sides: Seq<u64>, board: Seq<Piece>) -> bool {
    &&& forall|idx: int, sq: int|
        0 <= idx < 12 && 0 <= sq < 64 ==> #[trigger] bit(bitboards[idx], sq) == (
        board[sq].occupied() && board[sq].index() == idx)
    &&& forall|c: int, sq: int|
        0 <= c < 2 && 0 <= sq < 64 ==> #[trigger] bit(sides[c], sq) == (board[sq].occupied()
            && board[sq].color().code() == c)
}

/// Every record of a history can be taken back.
pub open spec fn records_ok(history: Seq<ReversibleMove>) -> bool {
    forall|i: int| 0 <= i < history.len() ==> record_ok(#[trigger] history[i])
}

/// Every record of a history holds the hash of the position that taking it
/// back leads to.
pub open spec fn chain_ok(p: Position, history: Seq<ReversibleMove>) -> bool
    decreases history.len(),
{
    history.len() == 0 || {
        let r = history.last();
        &&& r.zobrist_hash == p.unmade(r).hash()
        &&& chain_ok(p.unmade(r), history.drop_last())
    }
}

proof fn lemma_gap(h: u64, p: u64, c: u64, t: u64, a: u64, b: u64)
    by (bit_vector)
    ensures
        (h ^ a ^ b) ^ (p ^ a ^ b) ^ c ^ t == h ^ p ^ c ^ t,
        (h ^ a) ^ (p ^ a) ^ c ^ t == h ^ p ^ c ^ t,
        (h ^ a) ^ p ^ (c ^ a) ^ t == h ^ p ^ c ^ t,
        (h ^ a) ^ p ^ c ^ (t ^ a) == h ^ p ^ c ^ t,
        (h ^ a) ^ p ^ c ^ a == h ^ p ^ c ^ 0,
        (h ^ a) ^ p ^ c ^ 0 == h ^ p ^ c ^ a,
        (h ^ p ^ c ^ t == 0) <==> (h == p ^ c ^ t),
        h ^ 0 == h,
{
}

impl Piece {
    /// The key of the piece on a square.
    pub fn get_hash(self, keys: &ZobristKeys, square: i32) -> (r: u64)
        requires
            self.occupied(),
            0 <= square < 64,
        ensures
            r == piece_key(self, square as int),
    {
        keys.key((square as usize) * 12 + self.get_piece_index())
    }
}

impl ChessBoard {
    /// Mailbox and bitboards agree.
    pub open spec fn pieces_ok(&self) -> bool {
        agree(self.bitboards@, self.side_bitboards@, self.board@)
    }

    /// The board is consistent: the position is well formed, mailbox and
    /// bitboards agree, and every record of the history can be taken back.
    pub open spec fn consistent(&self) -> bool {
        &&& self@.wf()
        &&& self.pieces_ok()
        &&& records_ok(self.move_history@)
    }

    /// The hash is the hash of the position, from scratch.
    pub open spec fn hash_ok(&self) -> bool {
        self.zobrist_hash == self@.hash()
    }

    /// Every record of the history holds the hash of the position before its move.
    pub open spec fn history_ok(&self) -> bool {
        chain_ok(self@, self.move_history@)
    }

    /// The board is consistent and its hash is right.
    pub open spec fn wf(&self) -> bool {
        self.consistent() && self.hash_ok()
    }

    /// What the hash is off by; zero exactly if the hash is right.
    pub open spec fn gap(&self) -> u64 {
        self.zobrist_hash ^ pieces_hash(self.board@, 64) ^ castling_hash(self.castling_rights@, 4)
            ^ turn_hash(self.turn)
    }

    /// Everything but the pieces and the hash is the same on two boards.
    pub open spec fn same_frame(&self, other: &ChessBoard) -> bool {
        &&& self.turn == other.turn
        &&& self.en_passant == other.en_passant
        &&& self.castling_rights == other.castling_rights
        &&& self.half_move == other.half_move
        &&& self.full_move == other.full_move
        &&& self.repetitions == other.repetitions
        &&& self.move_history == other.move_history
        &&& self.keys == other.keys
        &&& self.tables == other.tables
    }

    /// The pieces are the same on two boards.
    pub open spec fn same_pieces(&self, other: &ChessBoard) -> bool {
        &&& self.bitboards == other.bitboards
        &&& self.side_bitboards == other.side_bitboards
        &&& self.board == other.board
    }

    /// The hash is right exactly if the gap is zero.
    pub proof fn lemma_gap_zero(&self)
        ensures
            self.hash_ok() <==> self.gap() == 0,
    {
        lemma_gap(
            self.zobrist_hash,
            pieces_hash(self.board@, 64),
            castling_hash(self.castling_rights@, 4),
            turn_hash(self.turn),
            0,
            0,
        );
    }

    /// The empty board: no piece, white to move, all four castling rights,
    /// no target, move number one.
    pub fn new() -> (b: ChessBoard)
        ensures
            b.wf(),
            b.history_ok(),
            b.move_history@.len() == 0,
            forall|sq: int| 0 <= sq < 64 ==> b.board@[sq] == no_piece(),
            b.turn == PieceColor::White,
            b.en_passant == -1,
            forall|i: int| 0 <= i < 4 ==> b.castling_rights@[i],
            b.half_move == 0,
            b.full_move == 1,
    {
        let mut x = ChessBoard {
            board: [Piece(0);64],
            bitboards: [0u64;12],
            side_bitboards: [0u64;2],
            turn: PieceColor::White,
            en_passant: -1,
            castling_rights: [true;4],
            half_move: 0,
            full_move: 1,
            zobrist_hash: 0,
            repetitions: RepetitionTable::new(),
            move_history: Vec::new(),
            keys: Arc::new(ZobristKeys::new()),
            tables: Arc::new(AttackTables::new()),
        };
        proof {
            lemma_bit_zero_all();
            reveal(agree);
        }
        x.zobrist_hash = x.create_zobrist_hash();
        x
    }

    /// Takes every piece off the board and forgets the history; white is to
    /// move, move number one. The castling rights stay as they are.
    pub fn clear(&mut self)
        ensures
            final(self).wf(),
            final(self).history_ok(),
            final(self).move_history@.len() == 0,
            forall|sq: int| 0 <= sq < 64 ==> final(self).board@[sq] == no_piece(),
            final(self).turn == PieceColor::White,
            final(self).en_passant == -1,
            final(self).castling_rights == old(self).castling_rights,
            final(self).half_move == 0,
            final(self).full_move == 1,
            final(self).repetitions@ == cleared(),
            final(self).keys == old(self).keys,
            final(self).tables == old(self).tables,
    {
        self.board = [Piece(0);64];
        self.bitboards = [0u64;12];
        self.side_bitboards = [0u64;2];
        self.turn = PieceColor::White;
        self.move_history.clear();
        self.repetitions.clear();
        self.en_passant = -1;
        self.full_move = 1;
        self.half_move = 0;
        proof {
            lemma_bit_zero_all();
            reveal(agree);
        }
        self.zobrist_hash = self.create_zobrist_hash();
    }

    /// The same as `clear`.
    pub fn new_game(&mut self)
        ensures
            final(self).wf(),
            final(self).history_ok(),
            final(self).move_history@.len() == 0,
            forall|sq: int| 0 <= sq < 64 ==> final(self).board@[sq] == no_piece(),
            final(self).turn == PieceColor::White,
            final(self).en_passant == -1,
            final(self).castling_rights == old(self).castling_rights,
            final(self).half_move == 0,
            final(self).full_move == 1,
            final(self).repetitions@ == cleared(),
            final(self).keys == old(self).keys,
            final(self).tables == old(self).tables,
    {
        self.clear();
    }

    /// The hash of the position, from scratch.
    pub fn create_zobrist_hash(&self) -> (hash: u64)
        requires
            forall|sq: int| 0 <= sq < 64 ==> canonical(#[trigger] self.board@[sq]),
        ensures
            hash == self@.hash(),
    {
        let mut hash = 0u64;
        let mut sq: usize = 0;
        while sq < 64
            invariant
                sq <= 64,
                forall|s: int| 0 <= s < 64 ==> canonical(#[trigger] self.board@[s]),
                hash == pieces_hash(self.board@, sq as nat),
            decreases 64 - sq,
        {
            let piece = self.board[sq];
            if !piece.is_none() {
                hash = hash ^ piece.get_hash(&self.keys, sq as i32);
            } else {
                proof {
                    lemma_gap(hash, 0, 0, 0, 0, 0);
                }
            }
            sq += 1;
        }
        let mut i: usize = 0;
        let mut rights = 0u64;
        while i < 4
            invariant
                i <= 4,
                rights == castling_hash(self.castling_rights@, i as nat),
            decreases 4 - i,
        {
            if self.castling_rights[i] {
                rights = rights ^ self.keys.key(ZOBRIST_CASTLING + i);
            }
            i += 1;
        }
        hash = hash ^ rights;
        if self.turn == PieceColor::Black {
            hash = hash ^ self.keys.key(ZOBRIST_TURN);
        } else {
            proof {
                lemma_gap(hash, 0, 0, 0, 0, 0);
            }
        }
        hash
    }

    /// The bitboard of the pieces of one colour.
    pub fn get_side_mask(&self, side: PieceColor) -> (r: u64)
        ensures
            r == self.side_bitboards@[side.code()],
    {
        self.side_bitboards[side.to_index()]
    }

    /// The square of the king of one colour: the lowest square of its
    /// bitboard, 64 if there is no such king.
    pub fn get_king_square(&self, king_color: PieceColor) -> (r: i32)
        ensures
            r == lowest(self.bitboards@[king_color.code() * 6 + 5]),
            0 <= r <= 64,
            r < 64 <==> self.bitboards@[king_color.code() * 6 + 5] != 0,
            r < 64 ==> bit(self.bitboards@[king_color.code() * 6 + 5], r as int),
    {
        BoardHelper::bitscan_forward(self.bitboards[PieceType::King.get_side_index(king_color)])
    }

    /// The piece on a square.
    pub fn get_piece(&self, square: i32) -> (p: Piece)
        requires
            0 <= square < 64,
        ensures
            p == self.board@[square as int],
    {
        self.board[square as usize]
    }

    /// Gives the move to one side. The hash follows.
    pub fn set_turn(&mut self, turn: PieceColor)
        ensures
            final(self).turn == turn,
            final(self).gap() == old(self).gap(),
            final(self).same_pieces(old(self)),
            final(self).en_passant == old(self).en_passant,
            final(self).castling_rights == old(self).castling_rights,
            final(self).half_move == old(self).half_move,
            final(self).full_move == old(self).full_move,
            final(self).repetitions == old(self).repetitions,
            final(self).move_history == old(self).move_history,
            final(self).keys == old(self).keys,
            final(self).tables == old(self).tables,
    {
        if self.turn != turn {
            self.flip_turn();
        }
    }

    /// The side to move.
    pub fn get_turn(&self) -> (t: PieceColor)
        ensures
            t == self.turn,
    {
        self.turn
    }

    /// Gives the move to the other side. The hash follows.
    pub(crate) fn flip_turn(&mut self)
        ensures
            final(self).turn == old(self).turn.opposite(),
            final(self).gap() == old(self).gap(),
            final(self).same_pieces(old(self)),
            final(self).en_passant == old(self).en_passant,
            final(self).castling_rights == old(self).castling_rights,
            final(self).half_move == old(self).half_move,
            final(self).full_move == old(self).full_move,
            final(self).repetitions == old(self).repetitions,
            final(self).move_history == old(self).move_history,
            final(self).keys == old(self).keys,
            final(self).tables == old(self).tables,
    {
        proof {
            lemma_gap(
                self.zobrist_hash,
                pieces_hash(self.board@, 64),
                castling_hash(self.castling_rights@, 4),
                turn_hash(self.turn),
                zobrist_key(ZOBRIST_TURN as int),
                0,
            );
        }
        self.turn = self.turn.flipped();
        self.zobrist_hash = self.zobrist_hash ^ self.keys.key(ZOBRIST_TURN);
    }

    /// Takes away one castling right. The hash follows.
    pub(crate) fn drop_right(&mut self, right: usize)
        requires
            right < 4,
        ensures
            final(self).castling_rights@ == old(self).castling_rights@.update(right as int, false),
            final(self).gap() == old(self).gap(),
            final(self).same_pieces(old(self)),
            final(self).turn == old(self).turn,
            final(self).en_passant == old(self).en_passant,
            final(self).half_move == old(self).half_move,
            final(self).full_move == old(self).full_move,
            final(self).repetitions == old(self).repetitions,
            final(self).move_history == old(self).move_history,
            final(self).keys == old(self).keys,
            final(self).tables == old(self).tables,
    {
        proof {
            lemma_castling_hash_update(self.castling_rights@, right as int, false, 4);
            lemma_gap(
                self.zobrist_hash,
                pieces_hash(self.board@, 64),
                castling_hash(self.castling_rights@, 4),
                turn_hash(self.turn),
                zobrist_key(ZOBRIST_CASTLING + right),
                0,
            );
        }
        if self.castling_rights[right] {
            self.castling_rights[right] = false;
            self.zobrist_hash = self.zobrist_hash ^ self.keys.key(ZOBRIST_CASTLING + right);
        } else {
            assert(self.castling_rights@ =~= old(self).castling_rights@.update(
                right as int,
                false,
            ));
        }
    }

    /// Takes a piece out of its two bitboards and out of the hash.
    pub fn remove_from_bitboards(&mut self, piece: Piece, square: i32)
        requires
            piece.occupied(),
            0 <= square < 64,
        ensures
            final(self).bitboards@ == old(self).bitboards@.update(
                piece.index(),
                old(self).bitboards@[piece.index()] & !single(square as int),
            ),
            final(self).side_bitboards@ == old(self).side_bitboards@.update(
                piece.color().code(),
                old(self).side_bitboards@[piece.color().code()] & !single(square as int),
            ),
            final(self).zobrist_hash == old(self).zobrist_hash ^ piece_key(piece, square as int),
            final(self).board == old(self).board,
            final(self).same_frame(old(self)),
    {
        let idx = piece.get_piece_index();
        let side = piece.get_color().to_index();
        let mask = !square_bit(square);
        self.bitboards[idx] = self.bitboards[idx] & mask;
        self.side_bitboards[side] = self.side_bitboards[side] & mask;
        self.zobrist_hash = self.zobrist_hash ^ piece.get_hash(&self.keys, square);
    }

    /// Puts a piece into its two bitboards and into the hash.
    pub fn add_to_bitboards(&mut self, piece: Piece, square: i32)
        requires
            piece.occupied(),
            0 <= square < 64,
        ensures
            final(self).bitboards@ == old(self).bitboards@.update(
                piece.index(),
                old(self).bitboards@[piece.index()] | single(square as int),
            ),
            final(self).side_bitboards@ == old(self).side_bitboards@.update(
                piece.color().code(),
                old(self).side_bitboards@[piece.color().code()] | single(square as int),
            ),
            final(self).zobrist_hash == old(self).zobrist_hash ^ piece_key(piece, square as int),
            final(self).board == old(self).board,
            final(self).same_frame(old(self)),
    {
        let idx = piece.get_piece_index();
        let side = piece.get_color().to_index();
        let mask = square_bit(square);
        self.bitboards[idx] = self.bitboards[idx] | mask;
        self.side_bitboards[side] = self.side_bitboards[side] | mask;
        self.zobrist_hash = self.zobrist_hash ^ piece.get_hash(&self.keys, square);
    }

    /// Puts a piece or the empty square on a square and returns what was
    /// there. Mailbox, bitboards and hash change together.
    pub fn set_piece(&mut self, square: i32, piece: Piece) -> (captured: Piece)
        requires
            old(self).pieces_ok(),
            forall|sq: int| 0 <= sq < 64 ==> canonical(#[trigger] old(self).board@[sq]),
            0 <= square < 64,
            canonical(piece),
        ensures
            captured == old(self).board@[square as int],
            final(self).board@ == old(self).board@.update(square as int, piece),
            final(self).pieces_ok(),
            forall|sq: int| 0 <= sq < 64 ==> canonical(#[trigger] final(self).board@[sq]),
            final(self).gap() == old(self).gap(),
            final(self).same_frame(old(self)),
    {
        broadcast use group_bits;

        let captured = self.board[square as usize];
        assert(canonical(self.board@[square as int]));
        if !captured.is_none() {
            self.remove_from_bitboards(captured, square);
        }
        self.board[square as usize] = piece;
        if !piece.is_none() {
            self.add_to_bitboards(piece, square);
        }
        proof {
            reveal(agree);
            let s = square as int;
            assert forall|idx: int, sq: int| 0 <= idx < 12 && 0 <= sq < 64 implies #[trigger] bit(
                self.bitboards@[idx],
                sq,
            ) == (self.board@[sq].occupied() && self.board@[sq].index() == idx) by {
                assert(bit(old(self).bitboards@[idx], sq) == (old(self).board@[sq].occupied()
                    && old(self).board@[sq].index() == idx));
            }
            assert forall|c: int, sq: int| 0 <= c < 2 && 0 <= sq < 64 implies #[trigger] bit(
                self.side_bitboards@[c],
                sq,
            ) == (self.board@[sq].occupied() && self.board@[sq].color().code() == c) by {
                assert(bit(old(self).side_bitboards@[c], sq) == (old(self).board@[sq].occupied()
                    && old(self).board@[sq].color().code() == c));
            }
            assert forall|sq: int| 0 <= sq < 64 implies canonical(#[trigger] self.board@[sq]) by {
                assert(canonical(old(self).board@[sq]));
            }
            lemma_pieces_hash_update(old(self).board@, s, piece, 64);
            lemma_gap(
                old(self).zobrist_hash,
                pieces_hash(old(self).board@, 64),
                castling_hash(self.castling_rights@, 4),
                turn_hash(self.turn),
                square_hash(captured, s),
                square_hash(piece, s),
            );
            lemma_gap(old(self).zobrist_hash, 0, 0, 0, 0, 0);
            lemma_gap(old(self).zobrist_hash ^ square_hash(captured, s), 0, 0, 0, 0, 0);
        }
        captured
    }
}

} // verus!
