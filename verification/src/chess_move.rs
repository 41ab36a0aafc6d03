//! Moves in sixteen bits, the record that undoes one, and the fixed-size
//! list that the generator's callers iterate.

use vstd::prelude::*;
use vstd::string::StringSliceAdditionalSpecFns;
use crate::board_helper::{
    file_of_char, rank_of_char, square_at, square_chars, string_of_chars, BoardHelper,
};
use crate::piece::Piece;

verus! {

/// What a move does besides carrying a piece from one square to another.
#[derive(Clone, Copy, Debug, PartialEq, Eq, Structural)]
pub enum MoveFlag {
    Normal,
    EnPassant,
    PawnTwoUp,
    Castle,
    PromoteKnight,
    PromoteBishop,
    PromoteRook,
    PromoteQueen,
}

impl MoveFlag {
    /// 0 to 7, in the order of the variants.
    pub open spec fn code(self) -> int {
        match self {
            MoveFlag::Normal => 0,
            MoveFlag::EnPassant => 1,
            MoveFlag::PawnTwoUp => 2,
            MoveFlag::Castle => 3,
            MoveFlag::PromoteKnight => 4,
            MoveFlag::PromoteBishop => 5,
            MoveFlag::PromoteRook => 6,
            MoveFlag::PromoteQueen => 7,
        }
    }

    /// The flag with the given code.
    pub open spec fn of_code(code: int) -> MoveFlag {
        if code == 1 {
            MoveFlag::EnPassant
        } else if code == 2 {
            MoveFlag::PawnTwoUp
        } else if code == 3 {
            MoveFlag::Castle
        } else if code == 4 {
            MoveFlag::PromoteKnight
        } else if code == 5 {
            MoveFlag::PromoteBishop
        } else if code == 6 {
            MoveFlag::PromoteRook
        } else if code == 7 {
            MoveFlag::PromoteQueen
        } else {
            MoveFlag::Normal
        }
    }

    /// The flag is one of the four promotions.
    pub open spec fn is_promotion(self) -> bool {
        self.code() >= 4
    }

    /// The flag whose code is in the low three bits of `f`.
    pub fn from_u8(f: u8) -> (flag: MoveFlag)
        ensures
            flag == MoveFlag::of_code(f as int % 8),
            flag.code() == f % 8,
    {
        let code: u8 = f % 8;
        if code == 1 {
            MoveFlag::EnPassant
        } else if code == 2 {
            MoveFlag::PawnTwoUp
        } else if code == 3 {
            MoveFlag::Castle
        } else if code == 4 {
            MoveFlag::PromoteKnight
        } else if code == 5 {
            MoveFlag::PromoteBishop
        } else if code == 6 {
            MoveFlag::PromoteRook
        } else if code == 7 {
            MoveFlag::PromoteQueen
        } else {
            MoveFlag::Normal
        }
    }

    /// The flag's code.
    pub fn to_u8(self) -> (r: u8)
        ensures
            r == self.code(),
    {
        match self {
            MoveFlag::Normal => 0,
            MoveFlag::EnPassant => 1,
            MoveFlag::PawnTwoUp => 2,
            MoveFlag::Castle => 3,
            MoveFlag::PromoteKnight => 4,
            MoveFlag::PromoteBishop => 5,
            MoveFlag::PromoteRook => 6,
            MoveFlag::PromoteQueen => 7,
        }
    }

    /// The two flags are the same.
    pub fn eq_const(self, other: MoveFlag) -> (r: bool)
        ensures
            r == (self == other),
    {
        self.to_u8() == other.to_u8()
    }
}

/// A move in sixteen bits: the origin in the low six, the destination in the
/// next six, the flag in the three above them.
#[derive(Debug, Copy, Clone, PartialEq, Eq, Structural)]
pub struct Move(pub u16);

/// The low six bits of an integer, as a number in `0..64`.
fn low_six(x: i32) -> (r: u16)
    ensures
        r == x as int % 64,
{
    if x >= 0 {
        (x % 64) as u16
    } else {
        (63 - ((-(x + 1)) % 64)) as u16
    }
}

/// The flag that the fifth byte of a move's text asks for.
pub open spec fn promotion_of_letter(b: u8) -> MoveFlag {
    if b == 'n' as u8 {
        MoveFlag::PromoteKnight
    } else if b == 'b' as u8 {
        MoveFlag::PromoteBishop
    } else if b == 'r' as u8 {
        MoveFlag::PromoteRook
    } else if b == 'q' as u8 {
        MoveFlag::PromoteQueen
    } else {
        MoveFlag::Normal
    }
}

/// The letter that a promotion adds to a move's text, if the flag is one.
pub open spec fn promotion_suffix(flag: MoveFlag) -> Seq<char> {
    match flag {
        MoveFlag::PromoteQueen => seq!['q'],
        MoveFlag::PromoteRook => seq!['r'],
        MoveFlag::PromoteBishop => seq!['b'],
        MoveFlag::PromoteKnight => seq!['n'],
        _ => Seq::empty(),
    }
}

impl Move {
    /// The encoding of an origin, a destination and a flag. Squares are taken
    /// by their low six bits.
    pub open spec fn encode(from: int, to: int, flag: MoveFlag) -> Move {
        Move((from % 64 + 64 * (to % 64) + 4096 * flag.code()) as u16)
    }

    /// The origin square.
    pub open spec fn from(self) -> int {
        self.0 as int % 64
    }

    /// The destination square.
    pub open spec fn to(self) -> int {
        (self.0 as int / 64) % 64
    }

    /// The flag.
    pub open spec fn flag(self) -> MoveFlag {
        MoveFlag::of_code((self.0 as int / 4096) % 8)
    }

    /// The text of a move in coordinate notation.
    pub open spec fn uci_text(self) -> Seq<char> {
        seq![
            square_chars(self.from()).0,
            square_chars(self.from()).1,
            square_chars(self.to()).0,
            square_chars(self.to()).1,
        ] + promotion_suffix(self.flag())
    }

    /// The move that a text in coordinate notation names.
    pub open spec fn of_uci(bytes: Seq<u8>) -> Move {
        Move::encode(
            square_at(file_of_char(bytes[0] as char), rank_of_char(bytes[1] as char)),
            square_at(file_of_char(bytes[2] as char), rank_of_char(bytes[3] as char)),
            if bytes.len() > 4 {
                promotion_of_letter(bytes[4])
            } else {
                MoveFlag::Normal
            },
        )
    }

    /// The move from `from` to `to` with the given flag.
    pub fn new(from: i32, to: i32, flag: MoveFlag) -> (m: Move)
        ensures
            m == Move::encode(from as int, to as int, flag),
            0 <= from < 64 && 0 <= to < 64 ==> m.from() == from && m.to() == to && m.flag()
                == flag,
    {
        let f: u16 = low_six(from);
        let t: u16 = low_six(to);
        let c: u16 = flag.to_u8() as u16;
        Move(f + 64 * t + 4096 * c)
    }

    /// The flag of the move.
    #[verifier::when_used_as_spec(flag)]
    pub fn get_flag(self) -> (flag: MoveFlag)
        ensures
            flag == self.flag(),
    {
        MoveFlag::from_u8(((self.0 / 4096) % 8) as u8)
    }

    /// The origin square.
    pub fn get_from_idx(self) -> (r: i32)
        ensures
            r == self.from(),
            0 <= r < 64,
    {
        (self.0 % 64) as i32
    }

    /// The destination square.
    pub fn get_to_idx(self) -> (r: i32)
        ensures
            r == self.to(),
            0 <= r < 64,
    {
        ((self.0 / 64) % 64) as i32
    }

    /// The move captures en passant.
    pub fn is_en_passant(self) -> (r: bool)
        ensures
            r == (self.flag() == MoveFlag::EnPassant),
    {
        self.get_flag().eq_const(MoveFlag::EnPassant)
    }

    /// The move castles.
    pub fn is_castle(self) -> (r: bool)
        ensures
            r == (self.flag() == MoveFlag::Castle),
    {
        self.get_flag().eq_const(MoveFlag::Castle)
    }

    /// The move advances a pawn by two squares.
    pub fn is_two_pawn_up(self) -> (r: bool)
        ensures
            r == (self.flag() == MoveFlag::PawnTwoUp),
    {
        self.get_flag().eq_const(MoveFlag::PawnTwoUp)
    }

    /// The move in coordinate notation: origin, destination, and the letter
    /// of the promoted piece if there is one.
    pub fn to_uci(self) -> (s: String)
        ensures
            s@ == self.uci_text(),
    {
        let (ffile, frank) = BoardHelper::square_to_chars(self.get_from_idx());
        let (tfile, trank) = BoardHelper::square_to_chars(self.get_to_idx());
        let mut chars: Vec<char> = Vec::new();
        chars.push(ffile);
        chars.push(frank);
        chars.push(tfile);
        chars.push(trank);
        match self.get_flag() {
            MoveFlag::PromoteQueen => {
                chars.push('q');
            },
            MoveFlag::PromoteRook => {
                chars.push('r');
            },
            MoveFlag::PromoteBishop => {
                chars.push('b');
            },
            MoveFlag::PromoteKnight => {
                chars.push('n');
            },
            _ => {},
        }
        assert(chars@ =~= self.uci_text());
        string_of_chars(&chars)
    }

    /// The bytes of the text of a move in coordinate notation.
    pub open spec fn uci_bytes(self) -> Seq<u8> {
        Seq::new(self.uci_text().len(), |i: int| self.uci_text()[i] as u8)
    }

    /// The text is the text of this move in coordinate notation.
    pub fn matches_uci(self, uci: &str) -> (r: bool)
        ensures
            r == (uci.spec_bytes() == self.uci_bytes()),
    {
        let bytes = uci.as_bytes();
        let (ffile, frank) = BoardHelper::square_to_chars(self.get_from_idx());
        let (tfile, trank) = BoardHelper::square_to_chars(self.get_to_idx());
        let suffix: u8 = match self.get_flag() {
            MoveFlag::PromoteQueen => 113,
            MoveFlag::PromoteRook => 114,
            MoveFlag::PromoteBishop => 98,
            MoveFlag::PromoteKnight => 110,
            _ => 0,
        };
        let length: usize = if suffix == 0 {
            4
        } else {
            5
        };
        assert(self.uci_text().len() == length);
        if bytes.len() != length {
            return false;
        }
        let same = bytes[0] == ffile as u8 && bytes[1] == frank as u8 && bytes[2] == tfile as u8
            && bytes[3] == trank as u8 && (suffix == 0 || bytes[4] == suffix);
        proof {
            let text = self.uci_text();
            if same {
                assert(uci.spec_bytes() =~= self.uci_bytes());
            } else {
                assert(self.uci_bytes()[0] == text[0] as u8);
                assert(self.uci_bytes()[1] == text[1] as u8);
                assert(self.uci_bytes()[2] == text[2] as u8);
                assert(self.uci_bytes()[3] == text[3] as u8);
                if suffix != 0 {
                    assert(self.uci_bytes()[4] == text[4] as u8);
                }
            }
        }
        same
    }

    /// The move that a text in coordinate notation names. A square that the
    /// text does not name is read as -1, and so encoded as 63.
    pub fn from_uci(uci: &str) -> (m: Move)
        requires
            uci.spec_bytes().len() >= 4,
        ensures
            m == Move::of_uci(uci.spec_bytes()),
    {
        let bytes = uci.as_bytes();
        let from = BoardHelper::chars_to_square(bytes[0] as char, bytes[1] as char);
        let to = BoardHelper::chars_to_square(bytes[2] as char, bytes[3] as char);
        let mut flag = MoveFlag::Normal;
        if bytes.len() > 4 {
            let b = bytes[4];
            if b == 110 {
                flag = MoveFlag::PromoteKnight;
            } else if b == 98 {
                flag = MoveFlag::PromoteBishop;
            } else if b == 114 {
                flag = MoveFlag::PromoteRook;
            } else if b == 113 {
                flag = MoveFlag::PromoteQueen;
            }
        }
        Move::new(from, to, flag)
    }
}

/// The encoding of two squares of the board and a flag gives them back.
pub proof fn lemma_encode_fields(from: int, to: int, flag: MoveFlag)
    requires
        0 <= from < 64,
        0 <= to < 64,
    ensures
        Move::encode(from, to, flag).from() == from,
        Move::encode(from, to, flag).to() == to,
        Move::encode(from, to, flag).flag() == flag,
{
}

/// What a move changed that the board cannot recompute when it takes the move back.
#[derive(Debug, Copy, Clone, PartialEq, Eq)]
pub struct ReversibleMove {
    pub board_move: Move,
    pub captured: Piece,
    pub zobrist_hash: u64,
    pub en_passant_square: i32,
    pub castling: [bool; 4],
    pub half_move: u8,
    pub repetition_saved: bool,
}

impl ReversibleMove {
    /// The record with exactly these fields.
    pub fn new(
        board_move: Move,
        captured: Piece,
        en_passant_square: i32,
        castling: [bool; 4],
        half_move: u8,
        zobrist_hash: u64,
        repetition_saved: bool,
    ) -> (r: ReversibleMove)
        ensures
            r == (ReversibleMove {
                board_move,
                captured,
                zobrist_hash,
                en_passant_square,
                castling,
                half_move,
                repetition_saved,
            }),
    {
        ReversibleMove {
            board_move,
            captured,
            en_passant_square,
            castling,
            half_move,
            zobrist_hash,
            repetition_saved,
        }
    }
}

/// Number of moves that a `MoveContainer` can hold: no position of a game
/// has more legal moves.
pub const MOVE_CAPACITY: usize = 218;

/// A list of at most 218 moves, in the order in which they were pushed.
#[derive(Clone, Copy, Debug)]
pub struct MoveContainer {
    moves: [Move; 218],
    size: usize,
}

impl View for MoveContainer {
    type V = Seq<Move>;

    closed spec fn view(&self) -> Seq<Move> {
        self.moves@.take(self.size as int)
    }
}

impl MoveContainer {
    #[verifier::type_invariant]
    spec fn well_formed(self) -> bool {
        self.size <= 218
    }

    /// The empty list.
    pub fn new() -> (c: MoveContainer)
        ensures
            c@ == Seq::<Move>::empty(),
    {
        let c = MoveContainer { moves: [Move(0);218], size: 0 };
        assert(c@ =~= Seq::<Move>::empty());
        c
    }

    /// The moves of the list, in order.
    pub fn iter(&self) -> (v: Vec<Move>)
        ensures
            v@ == self@,
    {
        proof {
            use_type_invariant(self);
        }
        let mut v: Vec<Move> = Vec::new();
        let mut i: usize = 0;
        while i < self.size
            invariant
                i <= self.size <= 218,
                v@ == self.moves@.take(i as int),
            decreases self.size - i,
        {
            v.push(self.moves[i]);
            i += 1;
            assert(v@ =~= self.moves@.take(i as int));
        }
        v
    }

    /// The move at index `i`, if the list has one there.
    pub fn get(&self, i: usize) -> (r: Option<Move>)
        ensures
            r == if i < self@.len() {
                Some(self@[i as int])
            } else {
                None
            },
    {
        proof {
            use_type_invariant(self);
        }
        if i < self.size {
            return Some(self.moves[i]);
        }
        None
    }

    /// The move at index `i`.
    pub fn get_unchecked(&self, i: usize) -> (r: Move)
        requires
            i < self@.len(),
        ensures
            r == self@[i as int],
    {
        proof {
            use_type_invariant(self);
        }
        self.moves[i]
    }

    /// Exchanges the moves at two indices.
    pub fn swap(&mut self, a: usize, b: usize)
        requires
            a < old(self)@.len(),
            b < old(self)@.len(),
        ensures
            final(self)@ == old(self)@.update(a as int, old(self)@[b as int]).update(
                b as int,
                old(self)@[a as int],
            ),
    {
        proof {
            use_type_invariant(&*self);
        }
        let hold = self.moves[a];
        let other = self.moves[b];
        let mut moves = self.moves;
        moves[a] = other;
        moves[b] = hold;
        let size = self.size;
        *self = MoveContainer { moves, size };
        assert(self@ =~= old(self)@.update(a as int, old(self)@[b as int]).update(
            b as int,
            old(self)@[a as int],
        ));
    }

    /// Exchanges the moves at two indices.
    pub fn swap_unchecked(&mut self, a: usize, b: usize)
        requires
            a < old(self)@.len(),
            b < old(self)@.len(),
        ensures
            final(self)@ == old(self)@.update(a as int, old(self)@[b as int]).update(
                b as int,
                old(self)@[a as int],
            ),
    {
        self.swap(a, b)
    }

    /// Number of moves in the list.
    pub fn len(&self) -> (n: usize)
        ensures
            n == self@.len(),
            n <= 218,
    {
        proof {
            use_type_invariant(self);
        }
        self.size
    }

    /// Appends a move to a list that is not full.
    pub fn push(&mut self, chess_move: Move)
        requires
            old(self)@.len() < 218,
        ensures
            final(self)@ == old(self)@.push(chess_move),
    {
        proof {
            use_type_invariant(&*self);
        }
        let mut moves = self.moves;
        moves[self.size] = chess_move;
        let size = self.size + 1;
        *self = MoveContainer { moves, size };
        assert(self@ =~= old(self)@.push(chess_move));
    }

    /// The list holds no move.
    pub fn is_empty(&self) -> (r: bool)
        ensures
            r == (self@.len() == 0),
    {
        proof {
            use_type_invariant(self);
        }
        self.size == 0
    }
}

} // verus!
