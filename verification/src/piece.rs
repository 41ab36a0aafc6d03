//! Pieces: a kind and a colour packed into one byte.

use vstd::prelude::*;

verus! {

/// The kind of a chess piece; `Empty` marks an empty square.
#[derive(Clone, Copy, Debug, PartialEq, Eq, Structural)]
pub enum PieceType {
    Empty,
    Pawn,
    Knight,
    Bishop,
    Rook,
    Queen,
    King,
}

/// The colour of a piece, and the side to move.
#[derive(Clone, Copy, Debug, PartialEq, Eq, Structural)]
pub enum PieceColor {
    White,
    Black,
}

impl PieceColor {
    /// 0 for white, 1 for black.
    pub open spec fn code(self) -> int {
        match self {
            PieceColor::White => 0,
            PieceColor::Black => 1,
        }
    }

    /// The other colour.
    pub open spec fn opposite(self) -> PieceColor {
        match self {
            PieceColor::White => PieceColor::Black,
            PieceColor::Black => PieceColor::White,
        }
    }

    /// The colour whose code is the lowest bit of `val`.
    pub fn from_u8(val: u8) -> (c: PieceColor)
        ensures
            c.code() == val % 2,
    {
        if val % 2 == 0 {
            PieceColor::White
        } else {
            PieceColor::Black
        }
    }

    /// The colour's code as a machine index.
    pub fn to_index(self) -> (r: usize)
        ensures
            r == self.code(),
    {
        match self {
            PieceColor::White => 0,
            PieceColor::Black => 1,
        }
    }

    /// The other colour.
    #[verifier::when_used_as_spec(opposite)]
    pub fn flipped(self) -> (c: PieceColor)
        ensures
            c == self.opposite(),
            c.code() == 1 - self.code(),
    {
        match self {
            PieceColor::White => PieceColor::Black,
            PieceColor::Black => PieceColor::White,
        }
    }

    /// Replaces the colour by the other one.
    pub fn flip(&mut self)
        ensures
            *final(self) == old(self).opposite(),
    {
        *self = self.flipped();
    }
}

impl PieceType {
    /// 0 for `Empty`, then 1 to 6 from pawn to king.
    pub open spec fn code(self) -> int {
        match self {
            PieceType::Empty => 0,
            PieceType::Pawn => 1,
            PieceType::Knight => 2,
            PieceType::Bishop => 3,
            PieceType::Rook => 4,
            PieceType::Queen => 5,
            PieceType::King => 6,
        }
    }

    /// The kind with the given code; `Empty` for any code above 6.
    pub open spec fn of_code(code: int) -> PieceType {
        if code == 1 {
            PieceType::Pawn
        } else if code == 2 {
            PieceType::Knight
        } else if code == 3 {
            PieceType::Bishop
        } else if code == 4 {
            PieceType::Rook
        } else if code == 5 {
            PieceType::Queen
        } else if code == 6 {
            PieceType::King
        } else {
            PieceType::Empty
        }
    }

    /// The letter of a kind, in lower case; a blank for `Empty`.
    pub open spec fn letter(self) -> char {
        match self {
            PieceType::Pawn => 'p',
            PieceType::Knight => 'n',
            PieceType::Bishop => 'b',
            PieceType::Rook => 'r',
            PieceType::Queen => 'q',
            PieceType::King => 'k',
            PieceType::Empty => ' ',
        }
    }

    /// The kind that a letter names, in either case; `Empty` for any other character.
    pub open spec fn of_letter(ch: char) -> PieceType {
        if ch == 'p' || ch == 'P' {
            PieceType::Pawn
        } else if ch == 'n' || ch == 'N' {
            PieceType::Knight
        } else if ch == 'b' || ch == 'B' {
            PieceType::Bishop
        } else if ch == 'r' || ch == 'R' {
            PieceType::Rook
        } else if ch == 'q' || ch == 'Q' {
            PieceType::Queen
        } else if ch == 'k' || ch == 'K' {
            PieceType::King
        } else {
            PieceType::Empty
        }
    }

    /// The kind's code as a byte.
    pub fn to_u8(self) -> (r: u8)
        ensures
            r == self.code(),
    {
        match self {
            PieceType::Empty => 0,
            PieceType::Pawn => 1,
            PieceType::Knight => 2,
            PieceType::Bishop => 3,
            PieceType::Rook => 4,
            PieceType::Queen => 5,
            PieceType::King => 6,
        }
    }

    /// Material value in centipawns.
    pub fn get_value(self) -> (r: i32)
        ensures
            r == match self {
                PieceType::Empty => 0i32,
                PieceType::Pawn => 100i32,
                PieceType::Knight => 300i32,
                PieceType::Bishop => 320i32,
                PieceType::Rook => 500i32,
                PieceType::Queen => 900i32,
                PieceType::King => 0i32,
            },
    {
        match self {
            PieceType::Empty => 0,
            PieceType::Pawn => 100,
            PieceType::Knight => 300,
            PieceType::Bishop => 320,
            PieceType::Rook => 500,
            PieceType::Queen => 900,
            PieceType::King => 0,
        }
    }

    /// Index of a kind among the six kinds of one colour.
    pub fn get_index(self) -> (r: usize)
        requires
            self != PieceType::Empty,
        ensures
            r == self.code() - 1,
    {
        (self.to_u8() as usize) - 1
    }

    /// Index of a kind and a colour among the twelve piece bitboards.
    pub fn get_side_index(self, side: PieceColor) -> (r: usize)
        requires
            self != PieceType::Empty,
        ensures
            r == side.code() * 6 + self.code() - 1,
            r < 12,
    {
        side.to_index() * 6 + self.get_index()
    }

    /// The kind that a letter names, in either case.
    pub fn from_char(ch: char) -> (t: PieceType)
        ensures
            t == PieceType::of_letter(ch),
    {
        if ch == 'p' || ch == 'P' {
            PieceType::Pawn
        } else if ch == 'n' || ch == 'N' {
            PieceType::Knight
        } else if ch == 'b' || ch == 'B' {
            PieceType::Bishop
        } else if ch == 'r' || ch == 'R' {
            PieceType::Rook
        } else if ch == 'q' || ch == 'Q' {
            PieceType::Queen
        } else if ch == 'k' || ch == 'K' {
            PieceType::King
        } else {
            PieceType::Empty
        }
    }

    /// The letter of a kind, in lower case.
    pub fn to_char(self) -> (c: char)
        ensures
            c == self.letter(),
    {
        match self {
            PieceType::Pawn => 'p',
            PieceType::Knight => 'n',
            PieceType::Bishop => 'b',
            PieceType::Rook => 'r',
            PieceType::Queen => 'q',
            PieceType::King => 'k',
            PieceType::Empty => ' ',
        }
    }

    /// The kind whose code is in the low three bits of `val`.
    pub fn from_u8(val: u8) -> (t: PieceType)
        ensures
            t == PieceType::of_code(val as int % 8),
    {
        let code: u8 = val % 8;
        if code == 1 {
            PieceType::Pawn
        } else if code == 2 {
            PieceType::Knight
        } else if code == 3 {
            PieceType::Bishop
        } else if code == 4 {
            PieceType::Rook
        } else if code == 5 {
            PieceType::Queen
        } else if code == 6 {
            PieceType::King
        } else {
            PieceType::Empty
        }
    }
}

/// A piece in one byte: the kind in the low three bits, the colour in the
/// highest bit (set for black). A byte whose kind bits are zero is an empty
/// square.
#[derive(Debug, Clone, Copy, PartialEq, Eq, Structural)]
pub struct Piece(pub u8);

/// The upper-case form of a lower-case ASCII letter; other characters unchanged.
pub open spec fn upper(c: char) -> char {
    if 'a' <= c <= 'z' {
        ((c as u8) - 32) as char
    } else {
        c
    }
}

impl Piece {
    /// The kind bits.
    pub open spec fn kind_code(self) -> int {
        self.0 as int % 8
    }

    /// The kind of the piece.
    pub open spec fn kind(self) -> PieceType {
        PieceType::of_code(self.kind_code())
    }

    /// The colour of the piece.
    pub open spec fn color(self) -> PieceColor {
        if self.0 < 128 {
            PieceColor::White
        } else {
            PieceColor::Black
        }
    }

    /// The byte stands for an empty square.
    pub open spec fn empty(self) -> bool {
        self.kind_code() == 0 || self.0 == 0xFF
    }

    /// The byte stands for a piece on the board: one of the six kinds.
    pub open spec fn occupied(self) -> bool {
        1 <= self.kind_code() <= 6
    }

    /// Index of an occupied piece among the twelve piece bitboards.
    pub open spec fn index(self) -> int {
        self.color().code() * 6 + self.kind_code() - 1
    }

    /// The piece of a kind and a colour, with no other bit set.
    pub open spec fn of(kind: PieceType, color: PieceColor) -> Piece {
        Piece((color.code() * 128 + kind.code()) as u8)
    }

    /// The piece with the kind bits replaced.
    pub open spec fn with_kind(self, t: PieceType) -> Piece {
        Piece((self.0 - self.0 % 8 + t.code()) as u8)
    }

    /// The character of a piece: upper case for white, lower case for black.
    pub open spec fn letter(self) -> char {
        if self.kind() != PieceType::Empty && self.color() == PieceColor::White {
            upper(self.kind().letter())
        } else {
            self.kind().letter()
        }
    }

    /// The piece that a character names: its kind by the letter, black unless
    /// the character is an upper-case ASCII letter.
    pub open spec fn of_letter(ch: char) -> Piece {
        Piece(
            (PieceType::of_letter(ch).code() + if 'A' <= ch <= 'Z' {
                0int
            } else {
                128int
            }) as u8,
        )
    }

    /// The piece with exactly these bits.
    pub fn new(flags: u8) -> (p: Piece)
        ensures
            p.0 == flags,
    {
        Piece(flags)
    }

    /// Index of the piece among the twelve piece bitboards.
    pub fn get_piece_index(self) -> (r: usize)
        requires
            self.occupied(),
        ensures
            r == self.index(),
            r < 12,
    {
        let t = self.get_piece_type();
        let c = self.get_color();
        t.get_side_index(c)
    }

    /// The colour of the piece.
    #[verifier::when_used_as_spec(color)]
    pub fn get_color(self) -> (c: PieceColor)
        ensures
            c == self.color(),
    {
        if self.0 < 128 {
            PieceColor::White
        } else {
            PieceColor::Black
        }
    }

    /// The colour bit is clear.
    pub fn is_white(self) -> (r: bool)
        ensures
            r == (self.color() == PieceColor::White),
    {
        self.0 < 128
    }

    /// The colour bit is set.
    pub fn is_black(self) -> (r: bool)
        ensures
            r == (self.color() == PieceColor::Black),
    {
        self.0 >= 128
    }

    /// The byte stands for an empty square.
    #[verifier::when_used_as_spec(empty)]
    pub fn is_none(self) -> (r: bool)
        ensures
            r == self.empty(),
    {
        self.0 % 8 == 0 || self.0 == 0xFF
    }

    /// Replaces the kind bits and leaves the others as they are.
    pub fn set_piece(&mut self, t: PieceType)
        ensures
            *final(self) == old(self).with_kind(t),
            final(self).kind() == t,
            final(self).color() == old(self).color(),
    {
        self.0 = self.0 - self.0 % 8 + t.to_u8();
    }

    /// The kind bits.
    pub fn get_piece(self) -> (r: u8)
        ensures
            r == self.kind_code(),
    {
        self.0 % 8
    }

    /// The kind of the piece.
    #[verifier::when_used_as_spec(kind)]
    pub fn get_piece_type(self) -> (t: PieceType)
        ensures
            t == self.kind(),
    {
        PieceType::from_u8(self.get_piece())
    }

    /// The material value of the piece in centipawns.
    pub fn get_piece_value(self) -> (r: i32)
        ensures
            r == match self.kind() {
                PieceType::Empty => 0i32,
                PieceType::Pawn => 100i32,
                PieceType::Knight => 300i32,
                PieceType::Bishop => 320i32,
                PieceType::Rook => 500i32,
                PieceType::Queen => 900i32,
                PieceType::King => 0i32,
            },
    {
        self.get_piece_type().get_value()
    }

    /// The character of the piece: upper case for white, lower case for black.
    pub fn to_char(self) -> (c: char)
        ensures
            c == self.letter(),
    {
        let t = self.get_piece_type();
        if self.is_white() {
            match t {
                PieceType::Pawn => 'P',
                PieceType::Knight => 'N',
                PieceType::Bishop => 'B',
                PieceType::Rook => 'R',
                PieceType::Queen => 'Q',
                PieceType::King => 'K',
                PieceType::Empty => ' ',
            }
        } else {
            t.to_char()
        }
    }

    /// The piece that a character names.
    pub fn from_char(ch: char) -> (p: Piece)
        ensures
            p == Piece::of_letter(ch),
            p.kind() == PieceType::of_letter(ch),
    {
        let code: u8 = PieceType::from_char(ch).to_u8();
        if 'A' <= ch && ch <= 'Z' {
            Piece(code)
        } else {
            Piece(code + 128)
        }
    }
}

/// An occupied piece is not empty, and its index names one of the twelve bitboards.
pub proof fn lemma_occupied(p: Piece)
    requires
        p.occupied(),
    ensures
        !p.empty(),
        0 <= p.index() < 12,
        p.kind() != PieceType::Empty,
        p.kind().code() == p.kind_code(),
        p.index() == p.color().code() * 6 + p.kind().code() - 1,
{
}

} // verus!
