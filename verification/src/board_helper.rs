//! Squares, files and ranks, and the bit scans that walk a bitboard.

use vstd::prelude::*;
use vstd::string::StringSliceAdditionalSpecFns;
use crate::bits::{bit, count, lemma_drop_lowest, lemma_lowest, lowest, single};

verus! {

/// Width and height of the board.
pub const CHESSBOARD_WIDTH: i32 = 8;

/// Namespace of the helpers on squares and bitboards.
pub struct BoardHelper;

/// The squares by name, from a1 (0) to h8 (63), file by file within a rank.
#[derive(Clone, Copy, Debug, PartialEq, Eq)]
pub enum Square {
    A1, B1, C1, D1, E1, F1, G1, H1,
    A2, B2, C2, D2, E2, F2, G2, H2,
    A3, B3, C3, D3, E3, F3, G3, H3,
    A4, B4, C4, D4, E4, F4, G4, H4,
    A5, B5, C5, D5, E5, F5, G5, H5,
    A6, B6, C6, D6, E6, F6, G6, H6,
    A7, B7, C7, D7, E7, F7, G7, H7,
    A8, B8, C8, D8, E8, F8, G8, H8,
    INVALID,
}

pub const SQUARE_A1: i32 = 0;
pub const SQUARE_C1: i32 = 2;
pub const SQUARE_D1: i32 = 3;
pub const SQUARE_E1: i32 = 4;
pub const SQUARE_F1: i32 = 5;
pub const SQUARE_G1: i32 = 6;
pub const SQUARE_H1: i32 = 7;
pub const SQUARE_A8: i32 = 56;
pub const SQUARE_C8: i32 = 58;
pub const SQUARE_D8: i32 = 59;
pub const SQUARE_E8: i32 = 60;
pub const SQUARE_F8: i32 = 61;
pub const SQUARE_G8: i32 = 62;
pub const SQUARE_H8: i32 = 63;

/// `sq` is a square of the board.
pub open spec fn on_board(sq: int) -> bool {
    0 <= sq < 64
}

/// Rank of a square, 0 for the first rank.
pub open spec fn rank_of(sq: int) -> int {
    sq / 8
}

/// File of a square, 0 for the a-file.
pub open spec fn file_of(sq: int) -> int {
    sq % 8
}

/// The square on a file and a rank; -1 unless both are in `0..8`.
pub open spec fn square_at(file: int, rank: int) -> int {
    if 0 <= file < 8 && 0 <= rank < 8 {
        rank * 8 + file
    } else {
        -1
    }
}

/// The file that a letter names, in either case; -1 for any other character.
pub open spec fn file_of_char(c: char) -> int {
    if 'a' <= c <= 'h' {
        c as int - 'a' as int
    } else if 'A' <= c <= 'H' {
        c as int - 'A' as int
    } else {
        -1
    }
}

/// The rank that a digit names; -1 for any character but `1` to `8`.
pub open spec fn rank_of_char(c: char) -> int {
    if '1' <= c <= '8' {
        c as int - '1' as int
    } else {
        -1
    }
}

/// The square that the first two bytes of a text name; -1 if there are not
/// two, or if they name none.
pub open spec fn square_of_text(bytes: Seq<u8>) -> int {
    if bytes.len() < 2 {
        -1
    } else {
        square_at(file_of_char(bytes[0] as char), rank_of_char(bytes[1] as char))
    }
}

/// A byte is one of the letters q, r, b, n that name a promotion, in either case.
pub open spec fn is_promotion_letter(b: u8) -> bool {
    b == 'q' as u8 || b == 'r' as u8 || b == 'b' as u8 || b == 'n' as u8 || b == 'Q' as u8 || b
        == 'R' as u8 || b == 'B' as u8 || b == 'N' as u8
}

/// A text has the form of a move in coordinate notation: two squares, and
/// optionally a promotion letter.
pub open spec fn valid_uci(bytes: Seq<u8>) -> bool {
    &&& bytes.len() == 4 || bytes.len() == 5
    &&& square_of_text(bytes.subrange(0, 2)) != -1
    &&& square_of_text(bytes.subrange(2, 4)) != -1
    &&& bytes.len() == 5 ==> is_promotion_letter(bytes[4])
}

/// The letter of a file.
pub open spec fn file_char(file: int) -> char {
    (file + 'a' as int) as char
}

/// The digit of a rank.
pub open spec fn rank_char(rank: int) -> char {
    (rank + '1' as int) as char
}

/// The two characters that name a square; two dashes for -1.
pub open spec fn square_chars(sq: int) -> (char, char) {
    if sq == -1 {
        ('-', '-')
    } else {
        (file_char(file_of(sq)), rank_char(rank_of(sq)))
    }
}

/// The text that names a square; empty for -1.
pub open spec fn square_text(sq: int) -> Seq<char> {
    if sq == -1 {
        Seq::empty()
    } else {
        seq![file_char(file_of(sq)), rank_char(rank_of(sq))]
    }
}

/// `String::from_iter` over the characters of a vector: the string that
/// holds exactly these characters, in order.
#[verifier::external_body]
pub(crate) fn string_of_chars(chars: &Vec<char>) -> (s: String)
    ensures
        s@ == chars@,
{
    String::from_iter(chars.iter())
}

impl Square {
    /// The variant's index, 0 for a1 to 63 for h8, and 64 for `INVALID`.
    pub open spec fn index(self) -> int {
        match self {
            Square::A1 => 0, Square::B1 => 1, Square::C1 => 2, Square::D1 => 3,
            Square::E1 => 4, Square::F1 => 5, Square::G1 => 6, Square::H1 => 7,
            Square::A2 => 8, Square::B2 => 9, Square::C2 => 10, Square::D2 => 11,
            Square::E2 => 12, Square::F2 => 13, Square::G2 => 14, Square::H2 => 15,
            Square::A3 => 16, Square::B3 => 17, Square::C3 => 18, Square::D3 => 19,
            Square::E3 => 20, Square::F3 => 21, Square::G3 => 22, Square::H3 => 23,
            Square::A4 => 24, Square::B4 => 25, Square::C4 => 26, Square::D4 => 27,
            Square::E4 => 28, Square::F4 => 29, Square::G4 => 30, Square::H4 => 31,
            Square::A5 => 32, Square::B5 => 33, Square::C5 => 34, Square::D5 => 35,
            Square::E5 => 36, Square::F5 => 37, Square::G5 => 38, Square::H5 => 39,
            Square::A6 => 40, Square::B6 => 41, Square::C6 => 42, Square::D6 => 43,
            Square::E6 => 44, Square::F6 => 45, Square::G6 => 46, Square::H6 => 47,
            Square::A7 => 48, Square::B7 => 49, Square::C7 => 50, Square::D7 => 51,
            Square::E7 => 52, Square::F7 => 53, Square::G7 => 54, Square::H7 => 55,
            Square::A8 => 56, Square::B8 => 57, Square::C8 => 58, Square::D8 => 59,
            Square::E8 => 60, Square::F8 => 61, Square::G8 => 62, Square::H8 => 63,
            Square::INVALID => 64,
        }
    }

    /// The variant's index as a machine integer.
    pub fn to_index(self) -> (r: i32)
        ensures
            r == self.index(),
            0 <= r <= 64,
    {
        match self {
            Square::A1 => 0, Square::B1 => 1, Square::C1 => 2, Square::D1 => 3,
            Square::E1 => 4, Square::F1 => 5, Square::G1 => 6, Square::H1 => 7,
            Square::A2 => 8, Square::B2 => 9, Square::C2 => 10, Square::D2 => 11,
            Square::E2 => 12, Square::F2 => 13, Square::G2 => 14, Square::H2 => 15,
            Square::A3 => 16, Square::B3 => 17, Square::C3 => 18, Square::D3 => 19,
            Square::E3 => 20, Square::F3 => 21, Square::G3 => 22, Square::H3 => 23,
            Square::A4 => 24, Square::B4 => 25, Square::C4 => 26, Square::D4 => 27,
            Square::E4 => 28, Square::F4 => 29, Square::G4 => 30, Square::H4 => 31,
            Square::A5 => 32, Square::B5 => 33, Square::C5 => 34, Square::D5 => 35,
            Square::E5 => 36, Square::F5 => 37, Square::G5 => 38, Square::H5 => 39,
            Square::A6 => 40, Square::B6 => 41, Square::C6 => 42, Square::D6 => 43,
            Square::E6 => 44, Square::F6 => 45, Square::G6 => 46, Square::H6 => 47,
            Square::A7 => 48, Square::B7 => 49, Square::C7 => 50, Square::D7 => 51,
            Square::E7 => 52, Square::F7 => 53, Square::G7 => 54, Square::H7 => 55,
            Square::A8 => 56, Square::B8 => 57, Square::C8 => 58, Square::D8 => 59,
            Square::E8 => 60, Square::F8 => 61, Square::G8 => 62, Square::H8 => 63,
            Square::INVALID => 64,
        }
    }

    /// The square whose index is in the low six bits of `f`.
    pub fn from_u32(f: u32) -> (s: Square)
        ensures
            s.index() == f % 64,
    {
        let files: [Square; 64] = [
            Square::A1, Square::B1, Square::C1, Square::D1,
            Square::E1, Square::F1, Square::G1, Square::H1,
            Square::A2, Square::B2, Square::C2, Square::D2,
            Square::E2, Square::F2, Square::G2, Square::H2,
            Square::A3, Square::B3, Square::C3, Square::D3,
            Square::E3, Square::F3, Square::G3, Square::H3,
            Square::A4, Square::B4, Square::C4, Square::D4,
            Square::E4, Square::F4, Square::G4, Square::H4,
            Square::A5, Square::B5, Square::C5, Square::D5,
            Square::E5, Square::F5, Square::G5, Square::H5,
            Square::A6, Square::B6, Square::C6, Square::D6,
            Square::E6, Square::F6, Square::G6, Square::H6,
            Square::A7, Square::B7, Square::C7, Square::D7,
            Square::E7, Square::F7, Square::G7, Square::H7,
            Square::A8, Square::B8, Square::C8, Square::D8,
            Square::E8, Square::F8, Square::G8, Square::H8,
        ];
        files[(f % 64) as usize]
    }
}

impl BoardHelper {
    /// The square that the first two bytes of a text name, or -1.
    pub fn text_to_square(uci_cmd: &str) -> (r: i32)
        ensures
            r == square_of_text(uci_cmd.spec_bytes()),
            -1 <= r < 64,
    {
        let bytes = uci_cmd.as_bytes();
        if bytes.len() < 2 {
            return -1;
        }
        let file = Self::file_to_idx(bytes[0] as char);
        let rank = Self::rank_to_idx(bytes[1] as char);
        Self::file_rank_to_idx(file, rank)
    }

    /// The square that a file letter and a rank digit name, or -1.
    pub fn chars_to_square(file: char, rank: char) -> (r: i32)
        ensures
            r == square_at(file_of_char(file), rank_of_char(rank)),
            -1 <= r < 64,
    {
        let file = Self::file_to_idx(file);
        let rank = Self::rank_to_idx(rank);
        Self::file_rank_to_idx(file, rank)
    }

    /// The file that a letter names, in either case, or -1.
    pub fn file_to_idx(file: char) -> (r: i32)
        ensures
            r == file_of_char(file),
            -1 <= r < 8,
    {
        if 'a' <= file && file <= 'h' {
            (file as u32 - 'a' as u32) as i32
        } else if 'A' <= file && file <= 'H' {
            (file as u32 - 'A' as u32) as i32
        } else {
            -1
        }
    }

    /// The rank that a digit names, or -1.
    pub fn rank_to_idx(rank: char) -> (r: i32)
        ensures
            r == rank_of_char(rank),
            -1 <= r < 8,
    {
        if '1' <= rank && rank <= '8' {
            (rank as u32 - '1' as u32) as i32
        } else {
            -1
        }
    }

    /// The square on a file and a rank, or -1 if either is off the board.
    pub fn file_rank_to_idx(file: i32, rank: i32) -> (r: i32)
        ensures
            r == square_at(file as int, rank as int),
            -1 <= r < 64,
    {
        if file < 0 || file > 7 || rank < 0 || rank > 7 {
            return -1;
        }
        rank * CHESSBOARD_WIDTH + file
    }

    /// The rank of a square.
    pub fn get_rank(square: i32) -> (r: i32)
        ensures
            r == rank_of(square as int),
    {
        if square >= 0 {
            square / 8
        } else {
            -((-(square + 1)) / 8) - 1
        }
    }

    /// The file of a square.
    pub fn get_file(square: i32) -> (r: i32)
        ensures
            r == file_of(square as int),
            0 <= r < 8,
    {
        if square >= 0 {
            square % 8
        } else {
            7 - ((-(square + 1)) % 8)
        }
    }

    /// The file and the rank of a square.
    pub fn file_and_rank(square: i32) -> (r: (i32, i32))
        ensures
            r.0 == file_of(square as int),
            r.1 == rank_of(square as int),
    {
        (Self::get_file(square), Self::get_rank(square))
    }

    /// The file letter and the rank digit of a square; two dashes for -1.
    pub fn square_to_chars(square: i32) -> (r: (char, char))
        requires
            -1 <= square < 64,
        ensures
            r == square_chars(square as int),
    {
        if square == -1 {
            return ('-', '-');
        }
        let rank = (49u8 + Self::get_rank(square) as u8) as char;
        let file = (97u8 + Self::get_file(square) as u8) as char;
        (file, rank)
    }

    /// The name of a square as a string; the empty string for -1.
    pub fn square_to_string(square: i32) -> (s: String)
        requires
            -1 <= square < 64,
        ensures
            s@ == square_text(square as int),
    {
        let mut chars: Vec<char> = Vec::new();
        if square != -1 {
            let (file, rank) = Self::square_to_chars(square);
            chars.push(file);
            chars.push(rank);
        }
        assert(chars@ =~= square_text(square as int));
        string_of_chars(&chars)
    }

    /// Index of the lowest member of a bitboard; 64 if it is empty.
    pub fn bitscan_forward(bb: u64) -> (r: i32)
        ensures
            r == lowest(bb),
            0 <= r <= 64,
            bb != 0 ==> r < 64 && bit(bb, r as int),
            bb == 0 <==> r == 64,
            forall|j: int| 0 <= j < r ==> !bit(bb, j),
    {
        proof {
            vstd::std_specs::bits::axiom_u64_trailing_zeros(bb);
            if bb != 0 {
                lemma_lowest(bb);
            } else {
                crate::bits::lemma_bit_zero_all();
            }
        }
        bb.trailing_zeros() as i32
    }

    /// Removes the lowest member of a non-empty bitboard and returns its index.
    pub fn pop_lsb(bb: &mut u64) -> (r: i32)
        requires
            *old(bb) != 0,
        ensures
            r == lowest(*old(bb)),
            0 <= r < 64,
            bit(*old(bb), r as int),
            *final(bb) == *old(bb) & !single(r as int),
            *final(bb) < *old(bb),
            forall|j: int| bit(*final(bb), j) == (bit(*old(bb), j) && j != r),
            forall|j: int| 0 <= j < r ==> !bit(*old(bb), j),
    {
        proof {
            lemma_lowest(*bb);
            lemma_drop_lowest(*bb);
        }
        let pos = Self::bitscan_forward(*bb);
        *bb = *bb & (*bb - 1);
        pos
    }

    /// Removes the lowest member of a non-empty bitboard and returns its index.
    pub fn pop_rsb(bb: &mut u64) -> (r: i32)
        requires
            *old(bb) != 0,
        ensures
            r == lowest(*old(bb)),
            0 <= r < 64,
            bit(*old(bb), r as int),
            *final(bb) == *old(bb) & !single(r as int),
            forall|j: int| bit(*final(bb), j) == (bit(*old(bb), j) && j != r),
    {
        Self::pop_lsb(bb)
    }

    /// Number of members of a bitboard.
    pub fn count_bits(b: u64) -> (r: i32)
        ensures
            r == count(b),
            0 <= r <= 64,
    {
        b.count_ones() as i32
    }

    /// The text has the form of a move in coordinate notation.
    pub fn is_valid_uci_move(uci_move: &str) -> (r: bool)
        ensures
            r == valid_uci(uci_move.spec_bytes()),
    {
        let chars = uci_move.as_bytes();
        if chars.len() != 4 && chars.len() != 5 {
            return false;
        }
        if BoardHelper::chars_to_square(chars[0] as char, chars[1] as char) == -1 {
            return false;
        }
        if BoardHelper::chars_to_square(chars[2] as char, chars[3] as char) == -1 {
            return false;
        }
        if chars.len() == 5 {
            let prom = chars[4];
            return prom == 113 || prom == 114 || prom == 98 || prom == 110 || prom == 81 || prom
                == 82 || prom == 66 || prom == 78;
        }
        true
    }
}

} // verus!
