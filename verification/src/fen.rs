//! Positions in Forsyth-Edwards notation, read and written.
//!
//! A text has up to six fields, separated by single spaces: the pieces,
//! the side to move, the castling rights, the en-passant target and the two
//! move counters. Fields that are missing at the end take their values from
//! an empty game: white to move, no castling right, no target, clock 0, move 1.

use vstd::prelude::*;
use vstd::string::StringSliceAdditionalSpecFns;
use crate::board::ChessBoard;
use crate::board_helper::{
    file_char, file_of, file_of_char, rank_char, rank_of, rank_of_char, square_at, string_of_chars,
    BoardHelper,
};
use crate::move_generation::lemma_piece_sets;
use crate::piece::{Piece, PieceColor, PieceType};
use crate::position::{canonical, no_piece, Position};
use crate::repetition_table::{cleared, counted};
use crate::rules::{king_square, pieces, square_in_check};

verus! {

pub const STARTPOS_FEN: &'static str = "rnbqkbnr/pppppppp/8/8/8/8/PPPPPPPP/RNBQKBNR w KQkq - 0 1";

pub const STARTPOS_FEN_BLACK: &'static str = "rnbqkbnr/pppppppp/8/8/8/8/PPPPPPPP/RNBQKBNR b KQkq - 0 1";

/// Why a text was not taken as a position.
#[derive(Clone, Copy, Debug, PartialEq, Eq, Structural)]
pub enum FenParsingError {
    /// There is no white king.
    NoWhiteKing,
    /// There is no black king.
    NoBlackKing,
    /// The side that is not to move is in check.
    OpponentInCheck,
    /// A field cannot be read.
    Syntax,
}

/// The index of the first space at or after `i`, or the length of the text.
pub open spec fn next_space(bytes: Seq<u8>, i: int) -> int
    decreases bytes.len() - i,
{
    if i < 0 || i >= bytes.len() {
        bytes.len() as int
    } else if bytes[i] == 32 {
        i
    } else {
        next_space(bytes, i + 1)
    }
}

/// Where field `k` starts, or -1 if the text has no such field.
pub open spec fn field_start(bytes: Seq<u8>, k: nat) -> int
    decreases k,
{
    if k == 0 {
        0
    } else {
        let prev = field_start(bytes, (k - 1) as nat);
        if prev < 0 || next_space(bytes, prev) >= bytes.len() {
            -1
        } else {
            next_space(bytes, prev) + 1
        }
    }
}

/// Where field `k` ends.
pub open spec fn field_end(bytes: Seq<u8>, k: nat) -> int {
    next_space(bytes, field_start(bytes, k))
}

/// The text has a field `k`.
pub open spec fn has_field(bytes: Seq<u8>, k: nat) -> bool {
    field_start(bytes, k) >= 0
}

/// The board while the field of the pieces is read: the pieces placed so
/// far, the file and rank of the next square, and whether all was well.
pub struct Placement {
    pub board: Seq<Piece>,
    pub x: int,
    pub y: int,
    pub ok: bool,
}

/// The empty board, before the first byte: the next square is a8.
pub open spec fn place_start() -> Placement {
    Placement { board: Seq::new(64, |i: int| no_piece()), x: 0, y: 7, ok: true }
}

/// One byte of the field of the pieces: a digit skips so many squares, a
/// slash does nothing, a letter places its piece; past the last file the
/// next rank down begins. Any other byte, and a piece below the first rank,
/// is an error.
pub open spec fn place_step(s: Placement, b: u8) -> Placement {
    if !s.ok {
        s
    } else {
        let piece = Piece::of_letter(b as char);
        let moved = if 48 <= b <= 57 {
            Placement { board: s.board, x: s.x + (b - 48), y: s.y, ok: true }
        } else if b == 47 {
            s
        } else if !piece.occupied() || s.y < 0 {
            Placement { board: s.board, x: s.x, y: s.y, ok: false }
        } else {
            Placement { board: s.board.update(s.y * 8 + s.x, piece), x: s.x + 1, y: s.y, ok: true }
        };
        if moved.x >= 8 {
            Placement {
                board: moved.board,
                x: 0,
                y: if moved.y >= 0 {
                    moved.y - 1
                } else {
                    moved.y
                },
                ok: moved.ok,
            }
        } else {
            moved
        }
    }
}

/// The board after the first `n` bytes of a field that starts at `start`.
pub open spec fn placement(bytes: Seq<u8>, start: int, n: nat) -> Placement
    decreases n,
{
    if n == 0 {
        place_start()
    } else {
        place_step(placement(bytes, start, (n - 1) as nat), bytes[start + n - 1])
    }
}

/// A byte occurs in a part of the text.
pub open spec fn occurs(bytes: Seq<u8>, start: int, end: int, b: u8) -> bool {
    exists|i: int| start <= i < end && #[trigger] bytes[i] == b
}

/// The number that the first `n` digits from `start` on write.
pub open spec fn digits_value(bytes: Seq<u8>, start: int, n: nat) -> int
    decreases n,
{
    if n == 0 {
        0
    } else {
        digits_value(bytes, start, (n - 1) as nat) * 10 + (bytes[start + n - 1] - 48)
    }
}

/// Every byte of a part of the text is a digit.
pub open spec fn all_digits(bytes: Seq<u8>, start: int, end: int) -> bool {
    forall|i: int| start <= i < end ==> 48 <= #[trigger] bytes[i] <= 57
}

/// The number that a part of the text writes in decimal digits, if it is
/// one and is not above `max`.
pub open spec fn number(bytes: Seq<u8>, start: int, end: int, max: int) -> Option<int> {
    if start < end && all_digits(bytes, start, end) && digits_value(
        bytes,
        start,
        (end - start) as nat,
    ) <= max {
        Some(digits_value(bytes, start, (end - start) as nat))
    } else {
        None
    }
}

/// The side to move that a field names: `w` or `b`.
pub open spec fn turn_field(bytes: Seq<u8>, start: int, end: int) -> Option<PieceColor> {
    if end == start + 1 && bytes[start] == 119 {
        Some(PieceColor::White)
    } else if end == start + 1 && bytes[start] == 98 {
        Some(PieceColor::Black)
    } else {
        None
    }
}

/// The castling rights that a field names: each of the letters K, Q, k, q
/// that occurs in it gives its right.
pub open spec fn rights_field(bytes: Seq<u8>, start: int, end: int) -> Seq<bool> {
    seq![
        occurs(bytes, start, end, 75),
        occurs(bytes, start, end, 81),
        occurs(bytes, start, end, 107),
        occurs(bytes, start, end, 113),
    ]
}

/// The en-passant target that a field names: none for a dash, and none for
/// a field that names no square.
pub open spec fn target_field(bytes: Seq<u8>, start: int, end: int) -> int {
    if end == start + 1 && bytes[start] == 45 {
        -1
    } else if end - start >= 2 {
        square_at(file_of_char(bytes[start] as char), rank_of_char(bytes[start + 1] as char))
    } else {
        -1
    }
}

/// The side to move that a text names, if its field can be read.
pub open spec fn fen_turn(bytes: Seq<u8>) -> Option<PieceColor> {
    if has_field(bytes, 1) {
        turn_field(bytes, field_start(bytes, 1), field_end(bytes, 1))
    } else {
        Some(PieceColor::White)
    }
}

/// The castling rights that a text names.
pub open spec fn fen_castling(bytes: Seq<u8>) -> Seq<bool> {
    if has_field(bytes, 2) {
        rights_field(bytes, field_start(bytes, 2), field_end(bytes, 2))
    } else {
        seq![false, false, false, false]
    }
}

/// The en-passant target that a text names.
pub open spec fn fen_en_passant(bytes: Seq<u8>) -> int {
    if has_field(bytes, 3) {
        target_field(bytes, field_start(bytes, 3), field_end(bytes, 3))
    } else {
        -1
    }
}

/// The count of half moves that a text names, if its field can be read.
pub open spec fn fen_half_move(bytes: Seq<u8>) -> Option<int> {
    if has_field(bytes, 4) {
        number(bytes, field_start(bytes, 4), field_end(bytes, 4), 255)
    } else {
        Some(0int)
    }
}

/// The number of the move that a text names, if its field can be read.
pub open spec fn fen_full_move(bytes: Seq<u8>) -> Option<int> {
    if has_field(bytes, 5) {
        number(bytes, field_start(bytes, 5), field_end(bytes, 5), 65535)
    } else {
        Some(1int)
    }
}

/// The position that a text describes, if every field of it can be read.
pub open spec fn fen_position(bytes: Seq<u8>) -> Option<Position> {
    let pieces = placement(bytes, 0, field_end(bytes, 0) as nat);
    if pieces.ok && fen_turn(bytes) is Some && fen_half_move(bytes) is Some && fen_full_move(
        bytes,
    ) is Some {
        Some(
            Position {
                board: pieces.board,
                turn: fen_turn(bytes).unwrap(),
                en_passant: fen_en_passant(bytes),
                castling: fen_castling(bytes),
                half_move: fen_half_move(bytes).unwrap(),
                full_move: fen_full_move(bytes).unwrap(),
            },
        )
    } else {
        None
    }
}

/// What reading a text gives: the position it describes, or the reason why
/// it is not taken. A text that cannot be read is a syntax error; a
/// position needs both kings, and the side that is not to move may not be
/// in check.
pub open spec fn parsed_fen(bytes: Seq<u8>) -> Result<Position, FenParsingError> {
    match fen_position(bytes) {
        None => Err(FenParsingError::Syntax),
        Some(p) => {
            let waiting = p.turn.opposite();
            if pieces(p, PieceType::King, PieceColor::White) == 0 {
                Err(FenParsingError::NoWhiteKing)
            } else if pieces(p, PieceType::King, PieceColor::Black) == 0 {
                Err(FenParsingError::NoBlackKing)
            } else if square_in_check(p, waiting, king_square(p, waiting)) {
                Err(FenParsingError::OpponentInCheck)
            } else {
                Ok(p)
            }
        },
    }
}

/// The decimal digits of a number.
pub open spec fn decimal(n: nat) -> Seq<char>
    decreases n,
{
    if n < 10 {
        seq![(n + 48) as char]
    } else {
        decimal(n / 10).push(((n % 10) + 48) as char)
    }
}

/// The text of the pieces while it is written: what is written, and the
/// number of empty squares seen since.
pub struct Emission {
    pub text: Seq<char>,
    pub empty: int,
}

/// The text with the count of empty squares written out, if there is one.
pub open spec fn flushed(e: Emission) -> Seq<char> {
    if e.empty != 0 {
        e.text.push((e.empty + 48) as char)
    } else {
        e.text
    }
}

/// The square that is written as number `i`: from a8 along the rank, then
/// down rank by rank.
pub open spec fn fen_square(i: int) -> int {
    (7 - i / 8) * 8 + i % 8
}

/// The text of the pieces after the first `n` squares.
pub open spec fn emitted(board: Seq<Piece>, n: nat) -> Emission
    decreases n,
{
    if n == 0 {
        Emission { text: Seq::empty(), empty: 0 }
    } else {
        let before = emitted(board, (n - 1) as nat);
        let piece = board[fen_square(n - 1)];
        let after = if piece.empty() {
            Emission { text: before.text, empty: before.empty + 1 }
        } else {
            Emission { text: flushed(before).push(piece.letter()), empty: 0 }
        };
        if n % 8 == 0 {
            Emission { text: flushed(after).push('/'), empty: 0 }
        } else {
            after
        }
    }
}

/// The text of the castling rights.
pub open spec fn castling_text(rights: Seq<bool>) -> Seq<char> {
    if rights[0] || rights[1] || rights[2] || rights[3] {
        (if rights[0] {
            seq!['K']
        } else {
            Seq::<char>::empty()
        }) + (if rights[1] {
            seq!['Q']
        } else {
            Seq::<char>::empty()
        }) + (if rights[2] {
            seq!['k']
        } else {
            Seq::<char>::empty()
        }) + (if rights[3] {
            seq!['q']
        } else {
            Seq::<char>::empty()
        })
    } else {
        seq!['-']
    }
}

/// The text of the en-passant target.
pub open spec fn target_text(sq: int) -> Seq<char> {
    if sq != -1 {
        seq![file_char(file_of(sq)), rank_char(rank_of(sq))]
    } else {
        seq!['-']
    }
}

/// The text of the side to move.
pub open spec fn turn_text(turn: PieceColor) -> Seq<char> {
    if turn == PieceColor::White {
        seq!['w']
    } else {
        seq!['b']
    }
}

/// The text of the pieces: the ranks from the eighth down, separated by slashes.
pub open spec fn pieces_text(board: Seq<Piece>) -> Seq<char> {
    emitted(board, 64).text.drop_last()
}

/// The text of a position.
pub open spec fn fen_text(p: Position) -> Seq<char> {
    pieces_text(p.board) + seq![' '] + turn_text(p.turn) + seq![' '] + castling_text(p.castling)
        + seq![' '] + target_text(p.en_passant) + seq![' '] + decimal(p.half_move as nat) + seq![
        ' ',
    ] + decimal(p.full_move as nat)
}

/// The end of the field that starts at `start`.
fn scan_field(bytes: &[u8], start: usize) -> (end: usize)
    requires
        start <= bytes@.len(),
    ensures
        end == next_space(bytes@, start as int),
        start <= end <= bytes@.len(),
{
    let mut i = start;
    while i < bytes.len() && bytes[i] != 32
        invariant
            start <= i <= bytes@.len(),
            next_space(bytes@, i as int) == next_space(bytes@, start as int),
        decreases bytes@.len() - i,
    {
        i += 1;
    }
    i
}

/// A byte occurs in a part of the text.
fn contains_byte(bytes: &[u8], start: usize, end: usize, b: u8) -> (r: bool)
    requires
        start <= end <= bytes@.len(),
    ensures
        r == occurs(bytes@, start as int, end as int, b),
{
    let mut i = start;
    while i < end
        invariant
            start <= i <= end <= bytes@.len(),
            !occurs(bytes@, start as int, i as int, b),
        decreases end - i,
    {
        if bytes[i] == b {
            return true;
        }
        i += 1;
    }
    false
}

proof fn lemma_digits_grow(bytes: Seq<u8>, start: int, n: nat, m: nat)
    requires
        n <= m,
        all_digits(bytes, start, start + m),
    ensures
        0 <= digits_value(bytes, start, n) <= digits_value(bytes, start, m),
    decreases m,
{
    if n < m {
        lemma_digits_grow(bytes, start, n, (m - 1) as nat);
        assert(48 <= bytes[start + m - 1] <= 57);
    } else if n > 0 {
        lemma_digits_grow(bytes, start, (n - 1) as nat, (m - 1) as nat);
        assert(48 <= bytes[start + m - 1] <= 57);
    }
}

/// The number that a part of the text writes, if it is one and is not above `max`.
fn read_number(bytes: &[u8], start: usize, end: usize, max: u32) -> (r: Option<u32>)
    requires
        start <= end <= bytes@.len(),
        max <= 65535,
    ensures
        match r {
            Some(v) => number(bytes@, start as int, end as int, max as int) == Some(v as int) && v
                <= max,
            None => number(bytes@, start as int, end as int, max as int) is None,
        },
{
    if start == end {
        return None;
    }
    let mut value: u32 = 0;
    let mut i = start;
    while i < end
        invariant
            start <= i <= end <= bytes@.len(),
            max <= 65535,
            all_digits(bytes@, start as int, i as int),
            value == digits_value(bytes@, start as int, (i - start) as nat),
            value <= max,
        decreases end - i,
    {
        let b = bytes[i];
        if b < 48 || b > 57 {
            return None;
        }
        value = value * 10 + (b - 48) as u32;
        i += 1;
        if value > max {
            proof {
                if all_digits(bytes@, start as int, end as int) {
                    lemma_digits_grow(
                        bytes@,
                        start as int,
                        (i - start) as nat,
                        (end - start) as nat,
                    );
                }
            }
            return None;
        }
    }
    Some(value)
}

/// Appends the decimal digits of a number.
fn push_decimal(n: u16, out: &mut Vec<char>)
    ensures
        final(out)@ == old(out)@ + decimal(n as nat),
    decreases n,
{
    if n < 10 {
        out.push((n as u8 + 48) as char);
        assert(out@ =~= old(out)@ + decimal(n as nat));
    } else {
        push_decimal(n / 10, out);
        out.push(((n % 10) as u8 + 48) as char);
        assert(out@ =~= old(out)@ + decimal(n as nat));
    }
}

/// Where the fields of a text start and end.
pub struct Fields {
    pub starts: [usize; 6],
    pub ends: [usize; 6],
    pub count: usize,
}

/// Finds the first six fields of a text.
fn split_fields(bytes: &[u8]) -> (f: Fields)
    ensures
        1 <= f.count <= 6,
        forall|k: nat| k < 6 ==> ((k < f.count) == #[trigger] has_field(bytes@, k)),
        forall|k: nat|
            k < f.count ==> #[trigger] field_start(bytes@, k) == f.starts@[k as int] && field_end(
                bytes@,
                k,
            ) == f.ends@[k as int] && f.starts@[k as int] <= f.ends@[k as int] <= bytes@.len(),
{
    let mut starts: [usize; 6] = [0;6];
    let mut ends: [usize; 6] = [0;6];
    ends[0] = scan_field(bytes, 0);
    let mut count: usize = 1;
    while count < 6 && ends[count - 1] < bytes.len()
        invariant
            1 <= count <= 6,
            forall|k: nat| k < count ==> #[trigger] has_field(bytes@, k),
            forall|k: nat|
                k < count ==> #[trigger] field_start(bytes@, k) == starts@[k as int] && field_end(
                    bytes@,
                    k,
                ) == ends@[k as int] && starts@[k as int] <= ends@[k as int] <= bytes@.len(),
        decreases 6 - count,
    {
        proof {
            let last = (count - 1) as nat;
            assert(has_field(bytes@, last));
            assert(field_start(bytes@, last) == starts@[last as int]);
            assert(field_start(bytes@, count as nat) == ends@[last as int] + 1);
        }
        let start = ends[count - 1] + 1;
        starts[count] = start;
        ends[count] = scan_field(bytes, start);
        count += 1;
    }
    proof {
        assert forall|k: nat| k < 6 implies ((k < count) == #[trigger] has_field(bytes@, k)) by {
            if k >= count {
                let last = (count - 1) as nat;
                assert(has_field(bytes@, last));
                assert(field_start(bytes@, last) == starts@[last as int]);
                lemma_no_more_fields(bytes@, count as nat, k);
            }
        }
    }
    Fields { starts, ends, count }
}

/// After the last field there is no other.
proof fn lemma_no_more_fields(bytes: Seq<u8>, k: nat, m: nat)
    requires
        1 <= k <= m,
        has_field(bytes, (k - 1) as nat),
        field_end(bytes, (k - 1) as nat) >= bytes.len(),
    ensures
        !has_field(bytes, m),
    decreases m,
{
    if m > k {
        lemma_no_more_fields(bytes, k, (m - 1) as nat);
    }
}

/// The side to move that a field names.
fn read_turn(bytes: &[u8], start: usize, end: usize) -> (r: Option<PieceColor>)
    requires
        start <= end <= bytes@.len(),
    ensures
        r == turn_field(bytes@, start as int, end as int),
{
    if end - start == 1 && bytes[start] == 119 {
        Some(PieceColor::White)
    } else if end - start == 1 && bytes[start] == 98 {
        Some(PieceColor::Black)
    } else {
        None
    }
}

/// The castling rights that a field names.
fn read_rights(bytes: &[u8], start: usize, end: usize) -> (r: [bool; 4])
    requires
        start <= end <= bytes@.len(),
    ensures
        r@ == rights_field(bytes@, start as int, end as int),
{
    let r = [
        contains_byte(bytes, start, end, 75),
        contains_byte(bytes, start, end, 81),
        contains_byte(bytes, start, end, 107),
        contains_byte(bytes, start, end, 113),
    ];
    assert(r@ =~= rights_field(bytes@, start as int, end as int));
    r
}

/// The en-passant target that a field names.
fn read_target(bytes: &[u8], start: usize, end: usize) -> (r: i32)
    requires
        start <= end <= bytes@.len(),
    ensures
        r == target_field(bytes@, start as int, end as int),
        -1 <= r < 64,
{
    if end - start == 1 && bytes[start] == 45 {
        -1
    } else if end - start >= 2 {
        BoardHelper::chars_to_square(bytes[start] as char, bytes[start + 1] as char)
    } else {
        -1
    }
}

/// Appends one character.
fn push_char(out: &mut Vec<char>, c: char)
    ensures
        final(out)@ == old(out)@ + seq![c],
{
    out.push(c);
    assert(out@ =~= old(out)@ + seq![c]);
}

/// Appends the text of the castling rights.
fn push_rights(out: &mut Vec<char>, rights: &[bool; 4])
    ensures
        final(out)@ == old(out)@ + castling_text(rights@),
{
    if rights[0] || rights[1] || rights[2] || rights[3] {
        if rights[0] {
            out.push('K');
        }
        if rights[1] {
            out.push('Q');
        }
        if rights[2] {
            out.push('k');
        }
        if rights[3] {
            out.push('q');
        }
    } else {
        out.push('-');
    }
    assert(out@ =~= old(out)@ + castling_text(rights@));
}

/// Appends the text of the en-passant target.
fn push_target(out: &mut Vec<char>, target: i32)
    requires
        -1 <= target < 64,
    ensures
        final(out)@ == old(out)@ + target_text(target as int),
{
    if target != -1 {
        let (file, rank) = BoardHelper::square_to_chars(target);
        out.push(file);
        out.push(rank);
    } else {
        out.push('-');
    }
    assert(out@ =~= old(out)@ + target_text(target as int));
}

/// The text of the pieces of a board.
fn pieces_to_text(board: &[Piece; 64]) -> (fen: Vec<char>)
    ensures
        fen@ == pieces_text(board@),
{
    let mut fen: Vec<char> = Vec::new();
    let mut empty_counter: u8 = 0;
    let mut i: usize = 0;
    while i < 64
        invariant
            i <= 64,
            0 <= empty_counter <= i % 8,
            emitted(board@, i as nat).text == fen@,
            emitted(board@, i as nat).empty == empty_counter,
        decreases 64 - i,
    {
        let square = (7 - i / 8) * 8 + i % 8;
        assert(square == fen_square(i as int));
        let piece = board[square];
        if piece.is_none() {
            empty_counter += 1;
        } else {
            if empty_counter != 0 {
                fen.push((48 + empty_counter) as char);
                empty_counter = 0;
            }
            fen.push(piece.to_char());
        }
        if i % 8 == 7 {
            if empty_counter != 0 {
                fen.push((48 + empty_counter) as char);
                empty_counter = 0;
            }
            fen.push('/');
        }
        i += 1;
        proof {
            let after = emitted(board@, i as nat);
            assert(after.text =~= fen@);
            assert(after.empty == empty_counter);
        }
    }
    let _ = fen.pop();
    assert(fen@ =~= emitted(board@, 64).text.drop_last());
    fen
}

impl ChessBoard {
    /// Takes every piece off the board and starts an empty game: white to
    /// move, no castling right.
    fn reset(&mut self)
        ensures
            final(self).wf(),
            final(self).history_ok(),
            final(self).move_history@.len() == 0,
            final(self).board@ == place_start().board,
            final(self).turn == PieceColor::White,
            final(self).en_passant == -1,
            final(self).castling_rights@ == seq![false, false, false, false],
            final(self).half_move == 0,
            final(self).full_move == 1,
            final(self).repetitions@ == cleared(),
            final(self).keys == old(self).keys,
            final(self).tables == old(self).tables,
    {
        self.castling_rights = [false;4];
        self.clear();
        assert(self.board@ =~= place_start().board);
        assert(self.castling_rights@ =~= seq![false, false, false, false]);
    }

    /// Places the pieces that the first field of a text names, and says
    /// whether the field could be read.
    fn place_pieces(&mut self, bytes: &[u8], end: usize) -> (ok: bool)
        requires
            end <= bytes@.len(),
            old(self).board@ == place_start().board,
            old(self).pieces_ok(),
        ensures
            ok == placement(bytes@, 0, end as nat).ok,
            ok ==> final(self).board@ == placement(bytes@, 0, end as nat).board,
            final(self).pieces_ok(),
            forall|sq: int| 0 <= sq < 64 ==> canonical(#[trigger] final(self).board@[sq]),
            final(self).same_frame(old(self)),
    {
        let mut x: i32 = 0;
        let mut y: i32 = 7;
        let mut i: usize = 0;
        while i < end
            invariant
                i <= end <= bytes@.len(),
                placement(bytes@, 0, i as nat).ok,
                placement(bytes@, 0, i as nat).board == self.board@,
                placement(bytes@, 0, i as nat).x == x,
                placement(bytes@, 0, i as nat).y == y,
                0 <= x < 8,
                -1 <= y <= 7,
                self.pieces_ok(),
                forall|sq: int| 0 <= sq < 64 ==> canonical(#[trigger] self.board@[sq]),
                self.same_frame(old(self)),
            decreases end - i,
        {
            let b = bytes[i];
            let ghost before = placement(bytes@, 0, i as nat);
            assert(placement(bytes@, 0, (i + 1) as nat) == place_step(before, b));
            if 48 <= b && b <= 57 {
                x = x + (b - 48) as i32;
            } else if b != 47 {
                let piece = Piece::from_char(b as char);
                if piece.is_none() || y < 0 {
                    proof {
                        assert(!placement(bytes@, 0, (i + 1) as nat).ok);
                        lemma_placement_fails(bytes@, 0, (i + 1) as nat, end as nat);
                    }
                    return false;
                }
                let _ = self.set_piece(y * 8 + x, piece);
                x = x + 1;
            }
            if x >= 8 {
                x = 0;
                if y >= 0 {
                    y = y - 1;
                }
            }
            i += 1;
        }
        true
    }

    /// Reads a position. On success the board shows the position of the
    /// text, with an empty history and the position counted once; on an
    /// error the board is empty.
    pub fn parse_fen(&mut self, fen_whole: &str) -> (r: Result<(), FenParsingError>)
        ensures
            final(self).wf(),
            final(self).history_ok(),
            final(self).move_history@.len() == 0,
            final(self).keys == old(self).keys,
            final(self).tables == old(self).tables,
            match parsed_fen(fen_whole.spec_bytes()) {
                Ok(p) => r is Ok && final(self)@ == p && final(self).repetitions@ == counted(
                    cleared(),
                    final(self).zobrist_hash,
                ),
                Err(e) => r == Err::<(), FenParsingError>(e) && final(self).board@
                    == place_start().board,
            },
    {
        let bytes = fen_whole.as_bytes();
        let ghost text = fen_whole.spec_bytes();
        let f = split_fields(bytes);
        self.reset();
        let placed = self.place_pieces(bytes, f.ends[0]);
        let turn = if f.count > 1 {
            read_turn(bytes, f.starts[1], f.ends[1])
        } else {
            Some(PieceColor::White)
        };
        let rights: [bool; 4] = if f.count > 2 {
            read_rights(bytes, f.starts[2], f.ends[2])
        } else {
            [false;4]
        };
        assert(rights@ =~= fen_castling(text));
        let target: i32 = if f.count > 3 {
            read_target(bytes, f.starts[3], f.ends[3])
        } else {
            -1
        };
        let half = if f.count > 4 {
            read_number(bytes, f.starts[4], f.ends[4], 255)
        } else {
            Some(0)
        };
        let full = if f.count > 5 {
            read_number(bytes, f.starts[5], f.ends[5], 65535)
        } else {
            Some(1)
        };
        if !placed || turn.is_none() || half.is_none() || full.is_none() {
            self.reset();
            return Err(FenParsingError::Syntax);
        }
        let to_move = turn.unwrap();
        self.castling_rights = rights;
        self.en_passant = target;
        self.half_move = half.unwrap() as u8;
        self.full_move = full.unwrap() as u16;
        self.turn = to_move;
        proof {
            assert(field_end(text, 0) == f.ends@[0]);
            assert(has_field(text, 1) == (f.count > 1));
            assert(has_field(text, 2) == (f.count > 2));
            assert(has_field(text, 3) == (f.count > 3));
            assert(has_field(text, 4) == (f.count > 4));
            assert(has_field(text, 5) == (f.count > 5));
            assert(fen_turn(text) == turn);
            assert(fen_en_passant(text) == target);
            assert(fen_half_move(text) == Some(half.unwrap() as int));
            assert(fen_full_move(text) == Some(full.unwrap() as int));
            assert(self.board@ == placement(text, 0, field_end(text, 0) as nat).board);
            assert(self.castling_rights@ == fen_castling(text));
            assert(fen_position(text) == Some(self@));
            lemma_piece_sets(self, PieceType::King, PieceColor::White);
            lemma_piece_sets(self, PieceType::King, PieceColor::Black);
        }
        if self.bitboards[PieceType::King.get_side_index(PieceColor::White)] == 0 {
            self.reset();
            return Err(FenParsingError::NoWhiteKing);
        }
        if self.bitboards[PieceType::King.get_side_index(PieceColor::Black)] == 0 {
            self.reset();
            return Err(FenParsingError::NoBlackKing);
        }
        if self.is_king_in_check(to_move.flipped()) {
            self.reset();
            return Err(FenParsingError::OpponentInCheck);
        }
        let hash = self.create_zobrist_hash();
        let _ = self.repetitions.increment_repetition(hash);
        self.zobrist_hash = hash;
        Ok(())
    }

    /// Writes the position in Forsyth-Edwards notation.
    pub fn to_fen(&self) -> (s: String)
        requires
            -1 <= self.en_passant < 64,
        ensures
            s@ == fen_text(self@),
    {
        let mut fen = pieces_to_text(&self.board);
        push_char(&mut fen, ' ');
        push_char(
            &mut fen,
            if self.turn == PieceColor::White {
                'w'
            } else {
                'b'
            },
        );
        push_char(&mut fen, ' ');
        push_rights(&mut fen, &self.castling_rights);
        push_char(&mut fen, ' ');
        push_target(&mut fen, self.en_passant);
        push_char(&mut fen, ' ');
        push_decimal(self.half_move as u16, &mut fen);
        push_char(&mut fen, ' ');
        push_decimal(self.full_move, &mut fen);
        string_of_chars(&fen)
    }
}

/// Once the reading of the pieces has failed it stays failed.
proof fn lemma_placement_fails(bytes: Seq<u8>, start: int, n: nat, m: nat)
    requires
        n <= m,
        !placement(bytes, start, n).ok,
    ensures
        !placement(bytes, start, m).ok,
    decreases m,
{
    if n < m {
        lemma_placement_fails(bytes, start, n, (m - 1) as nat);
    }
}

} // verus!
