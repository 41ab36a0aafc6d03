//! Writing a position and reading the text again gives the position back.

use vstd::prelude::*;
use vstd::utf8::{encode_utf8, is_ascii_chars, is_ascii_chars_encode_utf8};
use crate::board_helper::{file_of, rank_of};
use crate::fen::{
    all_digits, castling_text, decimal, digits_value, emitted, fen_castling, fen_en_passant,
    fen_full_move, fen_half_move, fen_position, fen_square, fen_text, fen_turn, field_end,
    field_start, flushed, has_field, next_space, parsed_fen, pieces_text, place_start, place_step,
    placement, rights_field, target_field, target_text, turn_field, turn_text, Emission, Placement,
};
use crate::piece::{Piece, PieceColor};
use crate::position::{canonical, no_piece, Position};

verus! {

/// The bytes of a text of ASCII characters.
pub open spec fn bytes_of(text: Seq<char>) -> Seq<u8> {
    Seq::new(text.len(), |i: int| text[i] as u8)
}

/// A byte of the mailbox with no bit set but those of a kind and a colour.
pub open spec fn plain(piece: Piece) -> bool {
    piece == no_piece() || (piece.occupied() && piece == Piece::of(piece.kind(), piece.color()))
}

/// A board of 64 plain bytes.
pub open spec fn plain_board(board: Seq<Piece>) -> bool {
    board.len() == 64 && forall|s: int| 0 <= s < 64 ==> plain(#[trigger] board[s])
}

/// A character of the field of the pieces: a letter of a piece, a digit
/// from 1 to 8 or a slash.
pub open spec fn placing(c: char) -> bool {
    c == '/' || ('1' <= c <= '8') || Piece::of_letter(c).occupied() && c as u8 as char == c
}

/// The letter of a plain piece names the piece.
proof fn lemma_letter(piece: Piece)
    requires
        plain(piece),
        piece.occupied(),
    ensures
        Piece::of_letter(piece.letter()) == piece,
        'A' <= piece.letter() <= 'z',
        placing(piece.letter()),
{
}

/// What has been read of the pieces depends on the bytes read alone.
proof fn lemma_placement_prefix(a: Seq<u8>, b: Seq<u8>, n: nat)
    requires
        n <= a.len(),
        n <= b.len(),
        forall|i: int| 0 <= i < n ==> a[i] == b[i],
    ensures
        placement(a, 0, n) == placement(b, 0, n),
    decreases n,
{
    if n > 0 {
        lemma_placement_prefix(a, b, (n - 1) as nat);
    }
}

/// The board that the whole of a text places.
pub open spec fn placed(text: Seq<char>) -> Placement {
    placement(bytes_of(text), 0, text.len())
}

/// Reading one more character is one more step.
proof fn lemma_placed_push(text: Seq<char>, c: char)
    ensures
        placed(text.push(c)) == place_step(placed(text), c as u8),
{
    let longer = text.push(c);
    lemma_placement_prefix(bytes_of(longer), bytes_of(text), text.len());
    assert(bytes_of(longer)[text.len() as int] == c as u8);
}

/// What the text of the first `n` squares places, with `pending` empty
/// squares not yet written: the pieces of those squares, and the next
/// square to fill is the first of the pending ones.
pub open spec fn written(board: Seq<Piece>, n: int, s: Placement, pending: int) -> bool {
    &&& s.ok
    &&& s.board.len() == 64
    &&& 0 <= pending <= n % 8
    &&& s.x == n % 8 - pending
    &&& s.y == 7 - n / 8
    &&& forall|i: int|
        0 <= i < 64 ==> #[trigger] s.board[fen_square(i)] == if i < n {
            board[fen_square(i)]
        } else {
            no_piece()
        }
}

/// Every character of a text is one of the field of the pieces.
pub open spec fn all_placing(text: Seq<char>) -> bool {
    forall|i: int| 0 <= i < text.len() ==> placing(#[trigger] text[i])
}

/// The text with the count of empty squares written out places what the
/// text places, and the next square to fill is the square after the
/// empty ones.
proof fn lemma_flushed(board: Seq<Piece>, n: int, text: Seq<char>, pending: int)
    requires
        0 <= n <= 64,
        pending < 8,
        written(board, n, placed(text), pending),
        all_placing(text),
        n % 8 != 0 || pending == 0,
    ensures
        written(board, n, placed(flushed(Emission { text, empty: pending })), 0),
        all_placing(flushed(Emission { text, empty: pending })),
{
    if pending != 0 {
        let digit = (pending + 48) as char;
        lemma_placed_push(text, digit);
        let s = placed(text);
        let t = place_step(s, digit as u8);
        assert(t.board == s.board);
    }
}

/// A letter after the text of the first `m` squares places the piece of
/// the next square.
proof fn lemma_letter_step(board: Seq<Piece>, m: int, text: Seq<char>)
    requires
        plain_board(board),
        0 <= m < 64,
        written(board, m, placed(text), 0),
        board[fen_square(m)].occupied(),
    ensures
        written(board, m + 1, placed(text.push(board[fen_square(m)].letter())), 0),
{
    let sq = fen_square(m);
    let piece = board[sq];
    assert(plain(piece));
    lemma_letter(piece);
    lemma_placed_push(text, piece.letter());
    let s = placed(text);
    let t = placed(text.push(piece.letter()));
    assert(s.y * 8 + s.x == sq);
    assert(t.board == s.board.update(sq, piece));
    assert forall|i: int| 0 <= i < 64 implies #[trigger] t.board[fen_square(i)] == if i < m + 1 {
        board[fen_square(i)]
    } else {
        no_piece()
    } by {
        if i != m {
            assert(fen_square(i) != sq);
            assert(t.board[fen_square(i)] == s.board[fen_square(i)]);
        }
    }
}

/// An empty square after the text of the first `m` squares is one more
/// pending square.
proof fn lemma_empty_step(board: Seq<Piece>, m: int, s: Placement, pending: int)
    requires
        plain_board(board),
        0 <= m < 64,
        m % 8 != 7,
        written(board, m, s, pending),
        board[fen_square(m)].empty(),
    ensures
        written(board, m + 1, s, pending + 1),
{
    let sq = fen_square(m);
    assert(plain(board[sq]));
    assert forall|i: int| 0 <= i < 64 implies #[trigger] s.board[fen_square(i)] == if i < m + 1 {
        board[fen_square(i)]
    } else {
        no_piece()
    } by {}
}

/// An empty square at the end of a rank: the count of the pending squares
/// with it takes the text to the next rank.
proof fn lemma_empty_end(board: Seq<Piece>, m: int, text: Seq<char>, pending: int)
    requires
        plain_board(board),
        0 <= m < 64,
        m % 8 == 7,
        written(board, m, placed(text), pending),
        board[fen_square(m)].empty(),
    ensures
        written(board, m + 1, placed(text.push((pending + 1 + 48) as char)), 0),
{
    let sq = fen_square(m);
    let digit = (pending + 1 + 48) as char;
    assert(plain(board[sq]));
    lemma_placed_push(text, digit);
    let s = placed(text);
    let t = placed(text.push(digit));
    assert(t.board == s.board);
    assert forall|i: int| 0 <= i < 64 implies #[trigger] t.board[fen_square(i)] == if i < m + 1 {
        board[fen_square(i)]
    } else {
        no_piece()
    } by {}
}

/// A slash changes nothing of what a text places.
proof fn lemma_slash(board: Seq<Piece>, n: int, text: Seq<char>)
    requires
        written(board, n, placed(text), 0),
    ensures
        placed(text.push('/')) == placed(text),
{
    lemma_placed_push(text, '/');
}

/// A text of the field of the pieces with one more such character is one.
proof fn lemma_placing_push(text: Seq<char>, c: char)
    requires
        all_placing(text),
        placing(c),
    ensures
        all_placing(text.push(c)),
{
    let longer = text.push(c);
    assert forall|i: int| 0 <= i < longer.len() implies placing(#[trigger] longer[i]) by {
        if i < text.len() {
            assert(longer[i] == text[i]);
        }
    }
}

/// The text of the first `n` squares after a piece on the last of them.
proof fn lemma_written_piece(board: Seq<Piece>, m: int, before: Emission, now: Emission)
    requires
        plain_board(board),
        0 <= m < 64,
        written(board, m, placed(before.text), before.empty),
        all_placing(before.text),
        m % 8 == 0 ==> before.empty == 0,
        board[fen_square(m)].occupied(),
        now == (if (m + 1) % 8 == 0 {
            Emission { text: flushed(before).push(board[fen_square(m)].letter()).push('/'), empty: 0 }
        } else {
            Emission { text: flushed(before).push(board[fen_square(m)].letter()), empty: 0 }
        }),
    ensures
        written(board, m + 1, placed(now.text), now.empty),
        all_placing(now.text),
        (m + 1) % 8 == 0 ==> now.text.len() > 0 && placed(now.text.drop_last()) == placed(now.text),
{
    let piece = board[fen_square(m)];
    assert(0 <= fen_square(m) < 64);
    assert(plain(piece));
    lemma_flushed(board, m, before.text, before.empty);
    lemma_letter(piece);
    lemma_letter_step(board, m, flushed(before));
    lemma_placing_push(flushed(before), piece.letter());
    let text = flushed(before).push(piece.letter());
    if (m + 1) % 8 == 0 {
        lemma_slash(board, m + 1, text);
        lemma_placing_push(text, '/');
        assert(text.push('/').drop_last() == text);
    }
}

/// The text of the first `n` squares after an empty square as the last of them.
proof fn lemma_written_empty(board: Seq<Piece>, m: int, before: Emission, now: Emission)
    requires
        plain_board(board),
        0 <= m < 64,
        written(board, m, placed(before.text), before.empty),
        all_placing(before.text),
        board[fen_square(m)].empty(),
        now == (if (m + 1) % 8 == 0 {
            Emission { text: before.text.push((before.empty + 1 + 48) as char).push('/'), empty: 0 }
        } else {
            Emission { text: before.text, empty: before.empty + 1 }
        }),
    ensures
        written(board, m + 1, placed(now.text), now.empty),
        all_placing(now.text),
        (m + 1) % 8 == 0 ==> now.text.len() > 0 && placed(now.text.drop_last()) == placed(now.text),
{
    if (m + 1) % 8 == 0 {
        lemma_empty_end(board, m, before.text, before.empty);
        let digit = (before.empty + 1 + 48) as char;
        let text = before.text.push(digit);
        lemma_placing_push(before.text, digit);
        lemma_slash(board, m + 1, text);
        lemma_placing_push(text, '/');
        assert(text.push('/').drop_last() == text);
    } else {
        lemma_empty_step(board, m, placed(before.text), before.empty);
    }
}

/// The text of the first `n` squares places the pieces of those squares.
proof fn lemma_written(board: Seq<Piece>, n: nat)
    requires
        plain_board(board),
        n <= 64,
    ensures
        written(board, n as int, placed(emitted(board, n).text), emitted(board, n).empty),
        all_placing(emitted(board, n).text),
        n % 8 == 0 ==> emitted(board, n).empty == 0,
        n > 0 && n % 8 == 0 ==> emitted(board, n).text.len() > 0 && placed(
            emitted(board, n).text.drop_last(),
        ) == placed(emitted(board, n).text),
    decreases n,
{
    if n == 0 {
        assert(placed(Seq::<char>::empty()) == place_start());
        assert forall|i: int| 0 <= i < 64 implies 0 <= #[trigger] fen_square(i) < 64 by {}
    } else {
        lemma_written(board, (n - 1) as nat);
        let m = n - 1;
        let before = emitted(board, m as nat);
        let now = emitted(board, n);
        let piece = board[fen_square(m)];
        assert(0 <= fen_square(m) < 64);
        assert(plain(piece));
        if piece.empty() {
            assert(flushed(Emission { text: before.text, empty: before.empty + 1 })
                == before.text.push((before.empty + 1 + 48) as char));
            lemma_written_empty(board, m, before, now);
        } else {
            assert(flushed(Emission { text: flushed(before).push(piece.letter()), empty: 0 })
                == flushed(before).push(piece.letter()));
            lemma_written_piece(board, m, before, now);
        }
    }
}

/// A part of the bytes of a text holds the bytes of a field.
pub open spec fn window(bytes: Seq<u8>, start: int, field: Seq<char>) -> bool {
    &&& 0 <= start
    &&& start + field.len() <= bytes.len()
    &&& forall|j: int| 0 <= j < field.len() ==> #[trigger] bytes[start + j] == field[j] as u8
}

/// No character of a field is a space, and each is an ASCII character.
pub open spec fn solid(field: Seq<char>) -> bool {
    forall|j: int| 0 <= j < field.len() ==> ' ' < #[trigger] field[j] <= '\u{7f}'
}

/// The first space from `i` on is at `j` if there is none before `j` and
/// the text ends at `j` or has a space there.
proof fn lemma_next_space(bytes: Seq<u8>, i: int, j: int)
    requires
        0 <= i <= j <= bytes.len(),
        forall|k: int| i <= k < j ==> #[trigger] bytes[k] != 32,
        j == bytes.len() || bytes[j] == 32,
    ensures
        next_space(bytes, i) == j,
    decreases j - i,
{
    if i < j {
        lemma_next_space(bytes, i + 1, j);
    }
}

/// A field that starts at `start` and holds a solid text ends after that
/// text; and if a space follows, the next field starts after the space.
proof fn lemma_field(bytes: Seq<u8>, k: nat, start: int, field: Seq<char>)
    requires
        field_start(bytes, k) == start,
        window(bytes, start, field),
        solid(field),
        start + field.len() == bytes.len() || bytes[start + field.len()] == 32,
    ensures
        field_end(bytes, k) == start + field.len(),
        start + field.len() < bytes.len() ==> field_start(bytes, k + 1) == start + field.len() + 1,
{
    assert forall|i: int| start <= i < start + field.len() implies #[trigger] bytes[i] != 32 by {
        assert(bytes[start + (i - start)] == field[i - start] as u8);
    }
    lemma_next_space(bytes, start, start + field.len());
}

/// The field of the pieces of a plain board is solid, and reading it gives
/// the board.
proof fn lemma_pieces_read(board: Seq<Piece>, bytes: Seq<u8>)
    requires
        plain_board(board),
        window(bytes, 0, pieces_text(board)),
    ensures
        solid(pieces_text(board)),
        placement(bytes, 0, pieces_text(board).len()).ok,
        placement(bytes, 0, pieces_text(board).len()).board == board,
{
    let text = pieces_text(board);
    lemma_written(board, 64);
    let whole = emitted(board, 64).text;
    assert(text == whole.drop_last());
    assert forall|j: int| 0 <= j < text.len() implies ' ' < #[trigger] text[j] <= '\u{7f}' by {
        assert(text[j] == whole[j]);
        assert(placing(whole[j]));
    }
    assert forall|i: int| 0 <= i < text.len() implies bytes[i] == bytes_of(text)[i] by {
        assert(bytes[0 + i] == text[i] as u8);
    }
    lemma_placement_prefix(bytes, bytes_of(text), text.len());
    let s = placed(text);
    assert(s.board =~= board) by {
        assert forall|sq: int| 0 <= sq < 64 implies s.board[sq] == board[sq] by {
            assert(fen_square(fen_square(sq)) == sq);
            assert(0 <= fen_square(sq) < 64);
        }
    }
}

/// Reading the text of a side gives the side.
proof fn lemma_turn_read(turn: PieceColor, bytes: Seq<u8>, start: int)
    requires
        window(bytes, start, turn_text(turn)),
    ensures
        solid(turn_text(turn)),
        turn_field(bytes, start, start + turn_text(turn).len()) == Some(turn),
{
    assert(bytes[start + 0] == turn_text(turn)[0] as u8);
}

/// Reading the text of the castling rights gives the rights.
proof fn lemma_rights_read(rights: Seq<bool>, bytes: Seq<u8>, start: int)
    requires
        rights.len() == 4,
        window(bytes, start, castling_text(rights)),
    ensures
        solid(castling_text(rights)),
        rights_field(bytes, start, start + castling_text(rights).len()) == rights,
{
    let text = castling_text(rights);
    let end = start + text.len();
    let a: Seq<char> = if rights[0] {
        seq!['K']
    } else {
        Seq::empty()
    };
    let b: Seq<char> = if rights[1] {
        seq!['Q']
    } else {
        Seq::empty()
    };
    let c: Seq<char> = if rights[2] {
        seq!['k']
    } else {
        Seq::empty()
    };
    let d: Seq<char> = if rights[3] {
        seq!['q']
    } else {
        Seq::empty()
    };
    let any = rights[0] || rights[1] || rights[2] || rights[3];
    assert(any ==> text == a + b + c + d);
    assert forall|j: int| 0 <= j < text.len() implies (#[trigger] text[j] == '-' && !any) || (
    text[j] == 'K' && rights[0]) || (text[j] == 'Q' && rights[1]) || (text[j] == 'k' && rights[2])
        || (text[j] == 'q' && rights[3]) by {}
    assert forall|i: int| start <= i < end implies (#[trigger] bytes[i] == 45 && !any) || (bytes[i]
        == 75 && rights[0]) || (bytes[i] == 81 && rights[1]) || (bytes[i] == 107 && rights[2]) || (
    bytes[i] == 113 && rights[3]) by {
        assert(bytes[start + (i - start)] == text[i - start] as u8);
    }
    if rights[0] {
        assert(text[0] == 'K');
        assert(bytes[start + 0] == 75);
    }
    if rights[1] {
        let j = a.len() as int;
        assert(text[j] == 'Q');
        assert(bytes[start + j] == 81);
    }
    if rights[2] {
        let j = (a.len() + b.len()) as int;
        assert(text[j] == 'k');
        assert(bytes[start + j] == 107);
    }
    if rights[3] {
        let j = (a.len() + b.len() + c.len()) as int;
        assert(text[j] == 'q');
        assert(bytes[start + j] == 113);
    }
    assert(rights_field(bytes, start, end) =~= rights);
}

/// Reading the text of a target gives the target.
proof fn lemma_target_read(target: int, bytes: Seq<u8>, start: int)
    requires
        -1 <= target < 64,
        window(bytes, start, target_text(target)),
    ensures
        solid(target_text(target)),
        target_field(bytes, start, start + target_text(target).len()) == target,
{
    let text = target_text(target);
    assert(bytes[start + 0] == text[0] as u8);
    if target != -1 {
        assert(bytes[start + 1] == text[1] as u8);
        assert(target == 8 * rank_of(target) + file_of(target));
    }
}

/// The decimal digits of a number are digits, and they write the number.
proof fn lemma_decimal_read(n: nat, bytes: Seq<u8>, start: int)
    requires
        window(bytes, start, decimal(n)),
    ensures
        decimal(n).len() >= 1,
        solid(decimal(n)),
        all_digits(bytes, start, start + decimal(n).len()),
        digits_value(bytes, start, decimal(n).len()) == n,
    decreases n,
{
    let text = decimal(n);
    if n >= 10 {
        let shorter = decimal(n / 10);
        assert(text == shorter.push(((n % 10) + 48) as char));
        assert(window(bytes, start, shorter)) by {
            assert forall|j: int| 0 <= j < shorter.len() implies #[trigger] bytes[start + j] == (
            shorter[j] as u8) by {
                assert(text[j] == shorter[j]);
            }
        }
        lemma_decimal_read(n / 10, bytes, start);
        let last = text.len() - 1;
        assert(bytes[start + last] == text[last] as u8);
        assert(digits_value(bytes, start, text.len()) == digits_value(bytes, start, last as nat)
            * 10 + (bytes[start + text.len() - 1] - 48));
        assert forall|j: int| 0 <= j < text.len() implies ' ' < #[trigger] text[j] <= '\u{7f}' by {
            if j < last {
                assert(text[j] == shorter[j]);
            }
        }
        assert forall|i: int| start <= i < start + text.len() implies 48 <= #[trigger] bytes[i]
            <= 57 by {}
    } else {
        assert(bytes[start + 0] == text[0] as u8);
        assert(digits_value(bytes, start, 0) == 0);
        assert(digits_value(bytes, start, 1) == digits_value(bytes, start, 0) * 10 + (bytes[start
            + 1 - 1] - 48));
    }
}

/// Where a text is a head, a field and a tail, its bytes hold the field
/// after the head, with a solid head, field and tail apart from spaces.
proof fn lemma_window(bytes: Seq<u8>, whole: Seq<char>, head: Seq<char>, field: Seq<char>, tail: Seq<char>)
    requires
        whole == head + field + tail,
        bytes.len() == whole.len(),
        forall|i: int| 0 <= i < whole.len() ==> #[trigger] bytes[i] == whole[i] as u8,
        tail.len() > 0 ==> tail[0] == ' ',
    ensures
        window(bytes, head.len() as int, field),
        head.len() + field.len() == bytes.len() || bytes[(head.len() + field.len()) as int] == 32,
{
    let start = head.len() as int;
    assert forall|j: int| 0 <= j < field.len() implies #[trigger] bytes[start + j] == (
    field[j] as u8) by {
        assert(whole[start + j] == field[j]);
    }
    if tail.len() > 0 {
        assert(whole[start + field.len()] == tail[0]);
    }
}

/// The fields of the text of a position are solid.
proof fn lemma_fields_solid(p: Position)
    requires
        p.wf(),
        plain_board(p.board),
    ensures
        solid(pieces_text(p.board)),
        solid(turn_text(p.turn)),
        solid(castling_text(p.castling)),
        solid(target_text(p.en_passant)),
        solid(decimal(p.half_move as nat)),
        solid(decimal(p.full_move as nat)),
{
    let a = pieces_text(p.board);
    let b = turn_text(p.turn);
    let c = castling_text(p.castling);
    let d = target_text(p.en_passant);
    let e = decimal(p.half_move as nat);
    let f = decimal(p.full_move as nat);
    lemma_written(p.board, 64);
    let whole = emitted(p.board, 64).text;
    assert forall|j: int| 0 <= j < a.len() implies ' ' < #[trigger] a[j] <= '\u{7f}' by {
        assert(a[j] == whole[j]);
        assert(placing(whole[j]));
    }
    lemma_turn_read(p.turn, bytes_of(b), 0);
    lemma_rights_read(p.castling, bytes_of(c), 0);
    lemma_target_read(p.en_passant, bytes_of(d), 0);
    lemma_decimal_read(p.half_move as nat, bytes_of(e), 0);
    lemma_decimal_read(p.full_move as nat, bytes_of(f), 0);
}

/// The six fields of the text of a position.
pub open spec fn field_of(p: Position, k: int) -> Seq<char> {
    if k == 0 {
        pieces_text(p.board)
    } else if k == 1 {
        turn_text(p.turn)
    } else if k == 2 {
        castling_text(p.castling)
    } else if k == 3 {
        target_text(p.en_passant)
    } else if k == 4 {
        decimal(p.half_move as nat)
    } else {
        decimal(p.full_move as nat)
    }
}

/// Where field `k` of the text of a position starts.
pub open spec fn start_of(p: Position, k: int) -> int
    decreases k,
{
    if k <= 0 {
        0
    } else {
        start_of(p, k - 1) + field_of(p, k - 1).len() + 1
    }
}

/// The text of a position up to field `k`.
pub open spec fn head_of(p: Position, k: int) -> Seq<char>
    decreases k,
{
    if k <= 0 {
        Seq::empty()
    } else {
        head_of(p, k - 1) + field_of(p, k - 1) + seq![' ']
    }
}

/// The text of a position after field `k`.
pub open spec fn tail_of(p: Position, k: int) -> Seq<char>
    decreases 5 - k,
{
    if k >= 5 {
        Seq::empty()
    } else {
        seq![' '] + field_of(p, k + 1) + tail_of(p, k + 1)
    }
}

/// The text of a position is the text up to a field, the field and the
/// text after it.
proof fn lemma_text_parts(p: Position, k: int)
    requires
        0 <= k <= 5,
    ensures
        fen_text(p) == head_of(p, k) + field_of(p, k) + tail_of(p, k),
        head_of(p, k).len() == start_of(p, k),
    decreases 5 - k,
{
    reveal_with_fuel(head_of, 6);
    reveal_with_fuel(start_of, 6);
    if k == 5 {
        assert(tail_of(p, 5) == Seq::<char>::empty());
        assert(fen_text(p) =~= head_of(p, 5) + field_of(p, 5) + tail_of(p, 5));
    } else {
        lemma_text_parts(p, k + 1);
        let next = head_of(p, k + 1) + field_of(p, k + 1) + tail_of(p, k + 1);
        assert(head_of(p, k + 1) == head_of(p, k) + field_of(p, k) + seq![' ']);
        assert(tail_of(p, k) == seq![' '] + field_of(p, k + 1) + tail_of(p, k + 1));
        assert(next =~= head_of(p, k) + field_of(p, k) + tail_of(p, k));
    }
}

/// The bytes of the text of a position hold each field where it starts,
/// and a space or the end of the text after it.
proof fn lemma_text_window(p: Position, bytes: Seq<u8>, k: int)
    requires
        0 <= k <= 5,
        bytes.len() == fen_text(p).len(),
        forall|i: int| 0 <= i < bytes.len() ==> #[trigger] bytes[i] == fen_text(p)[i] as u8,
    ensures
        window(bytes, start_of(p, k), field_of(p, k)),
        k == 5 ==> start_of(p, k) + field_of(p, k).len() == bytes.len(),
        k < 5 ==> start_of(p, k) + field_of(p, k).len() < bytes.len() && bytes[start_of(p, k)
            + field_of(p, k).len()] == 32,
{
    lemma_text_parts(p, k);
    if k < 5 {
        assert(tail_of(p, k)[0] == ' ');
    }
    lemma_window(bytes, fen_text(p), head_of(p, k), field_of(p, k), tail_of(p, k));
}

/// The fields of the bytes of the text of a position start where the
/// fields of the text start.
proof fn lemma_text_fields(p: Position, bytes: Seq<u8>, k: nat)
    requires
        p.wf(),
        plain_board(p.board),
        k <= 5,
        bytes.len() == fen_text(p).len(),
        forall|i: int| 0 <= i < bytes.len() ==> #[trigger] bytes[i] == fen_text(p)[i] as u8,
    ensures
        field_start(bytes, k) == start_of(p, k as int),
        field_end(bytes, k) == start_of(p, k as int) + field_of(p, k as int).len(),
    decreases k,
{
    lemma_fields_solid(p);
    lemma_text_window(p, bytes, k as int);
    if k > 0 {
        lemma_text_fields(p, bytes, (k - 1) as nat);
        lemma_text_window(p, bytes, k - 1);
        lemma_field(bytes, (k - 1) as nat, start_of(p, k - 1), field_of(p, k - 1));
    }
    lemma_field(bytes, k, start_of(p, k as int), field_of(p, k as int));
}

/// Reading the bytes of the text of a position gives the position, where
/// the bytes are the characters of the text one by one.
proof fn lemma_text_read(p: Position, bytes: Seq<u8>)
    requires
        p.wf(),
        plain_board(p.board),
        bytes.len() == fen_text(p).len(),
        forall|i: int| 0 <= i < bytes.len() ==> #[trigger] bytes[i] == fen_text(p)[i] as u8,
    ensures
        fen_position(bytes) == Some(p),
{
    lemma_text_fields(p, bytes, 0);
    lemma_text_fields(p, bytes, 1);
    lemma_text_fields(p, bytes, 2);
    lemma_text_fields(p, bytes, 3);
    lemma_text_fields(p, bytes, 4);
    lemma_text_fields(p, bytes, 5);
    lemma_text_window(p, bytes, 0);
    lemma_text_window(p, bytes, 1);
    lemma_text_window(p, bytes, 2);
    lemma_text_window(p, bytes, 3);
    lemma_text_window(p, bytes, 4);
    lemma_text_window(p, bytes, 5);
    lemma_pieces_read(p.board, bytes);
    lemma_turn_read(p.turn, bytes, start_of(p, 1));
    lemma_rights_read(p.castling, bytes, start_of(p, 2));
    lemma_target_read(p.en_passant, bytes, start_of(p, 3));
    lemma_decimal_read(p.half_move as nat, bytes, start_of(p, 4));
    lemma_decimal_read(p.full_move as nat, bytes, start_of(p, 5));
    let read = fen_position(bytes);
    assert(fen_turn(bytes) == Some(p.turn));
    assert(fen_castling(bytes) == p.castling);
    assert(fen_en_passant(bytes) == p.en_passant);
    assert(fen_half_move(bytes) == Some(p.half_move));
    assert(fen_full_move(bytes) == Some(p.full_move));
    assert(read is Some);
    assert(read.unwrap().board == p.board);
}

/// Writing a position and reading the text gives the position back: the
/// text is one of ASCII characters, and its bytes are read as the position.
pub proof fn lemma_fen_round_trip(p: Position)
    requires
        p.wf(),
        plain_board(p.board),
    ensures
        is_ascii_chars(fen_text(p)),
        fen_position(encode_utf8(fen_text(p))) == Some(p),
{
    let whole = fen_text(p);
    let sp = seq![' '];
    lemma_fields_solid(p);
    assert forall|i: int| 0 <= i < whole.len() implies '\0' <= #[trigger] whole[i] <= '\u{7f}' by {
        lemma_text_chars(p, i);
    }
    is_ascii_chars_encode_utf8(whole);
    lemma_text_read(p, encode_utf8(whole));
}

/// Every character of the text of a position is an ASCII character.
proof fn lemma_text_chars(p: Position, i: int)
    requires
        p.wf(),
        plain_board(p.board),
        0 <= i < fen_text(p).len(),
    ensures
        fen_text(p)[i] <= '\u{7f}',
{
    let sp = seq![' '];
    let a = pieces_text(p.board);
    let b = turn_text(p.turn);
    let c = castling_text(p.castling);
    let d = target_text(p.en_passant);
    let e = decimal(p.half_move as nat);
    let f = decimal(p.full_move as nat);
    lemma_fields_solid(p);
    let t1 = a + sp + b;
    let t2 = t1 + sp + c;
    let t3 = t2 + sp + d;
    let t4 = t3 + sp + e;
    assert(fen_text(p) == t4 + sp + f);
    if i < t1.len() {
        if i < a.len() {
            assert(fen_text(p)[i] == a[i]);
        } else if i == a.len() {
            assert(fen_text(p)[i] == ' ');
        } else {
            assert(fen_text(p)[i] == b[i - a.len() - 1]);
        }
    } else if i < t2.len() {
        if i == t1.len() {
            assert(fen_text(p)[i] == ' ');
        } else {
            assert(fen_text(p)[i] == c[i - t1.len() - 1]);
        }
    } else if i < t3.len() {
        if i == t2.len() {
            assert(fen_text(p)[i] == ' ');
        } else {
            assert(fen_text(p)[i] == d[i - t2.len() - 1]);
        }
    } else if i < t4.len() {
        if i == t3.len() {
            assert(fen_text(p)[i] == ' ');
        } else {
            assert(fen_text(p)[i] == e[i - t3.len() - 1]);
        }
    } else if i == t4.len() {
        assert(fen_text(p)[i] == ' ');
    } else {
        assert(fen_text(p)[i] == f[i - t4.len() - 1]);
    }
}

/// What is read of the field of the pieces is a board of plain bytes, and
/// the next square lies on a file of the board and not above the last rank.
proof fn lemma_placement_plain(bytes: Seq<u8>, start: int, n: nat)
    ensures
        plain_board(placement(bytes, start, n).board),
        0 <= placement(bytes, start, n).x < 8,
        placement(bytes, start, n).y <= 7,
    decreases n,
{
    if n > 0 {
        lemma_placement_plain(bytes, start, (n - 1) as nat);
        let s = placement(bytes, start, (n - 1) as nat);
        let b = bytes[start + n - 1];
        let t = place_step(s, b);
        let piece = Piece::of_letter(b as char);
        if piece.occupied() {
            assert(plain(piece));
        }
        assert forall|sq: int| 0 <= sq < 64 implies plain(#[trigger] t.board[sq]) by {
            assert(plain(s.board[sq]));
        }
    } else {
        assert forall|sq: int| 0 <= sq < 64 implies plain(#[trigger] place_start().board[sq]) by {}
    }
}

/// Digits write a number that is not negative.
proof fn lemma_digits_positive(bytes: Seq<u8>, start: int, n: nat)
    requires
        all_digits(bytes, start, start + n),
    ensures
        digits_value(bytes, start, n) >= 0,
    decreases n,
{
    if n > 0 {
        lemma_digits_positive(bytes, start, (n - 1) as nat);
        assert(48 <= bytes[start + n - 1] <= 57);
    }
}

/// A position that is read from a text is well formed, with a board of
/// plain bytes.
pub proof fn lemma_read_well_formed(bytes: Seq<u8>)
    requires
        fen_position(bytes) is Some,
    ensures
        fen_position(bytes).unwrap().wf(),
        plain_board(fen_position(bytes).unwrap().board),
{
    let p = fen_position(bytes).unwrap();
    lemma_placement_plain(bytes, 0, field_end(bytes, 0) as nat);
    if has_field(bytes, 4) {
        let start = field_start(bytes, 4);
        let end = field_end(bytes, 4);
        lemma_digits_positive(bytes, start, (end - start) as nat);
    }
    if has_field(bytes, 5) {
        let start = field_start(bytes, 5);
        let end = field_end(bytes, 5);
        lemma_digits_positive(bytes, start, (end - start) as nat);
    }
    assert forall|sq: int| 0 <= sq < 64 implies canonical(#[trigger] p.board[sq]) by {
        assert(plain(p.board[sq]));
    }
}

/// Reading a text, writing the position and reading what was written
/// gives the same position.
pub proof fn lemma_read_write_read(bytes: Seq<u8>)
    requires
        fen_position(bytes) is Some,
    ensures
        fen_position(encode_utf8(fen_text(fen_position(bytes).unwrap()))) == fen_position(bytes),
        parsed_fen(encode_utf8(fen_text(fen_position(bytes).unwrap()))) == parsed_fen(bytes),
{
    lemma_read_well_formed(bytes);
    lemma_fen_round_trip(fen_position(bytes).unwrap());
}

} // verus!
