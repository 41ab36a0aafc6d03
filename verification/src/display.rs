//! A bitboard as a diagram.

use vstd::prelude::*;
use crate::bitboard::BitBoard;
use crate::bits::{bit, has_square};
use crate::board_helper::string_of_chars;

verus! {

/// The line of file letters above and below the diagram.
pub open spec fn file_line() -> Seq<char> {
    seq![
        ' ',
        ' ',
        'a',
        ' ',
        'b',
        ' ',
        'c',
        ' ',
        'd',
        ' ',
        'e',
        ' ',
        'f',
        ' ',
        'g',
        ' ',
        'h',
        '\n',
    ]
}

/// The square that the diagram shows as number `i`: from a8 along the rank,
/// then down rank by rank.
pub open spec fn diagram_square(i: int) -> int {
    (7 - i / 8) * 8 + i % 8
}

/// The first `n` squares of the diagram: each rank starts with its number
/// and a blank, shows a 1 for a member and a 0 for any other square, each
/// followed by a bar, and ends with a line break.
pub open spec fn diagram_cells(bits: u64, n: nat) -> Seq<char>
    decreases n,
{
    if n == 0 {
        Seq::empty()
    } else {
        let i = n - 1;
        let before = diagram_cells(bits, i as nat);
        let started = if i % 8 == 0 {
            before + seq![((8 - i / 8) + 48) as char, ' ']
        } else {
            before
        };
        let shown = started + seq![
            if bit(bits, diagram_square(i)) {
                '1'
            } else {
                '0'
            },
            '|',
        ];
        if n % 8 == 0 {
            shown + seq!['\n']
        } else {
            shown
        }
    }
}

/// The diagram of a bitboard.
pub open spec fn diagram(bits: u64) -> Seq<char> {
    file_line() + diagram_cells(bits, 64) + file_line()
}

/// Appends the line of file letters.
fn push_file_line(out: &mut Vec<char>)
    ensures
        final(out)@ == old(out)@ + file_line(),
{
    out.push(' ');
    out.push(' ');
    out.push('a');
    out.push(' ');
    out.push('b');
    out.push(' ');
    out.push('c');
    out.push(' ');
    out.push('d');
    out.push(' ');
    out.push('e');
    out.push(' ');
    out.push('f');
    out.push(' ');
    out.push('g');
    out.push(' ');
    out.push('h');
    out.push('\n');
    assert(out@ =~= old(out)@ + file_line());
}

impl BitBoard {
    /// The bitboard as a diagram of eight ranks, the eighth on top.
    pub fn pretty(bits: u64) -> (s: String)
        ensures
            s@ == diagram(bits),
    {
        let mut out: Vec<char> = Vec::new();
        push_file_line(&mut out);
        let mut i: usize = 0;
        assert(out@ =~= file_line() + diagram_cells(bits, 0));
        while i < 64
            invariant
                i <= 64,
                out@ == file_line() + diagram_cells(bits, i as nat),
            decreases 64 - i,
        {
            if i % 8 == 0 {
                out.push(((8 - i / 8) as u8 + 48) as char);
                out.push(' ');
            }
            let square = ((7 - i / 8) * 8 + i % 8) as i32;
            out.push(
                if has_square(bits, square) {
                    '1'
                } else {
                    '0'
                },
            );
            out.push('|');
            if i % 8 == 7 {
                out.push('\n');
            }
            i += 1;
            assert(out@ =~= file_line() + diagram_cells(bits, i as nat));
        }
        push_file_line(&mut out);
        string_of_chars(&out)
    }
}

} // verus!
