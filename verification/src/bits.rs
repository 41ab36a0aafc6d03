//! Bitboards as sets of squares.
//!
//! A `u64` is read as the set of the indices `0..64` whose bit is set. The
//! lemmas of this module turn the machine operations on bitboards into
//! statements about membership, so that the rest of the crate can reason
//! about squares instead of about bit patterns.

use vstd::prelude::*;

verus! {

/// Bit `j` of `x`, for a machine index.
pub open spec fn bit64(x: u64, j: u64) -> bool {
    (x >> j) & 1 == 1
}

/// Square `i` belongs to the bitboard `x`. False outside `0..64`.
pub open spec fn bit(x: u64, i: int) -> bool {
    0 <= i < 64 && bit64(x, i as u64)
}

/// The bitboard that holds the single square `i`.
pub open spec fn single(i: int) -> u64 {
    1u64 << (i as u64)
}

proof fn lemma_bit64_logic(x: u64, y: u64, j: u64)
    by (bit_vector)
    requires
        j < 64,
    ensures
        bit64(x & y, j) == (bit64(x, j) && bit64(y, j)),
        bit64(x | y, j) == (bit64(x, j) || bit64(y, j)),
        bit64(x ^ y, j) == (bit64(x, j) != bit64(y, j)),
        bit64(!x, j) == !bit64(x, j),
        !bit64(0u64, j),
        bit64(0xffff_ffff_ffff_ffffu64, j),
{
}

proof fn lemma_bit64_single(i: u64, j: u64)
    by (bit_vector)
    requires
        i < 64,
        j < 64,
    ensures
        bit64(1u64 << i, j) == (i == j),
        (1u64 << i) != 0,
{
}

proof fn lemma_bit64_lowest(x: u64, t: u64)
    by (bit_vector)
    requires
        t < 64,
        (x >> t) & 1 == 1,
        t == 0 || x << ((64 - t) as u64) == 0,
    ensures
        x & ((x - 1) as u64) == x & !(1u64 << t),
        x ^ (1u64 << t) == x & !(1u64 << t),
        x != 0,
        x & !(1u64 << t) < x,
{
}

proof fn lemma_bit64_nonzero(x: u64, j: u64)
    by (bit_vector)
    requires
        j < 64,
        bit64(x, j),
    ensures
        x != 0,
{
}

/// Membership in an intersection.
pub broadcast proof fn lemma_bit_and(x: u64, y: u64, j: int)
    ensures
        #[trigger] bit(x & y, j) == (bit(x, j) && bit(y, j)),
{
    if 0 <= j < 64 {
        lemma_bit64_logic(x, y, j as u64);
    }
}

/// Membership in a union.
pub broadcast proof fn lemma_bit_or(x: u64, y: u64, j: int)
    ensures
        #[trigger] bit(x | y, j) == (bit(x, j) || bit(y, j)),
{
    if 0 <= j < 64 {
        lemma_bit64_logic(x, y, j as u64);
    }
}

/// Membership in a symmetric difference.
pub broadcast proof fn lemma_bit_xor(x: u64, y: u64, j: int)
    ensures
        #[trigger] bit(x ^ y, j) == (bit(x, j) != bit(y, j)),
{
    if 0 <= j < 64 {
        lemma_bit64_logic(x, y, j as u64);
    }
}

/// Membership in a complement.
pub broadcast proof fn lemma_bit_not(x: u64, j: int)
    ensures
        #[trigger] bit(!x, j) == (0 <= j < 64 && !bit(x, j)),
{
    if 0 <= j < 64 {
        lemma_bit64_logic(x, 0, j as u64);
    }
}

/// The empty bitboard has no member.
pub broadcast proof fn lemma_bit_zero(j: int)
    ensures
        !#[trigger] bit(0u64, j),
{
    if 0 <= j < 64 {
        lemma_bit64_logic(0, 0, j as u64);
    }
}

/// The full bitboard holds every square.
pub broadcast proof fn lemma_bit_full(j: int)
    ensures
        #[trigger] bit(0xffff_ffff_ffff_ffffu64, j) == (0 <= j < 64),
{
    if 0 <= j < 64 {
        lemma_bit64_logic(0, 0, j as u64);
    }
}

/// A single-square bitboard holds that square and no other.
pub broadcast proof fn lemma_bit_single(i: int, j: int)
    requires
        0 <= i < 64,
    ensures
        #[trigger] bit(single(i), j) == (i == j),
{
    if 0 <= j < 64 {
        lemma_bit64_single(i as u64, j as u64);
    }
}

pub broadcast group group_bits {
    lemma_bit_and,
    lemma_bit_or,
    lemma_bit_xor,
    lemma_bit_not,
    lemma_bit_zero,
    lemma_bit_full,
    lemma_bit_single,
}

/// No square belongs to the empty bitboard.
pub proof fn lemma_bit_zero_all()
    ensures
        forall|j: int| !bit(0u64, j),
{
    assert forall|j: int| !bit(0u64, j) by {
        lemma_bit_zero(j);
    }
}

/// A single-square bitboard is not empty.
pub proof fn lemma_single_nonzero(i: int)
    requires
        0 <= i < 64,
    ensures
        single(i) != 0,
{
    lemma_bit64_single(i as u64, i as u64);
}

/// A bitboard with a member is not empty.
pub proof fn lemma_member_nonzero(x: u64, j: int)
    requires
        bit(x, j),
    ensures
        x != 0,
{
    lemma_bit64_nonzero(x, j as u64);
}

/// Index of the lowest member of a non-empty bitboard; 64 for the empty one.
pub open spec fn lowest(x: u64) -> int {
    vstd::std_specs::bits::u64_trailing_zeros(x) as int
}

/// The lowest member is a member, and nothing below it is.
pub proof fn lemma_lowest(x: u64)
    requires
        x != 0,
    ensures
        0 <= lowest(x) < 64,
        bit(x, lowest(x)),
        forall|j: int| 0 <= j < lowest(x) ==> !bit(x, j),
{
    vstd::std_specs::bits::axiom_u64_trailing_zeros(x);
    assert forall|j: int| 0 <= j < lowest(x) implies !bit(x, j) by {
        let ju = j as u64;
        assert((x >> ju) & 1u64 == 0u64);
    }
}

/// A non-empty bitboard has a member.
pub proof fn lemma_nonzero_member(x: u64) -> (j: int)
    requires
        x != 0,
    ensures
        bit(x, j),
{
    lemma_lowest(x);
    lowest(x)
}

/// Two bitboards with the same members are equal.
pub proof fn lemma_bits_equal(x: u64, y: u64)
    requires
        forall|j: int| 0 <= j < 64 ==> bit(x, j) == bit(y, j),
    ensures
        x == y,
{
    let d = x ^ y;
    if d != 0 {
        let j = lemma_nonzero_member(d);
        lemma_bit_xor(x, y, j);
        assert(false);
    }
    assert(x == y) by (bit_vector)
        requires
            x ^ y == 0,
    ;
}

/// Clearing the lowest member, in the three ways the code does it.
pub proof fn lemma_drop_lowest(x: u64)
    requires
        x != 0,
    ensures
        x & ((x - 1) as u64) == x & !single(lowest(x)),
        x ^ single(lowest(x)) == x & !single(lowest(x)),
        x & !single(lowest(x)) < x,
        forall|j: int| bit(x & !single(lowest(x)), j) == (bit(x, j) && j != lowest(x)),
{
    vstd::std_specs::bits::axiom_u64_trailing_zeros(x);
    let t = vstd::std_specs::bits::u64_trailing_zeros(x) as u64;
    lemma_bit64_lowest(x, t);
    assert forall|j: int| bit(x & !single(lowest(x)), j) == (bit(x, j) && j != lowest(x)) by {
        lemma_bit_and(x, !single(lowest(x)), j);
        lemma_bit_not(single(lowest(x)), j);
        lemma_bit_single(lowest(x), j);
    }
}

/// The bitboard of the squares below `n` that satisfy `pred`.
pub open spec fn collect(pred: spec_fn(int) -> bool, n: nat) -> u64
    decreases n,
{
    if n == 0 {
        0
    } else if pred(n - 1) {
        collect(pred, (n - 1) as nat) | single(n - 1)
    } else {
        collect(pred, (n - 1) as nat)
    }
}

/// The bitboard of the squares that satisfy `pred`.
pub open spec fn bitboard_of(pred: spec_fn(int) -> bool) -> u64 {
    collect(pred, 64)
}

proof fn lemma_collect(pred: spec_fn(int) -> bool, n: nat, j: int)
    requires
        n <= 64,
    ensures
        bit(collect(pred, n), j) == (0 <= j < n && pred(j)),
    decreases n,
{
    broadcast use group_bits;

    if n > 0 {
        lemma_collect(pred, (n - 1) as nat, j);
    }
}

/// A square belongs to `bitboard_of(pred)` exactly if it is on the board and satisfies `pred`.
pub broadcast proof fn lemma_bitboard_of(pred: spec_fn(int) -> bool, j: int)
    ensures
        #[trigger] bit(bitboard_of(pred), j) == (0 <= j < 64 && pred(j)),
{
    lemma_collect(pred, 64, j);
}

/// A bitboard is the bitboard of its own members.
pub proof fn lemma_bitboard_of_members(x: u64, pred: spec_fn(int) -> bool)
    requires
        forall|j: int| 0 <= j < 64 ==> bit(x, j) == pred(j),
    ensures
        x == bitboard_of(pred),
{
    assert forall|j: int| 0 <= j < 64 implies bit(x, j) == bit(bitboard_of(pred), j) by {
        lemma_bitboard_of(pred, j);
    }
    lemma_bits_equal(x, bitboard_of(pred));
}

/// Number of members of a bitboard.
pub open spec fn count(x: u64) -> nat
    decreases x,
{
    if x == 0 {
        0
    } else {
        ((x % 2) + count(x / 2)) as nat
    }
}

/// `u64::count_ones` returns the number of set bits, as std documents it.
pub assume_specification[ u64::count_ones ](x: u64) -> (r: u32)
    ensures
        r == count(x),
        r <= 64,
;

/// The bitboard that holds the single square `sq`.
pub fn square_bit(sq: i32) -> (b: u64)
    requires
        0 <= sq < 64,
    ensures
        b == single(sq as int),
        b != 0,
{
    proof {
        lemma_single_nonzero(sq as int);
    }
    1u64 << sq
}

/// Square `sq` belongs to the bitboard `x`.
pub fn has_square(x: u64, sq: i32) -> (r: bool)
    requires
        0 <= sq < 64,
    ensures
        r == bit(x, sq as int),
{
    proof {
        lemma_bit_and(x, single(sq as int), sq as int);
        lemma_bit_single(sq as int, sq as int);
        if x & single(sq as int) != 0 {
            let j = lemma_nonzero_member(x & single(sq as int));
            lemma_bit_and(x, single(sq as int), j);
            lemma_bit_single(sq as int, j);
        } else if bit(x, sq as int) {
            lemma_member_nonzero(x & single(sq as int), sq as int);
        }
    }
    x & (1u64 << sq) != 0
}

} // verus!
