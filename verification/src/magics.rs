//! Magic bitboards: the attack set of a slider by one multiplication and one
//! table lookup.
//!
//! For each square the blockers that matter are hashed into a slot of a
//! table by a fixed multiplier. The tables are filled from the ray walk, and
//! while a table is filled every slot is checked: two sets of blockers may
//! share a slot only if they give the same attack set. A table that passes
//! answers every lookup as the ray walk would; for one that does not, the
//! lookup falls back on the ray walk.

use vstd::prelude::*;
use crate::bitboard::BitBoard;
use crate::bits::{bit, group_bits, lemma_bitboard_of, lemma_bits_equal};
use crate::sliders::{
    bishop_attacks, bishop_mask, bishop_relevance, ray_clear, ray_inner, ray_on_board, ray_sees,
    ray_square, rook_attacks, rook_mask, rook_relevance,
};

verus! {

pub const ROOK_MAGICS: [u64; 64] = [
    0x80088250204000, 0x1040400010002000, 0x3080100008802000, 0x200060010082040,
    0x900100402080100, 0x6200100104880200, 0x480010018800200, 0x28001c025000080,
    0x2002100820044, 0x82401000402000, 0x29001100200842, 0x400a0010400a0022,
    0x2000408120020, 0xa000850020004, 0x13000e00030084, 0x143000214824300,
    0x244024800840008b, 0x110004020004000, 0x2a02020010842040, 0x284200100a0020,
    0x18004004004200, 0x1401010002080400, 0x500040008100201, 0x100120000844d04,
    0x480004040002000, 0x20004040003000, 0x1020200100104100, 0x14090100100220,
    0x808080100041100, 0x801004900040002, 0x800080400100102, 0x1080110200006084,
    0x400022800088, 0x106401004402000, 0x402001001900, 0x23214202001008,
    0xe21000801000410, 0x102001002000805, 0x14080208040010c1, 0x23000041002082,
    0x7001008000410021, 0x231004200820024, 0x102031021820041, 0x401001000210008,
    0x1000800050011, 0x40d1000804010002, 0x404080210040001, 0x210128408420007,
    0x80004002200340, 0x204500920200, 0x21154020010100, 0x635002108100100,
    0x400080100100500, 0xa34000200800480, 0x1420013048820400, 0x108c289144030200,
    0x2921002010800041, 0x20104000210089, 0x3088104500200009, 0x2000810044022,
    0x2802000810042002, 0x1003000400080201, 0x204400a210110804, 0x220090420804402,
];

pub const ROOK_SHIFTS: [u64; 64] = [
    12, 11, 11, 11, 11, 11, 11, 12,
    11, 10, 10, 10, 10, 10, 10, 11,
    11, 10, 10, 10, 10, 10, 10, 11,
    11, 10, 10, 10, 10, 10, 10, 11,
    11, 10, 10, 10, 10, 10, 10, 11,
    11, 10, 10, 10, 10, 10, 10, 11,
    11, 10, 10, 10, 10, 10, 10, 11,
    12, 11, 11, 11, 11, 11, 11, 12,
];

pub const BISHOP_MAGICS: [u64; 64] = [
    0x36c2100401140020, 0x89281104002020, 0x1424a0a43000406, 0x848204840400c10,
    0x84042002884010, 0x22021006050061, 0x102015002110008, 0x1806210042202041,
    0x5604210264080, 0x8443042320028, 0x20e221600520180, 0x280080a12200008,
    0x580240420880000, 0x20084108200000, 0x4060020101201000, 0x1000022401080880,
    0x120101044810804, 0x620040541141b00, 0x80210015142a8, 0x4000840400810,
    0x1004008822080800, 0x201000020884040, 0xc000041445001, 0x2010210210840408,
    0x4002200313041000, 0x848084120010140, 0x2201010010084200, 0x105040014440080,
    0x1005010004104002, 0x3208008000406004, 0x88012000410820, 0x5201050000404800,
    0x2090480500200400, 0x1822029001200100, 0x2024040204010200, 0x32b2600800090106,
    0x40104010110100, 0x30110040020040, 0x5004108402022103, 0x1218010a58002200,
    0x140d084904104002, 0x20a0a012005050a, 0x2002034004800, 0x14a002018042100,
    0x204210202002c20, 0x1021201800800042, 0x1489420400490400, 0x8c240260414202,
    0x400c0a1804040180, 0x10412401205800, 0x200084404041000, 0x4080080104090122,
    0x88000200a442000, 0x2c80042058024200, 0x3023084f040012, 0x203101401004802,
    0x80610c04844000, 0x4142088c2004, 0x242012200520819, 0x102040000e420228,
    0x203020025401, 0x4030021224, 0x2000043004011420, 0x2040040100420084,
];

pub const BISHOP_SHIFTS: [u64; 64] = [
    6, 5, 5, 5, 5, 5, 5, 6,
    5, 5, 5, 5, 5, 5, 5, 5,
    5, 5, 7, 7, 7, 7, 5, 5,
    5, 5, 7, 9, 9, 7, 5, 5,
    5, 5, 7, 9, 9, 7, 5, 5,
    5, 5, 7, 7, 7, 7, 5, 5,
    5, 5, 5, 5, 5, 5, 5, 5,
    6, 5, 5, 5, 5, 5, 5, 6,
];

/// Number of slots of the table of one square.
pub const SLOTS: usize = 4096;

/// The slot of a set of blockers: the top `shift` bits of its product with
/// the multiplier, the product taken modulo 2^64.
pub open spec fn magic_slot(magic: u64, blockers: u64, shift: u64) -> int {
    (magic.wrapping_mul(blockers) >> ((64 - shift) as u64)) as int
}

/// Every member of `b` is a member of `mask`.
pub open spec fn subset(b: u64, mask: u64) -> bool {
    b & !mask == 0
}

/// Counting up through the subsets of a mask: the step from one subset
/// leads to the next larger one, and to the empty set after the last.
proof fn lemma_next_subset(sub: u64, mask: u64, b: u64)
    by (bit_vector)
    ensures
        (sub.wrapping_sub(mask) & mask) & !mask == 0,
        sub & !mask == 0 && (sub.wrapping_sub(mask) & mask) != 0 ==> (sub.wrapping_sub(mask)
            & mask) > sub,
        sub & !mask == 0 && b & !mask == 0 && b > sub ==> sub < (sub.wrapping_sub(mask) & mask)
            <= b,
        (b & mask) & !mask == 0,
        0u64 & !mask == 0,
{
}

proof fn lemma_slot_bound(magic: u64, blockers: u64, shift: u64)
    by (bit_vector)
    requires
        1 <= shift <= 12,
    ensures
        (magic.wrapping_mul(blockers) >> ((64 - shift) as u64)) < 4096,
{
}

/// The slot of a set of blockers in the table of a square.
pub fn magic_index(magic: u64, blockers: u64, shift: u64) -> (r: usize)
    requires
        1 <= shift <= 12,
    ensures
        r == magic_slot(magic, blockers, shift),
        r < SLOTS,
{
    proof {
        lemma_slot_bound(magic, blockers, shift);
    }
    (magic.wrapping_mul(blockers) >> (64 - shift)) as usize
}

/// The attack set of a rook (`rook` true) or of a bishop.
pub open spec fn slider_attacks(rook: bool, s: int, occ: u64) -> u64 {
    if rook {
        rook_attacks(s, occ)
    } else {
        bishop_attacks(s, occ)
    }
}

/// The blockers that matter to a rook or to a bishop on `s`.
pub open spec fn slider_relevance(rook: bool, s: int) -> u64 {
    if rook {
        rook_relevance(s)
    } else {
        bishop_relevance(s)
    }
}

/// The multiplier of a square.
pub open spec fn magic_of(rook: bool, s: int) -> u64 {
    if rook {
        ROOK_MAGICS[s]
    } else {
        BISHOP_MAGICS[s]
    }
}

/// The number of index bits of a square.
pub open spec fn shift_of(rook: bool, s: int) -> u64 {
    if rook {
        ROOK_SHIFTS[s]
    } else {
        BISHOP_SHIFTS[s]
    }
}

/// The table of a square answers every lookup: whatever subset of the
/// relevant squares is occupied, the slot of that subset holds what the
/// slider attacks.
pub open spec fn table_complete(rook: bool, s: int, table: Seq<u64>) -> bool {
    &&& table.len() == SLOTS
    &&& 1 <= shift_of(rook, s) <= 12
    &&& forall|b: u64|
        subset(b, slider_relevance(rook, s)) ==> table[#[trigger] magic_slot(
            magic_of(rook, s),
            b,
            shift_of(rook, s),
        )] == slider_attacks(rook, s, b)
}

/// The squares beyond the relevant ones change nothing of what a slider sees
/// along a ray.
proof fn lemma_ray_relevance(s: int, dr: int, df: int, occ: u64, mask: u64, t: int)
    requires
        forall|u: int| ray_inner(s, dr, df, u) && 0 <= u < 64 ==> bit(mask, u),
    ensures
        ray_sees(s, dr, df, occ, t) == ray_sees(s, dr, df, occ & mask, t),
{
    broadcast use group_bits;

    if ray_sees(s, dr, df, occ, t) {
        let k = choose|k: int|
            1 <= k < 8 && #[trigger] ray_square(s, dr, df, k) == t && ray_on_board(s, dr, df, k)
                && ray_clear(s, dr, df, occ, k);
        assert(ray_clear(s, dr, df, occ & mask, k));
        assert(ray_square(s, dr, df, k) == t);
    }
    if ray_sees(s, dr, df, occ & mask, t) {
        let k = choose|k: int|
            1 <= k < 8 && #[trigger] ray_square(s, dr, df, k) == t && ray_on_board(s, dr, df, k)
                && ray_clear(s, dr, df, occ & mask, k);
        assert forall|i: int| 1 <= i < k implies !bit(occ, #[trigger] ray_square(s, dr, df, i)) by {
            let u = ray_square(s, dr, df, i);
            assert(ray_on_board(s, dr, df, i + 1));
            assert(ray_inner(s, dr, df, u));
            assert(!bit(occ & mask, u));
        }
        assert(ray_square(s, dr, df, k) == t);
    }
}

/// A slider attacks the same squares whether or not the squares beyond the
/// relevant ones are occupied.
pub proof fn lemma_relevance(rook: bool, s: int, occ: u64)
    ensures
        slider_attacks(rook, s, occ) == slider_attacks(rook, s, occ & slider_relevance(rook, s)),
{
    broadcast use lemma_bitboard_of;

    let mask = slider_relevance(rook, s);
    assert forall|t: int| 0 <= t < 64 implies bit(slider_attacks(rook, s, occ), t) == bit(
        slider_attacks(rook, s, occ & mask),
        t,
    ) by {
        if rook {
            lemma_ray_relevance(s, 1, 0, occ, mask, t);
            lemma_ray_relevance(s, -1, 0, occ, mask, t);
            lemma_ray_relevance(s, 0, 1, occ, mask, t);
            lemma_ray_relevance(s, 0, -1, occ, mask, t);
        } else {
            lemma_ray_relevance(s, 1, 1, occ, mask, t);
            lemma_ray_relevance(s, -1, 1, occ, mask, t);
            lemma_ray_relevance(s, 1, -1, occ, mask, t);
            lemma_ray_relevance(s, -1, -1, occ, mask, t);
        }
    }
    lemma_bits_equal(slider_attacks(rook, s, occ), slider_attacks(rook, s, occ & mask));
}

/// The multiplier and the number of index bits of a square.
pub(crate) fn magic_constants(rook: bool, square: usize) -> (r: (u64, u64))
    requires
        square < 64,
    ensures
        r.0 == magic_of(rook, square as int),
        r.1 == shift_of(rook, square as int),
{
    if rook {
        (ROOK_MAGICS[square], ROOK_SHIFTS[square])
    } else {
        (BISHOP_MAGICS[square], BISHOP_SHIFTS[square])
    }
}

/// What a rook or a bishop on `square` attacks, by the ray walk.
fn walk_attacks(rook: bool, square: i32, blockers: u64) -> (r: u64)
    requires
        0 <= square < 64,
    ensures
        r == slider_attacks(rook, square as int, blockers),
{
    if rook {
        BitBoard::get_rook_attack_mask(square, blockers)
    } else {
        BitBoard::get_bishop_attack_mask(square, blockers)
    }
}

/// The blockers that matter to a rook or a bishop on `square`.
fn relevance_mask(rook: bool, square: i32) -> (r: u64)
    requires
        0 <= square < 64,
    ensures
        r == slider_relevance(rook, square as int),
{
    if rook {
        rook_mask(square)
    } else {
        bishop_mask(square)
    }
}

/// A vector of `n` copies of a value.
fn filled_vec<T: Copy>(value: T, n: usize) -> (v: Vec<T>)
    ensures
        v@.len() == n,
        forall|i: int| 0 <= i < n ==> v@[i] == value,
{
    let mut v: Vec<T> = Vec::new();
    let mut i: usize = 0;
    while i < n
        invariant
            i <= n,
            v@.len() == i,
            forall|j: int| 0 <= j < i ==> v@[j] == value,
        decreases n - i,
    {
        v.push(value);
        i += 1;
    }
    v
}

/// The constants of a square are sound: the index has from 1 to 12 bits,
/// and two subsets of the relevant squares meet in one slot only if the
/// slider attacks the same squares with either.
pub open spec fn magic_sound(rook: bool, s: int) -> bool {
    &&& 1 <= shift_of(rook, s) <= 12
    &&& forall|a: u64, b: u64|
        #![trigger
            magic_slot(magic_of(rook, s), a, shift_of(rook, s)),
            magic_slot(magic_of(rook, s), b, shift_of(rook, s)),
        ]
        subset(a, slider_relevance(rook, s)) && subset(b, slider_relevance(rook, s)) && magic_slot(
            magic_of(rook, s),
            a,
            shift_of(rook, s),
        ) == magic_slot(magic_of(rook, s), b, shift_of(rook, s)) ==> slider_attacks(rook, s, a)
            == slider_attacks(rook, s, b)
}

/// A slot of the table of a square is the slot of a subset of the
/// relevant squares.
pub open spec fn slot_used(rook: bool, s: int, slot: int) -> bool {
    exists|b: u64|
        subset(b, slider_relevance(rook, s)) && #[trigger] magic_slot(
            magic_of(rook, s),
            b,
            shift_of(rook, s),
        ) == slot
}

/// The table of a square as it is filled with sound constants: it answers
/// every lookup, and a slot that no subset of the relevant squares
/// reaches holds the empty set.
pub open spec fn table_filled(rook: bool, s: int, table: Seq<u64>) -> bool {
    &&& table_complete(rook, s, table)
    &&& forall|slot: int|
        0 <= slot < SLOTS && !slot_used(rook, s, slot) ==> #[trigger] table[slot] == 0
}

/// A table that answers every lookup has sound constants.
pub proof fn lemma_complete_sound(rook: bool, s: int, table: Seq<u64>)
    requires
        table_complete(rook, s, table),
    ensures
        magic_sound(rook, s),
{
    let magic = magic_of(rook, s);
    let shift = shift_of(rook, s);
    assert forall|a: u64, b: u64|
        #![trigger magic_slot(magic, a, shift), magic_slot(magic, b, shift)]
        subset(a, slider_relevance(rook, s)) && subset(b, slider_relevance(rook, s)) && magic_slot(
            magic,
            a,
            shift,
        ) == magic_slot(magic, b, shift) implies slider_attacks(rook, s, a) == slider_attacks(
        rook,
        s,
        b,
    ) by {
        assert(table[magic_slot(magic, a, shift)] == slider_attacks(rook, s, a));
        assert(table[magic_slot(magic, b, shift)] == slider_attacks(rook, s, b));
    }
}

/// Fills the table of one square from the ray walk, one subset of the
/// relevant squares after the other, and reports whether the constants of
/// the square are sound: whether no two subsets with different attack sets
/// met in one slot. With sound constants the table is filled; else it is
/// left as it was when the first such two subsets met.
pub fn build_table(rook: bool, square: i32) -> (r: (Vec<u64>, bool))
    requires
        0 <= square < 64,
    ensures
        r.0@.len() == SLOTS,
        r.1 == magic_sound(rook, square as int),
        r.1 ==> table_filled(rook, square as int, r.0@),
{
    let ghost s = square as int;
    let mut table: Vec<u64> = filled_vec(0u64, SLOTS);
    let (magic, shift) = magic_constants(rook, square as usize);
    if shift < 1 || shift > 12 {
        return (table, false);
    }
    let mask = relevance_mask(rook, square);
    let mut filled: Vec<bool> = filled_vec(false, SLOTS);
    let mut sub: u64 = 0;
    let ghost mut started = false;
    proof {
        lemma_next_subset(0, mask, 0);
    }
    loop
        invariant_except_break
            0 <= square < 64,
            s == square,
            magic == magic_of(rook, s),
            shift == shift_of(rook, s),
            1 <= shift <= 12,
            mask == slider_relevance(rook, s),
            table@.len() == SLOTS,
            filled@.len() == SLOTS,
            subset(sub, mask),
            !started ==> sub == 0,
            forall|i: int| 0 <= i < SLOTS && !started ==> !filled@[i],
            forall|i: int| 0 <= i < SLOTS && !#[trigger] filled@[i] ==> table@[i] == 0,
            forall|i: int|
                0 <= i < SLOTS && #[trigger] filled@[i] ==> exists|b: u64|
                    subset(b, mask) && b < sub && #[trigger] magic_slot(magic, b, shift) == i
                        && table@[i] == slider_attacks(rook, s, b),
            forall|b: u64|
                subset(b, mask) && b < sub ==> filled@[#[trigger] magic_slot(magic, b, shift)]
                    && table@[magic_slot(magic, b, shift)] == slider_attacks(rook, s, b),
        ensures
            table@.len() == SLOTS,
            table_filled(rook, s, table@),
        decreases 0xffff_ffff_ffff_ffffu64 - sub,
    {
        let slot = magic_index(magic, sub, shift);
        let attacks = walk_attacks(rook, square, sub);
        let ghost filled_before = filled@;
        let ghost table_before = table@;
        if filled[slot] {
            if table[slot] != attacks {
                proof {
                    let b = choose|b: u64|
                        subset(b, mask) && b < sub && #[trigger] magic_slot(magic, b, shift) == slot
                            && table@[slot as int] == slider_attacks(rook, s, b);
                    assert(magic_slot(magic, b, shift) == magic_slot(magic, sub, shift));
                    assert(slider_attacks(rook, s, b) != slider_attacks(rook, s, sub));
                }
                return (table, false);
            }
        } else {
            table.set(slot, attacks);
            filled.set(slot, true);
        }
        let next = sub.wrapping_sub(mask) & mask;
        proof {
            assert forall|b: u64| subset(b, mask) && b <= sub implies filled@[#[trigger] magic_slot(
                magic,
                b,
                shift,
            )] && table@[magic_slot(magic, b, shift)] == slider_attacks(rook, s, b) by {
                lemma_slot_bound(magic, b, shift);
            }
            assert forall|i: int| 0 <= i < SLOTS && #[trigger] filled@[i] implies exists|b: u64|
                subset(b, mask) && b <= sub && #[trigger] magic_slot(magic, b, shift) == i
                    && table@[i] == slider_attacks(rook, s, b) by {
                if i == slot {
                    assert(magic_slot(magic, sub, shift) == i);
                } else {
                    assert(filled_before[i]);
                    let b = choose|b: u64|
                        subset(b, mask) && b < sub && #[trigger] magic_slot(magic, b, shift) == i
                            && table_before[i] == slider_attacks(rook, s, b);
                    assert(magic_slot(magic, b, shift) == i);
                }
            }
            assert forall|b: u64| subset(b, mask) && b < next implies b <= sub by {
                lemma_next_subset(sub, mask, b);
            }
            lemma_next_subset(sub, mask, 0);
            started = true;
        }
        if next == 0 {
            proof {
                assert forall|b: u64| subset(b, mask) implies b <= sub by {
                    lemma_next_subset(sub, mask, b);
                }
                assert forall|i: int|
                    0 <= i < SLOTS && !slot_used(rook, s, i) implies #[trigger] table@[i] == 0 by {
                    if filled@[i] {
                        let b = choose|b: u64|
                            subset(b, mask) && b <= sub && #[trigger] magic_slot(magic, b, shift)
                                == i && table@[i] == slider_attacks(rook, s, b);
                        assert(magic_slot(magic_of(rook, s), b, shift_of(rook, s)) == i);
                    }
                }
            }
            break ;
        }
        sub = next;
    }
    proof {
        lemma_complete_sound(rook, s, table@);
    }
    (table, true)
}

} // verus!
