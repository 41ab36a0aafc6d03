//! The lookup tables of the move generator, computed once and then only read.

use vstd::prelude::*;
use crate::bitboard::{king_attacks, knight_attacks, pawn_attacks, BitBoard};
use crate::magics::{
    build_table, lemma_relevance, magic_constants, magic_index, magic_sound, slider_relevance,
    table_filled, SLOTS,
};
use crate::piece::PieceColor;
use crate::sliders::{between, bishop_attacks, bishop_mask, rook_attacks, rook_mask};

verus! {

/// The attack sets of pawns, knights and kings by square, the squares
/// between any two squares, and the magic tables of rooks and bishops.
#[derive(Debug)]
pub struct AttackTables {
    pawn: Vec<u64>,
    knight: Vec<u64>,
    king: Vec<u64>,
    between: Vec<u64>,
    rook_masks: Vec<u64>,
    bishop_masks: Vec<u64>,
    rook_tables: Vec<Vec<u64>>,
    bishop_tables: Vec<Vec<u64>>,
    rook_ready: Vec<bool>,
    bishop_ready: Vec<bool>,
}

proof fn lemma_masked_subset(b: u64, mask: u64)
    by (bit_vector)
    ensures
        (b & mask) & !mask == 0,
{
}

/// What the tables hold: the attack sets of the pawns, white before
/// black, of the knights and of the kings by square; the squares between
/// two squares, by 64 times the first plus the second; and for rooks and
/// bishops by square the relevant blockers, the magic table, and whether
/// the table is ready for lookups.
pub struct TableContents {
    pub pawn: Seq<u64>,
    pub knight: Seq<u64>,
    pub king: Seq<u64>,
    pub between: Seq<u64>,
    pub rook_masks: Seq<u64>,
    pub bishop_masks: Seq<u64>,
    pub rook_tables: Seq<Seq<u64>>,
    pub bishop_tables: Seq<Seq<u64>>,
    pub rook_ready: Seq<bool>,
    pub bishop_ready: Seq<bool>,
}

/// The masks, tables and marks of one kind of slider are as they are
/// computed: the mask of a square holds its relevant blockers, its table
/// has all its slots, the table is marked as ready exactly if the
/// constants of the square are sound, and a table that is ready is filled.
pub open spec fn sliders_computed(
    rook: bool,
    masks: Seq<u64>,
    tables: Seq<Seq<u64>>,
    ready: Seq<bool>,
) -> bool {
    &&& masks.len() == 64
    &&& tables.len() == 64
    &&& ready.len() == 64
    &&& forall|s: int| 0 <= s < 64 ==> #[trigger] masks[s] == slider_relevance(rook, s)
    &&& forall|s: int| 0 <= s < 64 ==> (#[trigger] tables[s]).len() == SLOTS
    &&& forall|s: int| 0 <= s < 64 ==> #[trigger] ready[s] == magic_sound(rook, s)
    &&& forall|s: int| 0 <= s < 64 && ready[s] ==> table_filled(rook, s, #[trigger] tables[s])
}

/// The tables are as they are computed: every entry of the tables of the
/// pawns, knights and kings is the attack set of its square, every entry
/// of the table of the squares between two squares is that set, and the
/// tables of the sliders are as `sliders_computed` says.
pub open spec fn computed(c: TableContents) -> bool {
    &&& c.pawn.len() == 128
    &&& c.knight.len() == 64
    &&& c.king.len() == 64
    &&& c.between.len() == 4096
    &&& forall|s: int| 0 <= s < 64 ==> #[trigger] c.pawn[s] == pawn_attacks(PieceColor::White, s)
    &&& forall|s: int|
        0 <= s < 64 ==> #[trigger] c.pawn[64 + s] == pawn_attacks(PieceColor::Black, s)
    &&& forall|s: int| 0 <= s < 64 ==> #[trigger] c.knight[s] == knight_attacks(s)
    &&& forall|s: int| 0 <= s < 64 ==> #[trigger] c.king[s] == king_attacks(s)
    &&& forall|a: int, b: int|
        0 <= a < 64 && 0 <= b < 64 ==> #[trigger] c.between[a * 64 + b] == between(a, b)
    &&& sliders_computed(true, c.rook_masks, c.rook_tables, c.rook_ready)
    &&& sliders_computed(false, c.bishop_masks, c.bishop_tables, c.bishop_ready)
}

/// The constants of a square are sound, for the rook and for the bishop.
pub open spec fn sound_at(s: int) -> bool {
    magic_sound(true, s) && magic_sound(false, s)
}

/// The constants of every square are sound.
pub open spec fn all_sound() -> bool {
    forall|s: int| 0 <= s < 64 ==> sound_at(s)
}

impl View for AttackTables {
    type V = TableContents;

    closed spec fn view(&self) -> TableContents {
        TableContents {
            pawn: self.pawn@,
            knight: self.knight@,
            king: self.king@,
            between: self.between@,
            rook_masks: self.rook_masks@,
            bishop_masks: self.bishop_masks@,
            rook_tables: self.rook_tables@.map_values(|t: Vec<u64>| t@),
            bishop_tables: self.bishop_tables@.map_values(|t: Vec<u64>| t@),
            rook_ready: self.rook_ready@,
            bishop_ready: self.bishop_ready@,
        }
    }
}

impl AttackTables {
    #[verifier::type_invariant]
    spec fn well_formed(self) -> bool {
        computed(self@)
    }

    /// Computes all tables. The magic table of a square is marked as ready
    /// only if every slot of it passed the check against the ray walk.
    pub fn new() -> (t: AttackTables)
        ensures
            computed(t@),
    {
        let mut pawn: Vec<u64> = Vec::new();
        let mut knight: Vec<u64> = Vec::new();
        let mut king: Vec<u64> = Vec::new();
        let mut rook_masks: Vec<u64> = Vec::new();
        let mut bishop_masks: Vec<u64> = Vec::new();
        let mut rook_tables: Vec<Vec<u64>> = Vec::new();
        let mut bishop_tables: Vec<Vec<u64>> = Vec::new();
        let mut rook_ready: Vec<bool> = Vec::new();
        let mut bishop_ready: Vec<bool> = Vec::new();
        let mut square: i32 = 0;
        while square < 64
            invariant
                0 <= square <= 64,
                pawn@.len() == square,
                knight@.len() == square,
                king@.len() == square,
                rook_masks@.len() == square,
                bishop_masks@.len() == square,
                rook_tables@.len() == square,
                bishop_tables@.len() == square,
                rook_ready@.len() == square,
                bishop_ready@.len() == square,
                forall|s: int|
                    0 <= s < square ==> #[trigger] pawn@[s] == pawn_attacks(PieceColor::White, s),
                forall|s: int| 0 <= s < square ==> #[trigger] knight@[s] == knight_attacks(s),
                forall|s: int| 0 <= s < square ==> #[trigger] king@[s] == king_attacks(s),
                forall|s: int|
                    0 <= s < square ==> #[trigger] rook_masks@[s] == slider_relevance(true, s),
                forall|s: int| 0 <= s < square ==> (#[trigger] rook_tables@[s])@.len() == SLOTS,
                forall|s: int|
                    0 <= s < square ==> #[trigger] rook_ready@[s] == magic_sound(true, s),
                forall|s: int|
                    0 <= s < square && rook_ready@[s] ==> table_filled(
                        true,
                        s,
                        (#[trigger] rook_tables@[s])@,
                    ),
                forall|s: int|
                    0 <= s < square ==> #[trigger] bishop_masks@[s] == slider_relevance(false, s),
                forall|s: int| 0 <= s < square ==> (#[trigger] bishop_tables@[s])@.len() == SLOTS,
                forall|s: int|
                    0 <= s < square ==> #[trigger] bishop_ready@[s] == magic_sound(false, s),
                forall|s: int|
                    0 <= s < square && bishop_ready@[s] ==> table_filled(
                        false,
                        s,
                        (#[trigger] bishop_tables@[s])@,
                    ),
            decreases 64 - square,
        {
            pawn.push(BitBoard::get_pawn_attack(PieceColor::White, square));
            knight.push(BitBoard::get_knight_attack(square));
            king.push(BitBoard::get_king_attack(square));
            rook_masks.push(rook_mask(square));
            bishop_masks.push(bishop_mask(square));
            let (rook_table, rook_ok) = build_table(true, square);
            rook_tables.push(rook_table);
            rook_ready.push(rook_ok);
            let (bishop_table, bishop_ok) = build_table(false, square);
            bishop_tables.push(bishop_table);
            bishop_ready.push(bishop_ok);
            square += 1;
        }
        square = 0;
        while square < 64
            invariant
                0 <= square <= 64,
                pawn@.len() == 64 + square,
                forall|s: int|
                    0 <= s < 64 ==> #[trigger] pawn@[s] == pawn_attacks(PieceColor::White, s),
                forall|s: int|
                    0 <= s < square ==> #[trigger] pawn@[64 + s] == pawn_attacks(
                        PieceColor::Black,
                        s,
                    ),
            decreases 64 - square,
        {
            pawn.push(BitBoard::get_pawn_attack(PieceColor::Black, square));
            square += 1;
        }
        let mut between_table: Vec<u64> = Vec::new();
        let mut from: i32 = 0;
        while from < 64
            invariant
                0 <= from <= 64,
                between_table@.len() == from * 64,
                forall|a: int, b: int|
                    0 <= a < from && 0 <= b < 64 ==> #[trigger] between_table@[a * 64 + b]
                        == between(a, b),
            decreases 64 - from,
        {
            let mut to: i32 = 0;
            while to < 64
                invariant
                    0 <= from < 64,
                    0 <= to <= 64,
                    between_table@.len() == from * 64 + to,
                    forall|a: int, b: int|
                        0 <= a < from && 0 <= b < 64 ==> #[trigger] between_table@[a * 64 + b]
                            == between(a, b),
                    forall|b: int|
                        0 <= b < to ==> #[trigger] between_table@[from * 64 + b] == between(
                            from as int,
                            b,
                        ),
                decreases 64 - to,
            {
                between_table.push(BitBoard::get_between(from, to));
                to += 1;
            }
            from += 1;
        }
        let t = AttackTables {
            pawn,
            knight,
            king,
            between: between_table,
            rook_masks,
            bishop_masks,
            rook_tables,
            bishop_tables,
            rook_ready,
            bishop_ready,
        };
        proof {
            assert forall|s: int| 0 <= s < 64 implies #[trigger] t@.rook_tables[s]
                == t.rook_tables@[s]@ && t@.bishop_tables[s] == t.bishop_tables@[s]@ by {}
        }
        t
    }

    /// The tables of a slider by square, as the view gives them.
    proof fn lemma_view(&self, s: int)
        requires
            0 <= s < 64,
        ensures
            self.rook_tables@.len() == 64 ==> self@.rook_tables[s] == self.rook_tables@[s]@,
            self.bishop_tables@.len() == 64 ==> self@.bishop_tables[s] == self.bishop_tables@[s]@,
            self@.rook_tables.len() == self.rook_tables@.len(),
            self@.bishop_tables.len() == self.bishop_tables@.len(),
    {
    }

    /// The squares that a pawn of the given colour on `square` attacks.
    pub fn pawn_attack(&self, side: PieceColor, square: i32) -> (r: u64)
        requires
            0 <= square < 64,
        ensures
            r == pawn_attacks(side, square as int),
    {
        proof {
            use_type_invariant(self);
        }
        match side {
            PieceColor::White => self.pawn[square as usize],
            PieceColor::Black => self.pawn[64 + square as usize],
        }
    }

    /// The squares that a knight on `square` attacks.
    pub fn knight_attack(&self, square: i32) -> (r: u64)
        requires
            0 <= square < 64,
        ensures
            r == knight_attacks(square as int),
    {
        proof {
            use_type_invariant(self);
        }
        self.knight[square as usize]
    }

    /// The squares that a king on `square` attacks.
    pub fn king_attack(&self, square: i32) -> (r: u64)
        requires
            0 <= square < 64,
        ensures
            r == king_attacks(square as int),
    {
        proof {
            use_type_invariant(self);
        }
        self.king[square as usize]
    }

    /// The squares strictly between two squares of one line; empty otherwise.
    pub fn squares_between(&self, from: i32, to: i32) -> (r: u64)
        requires
            0 <= from < 64,
            0 <= to < 64,
        ensures
            r == between(from as int, to as int),
    {
        proof {
            use_type_invariant(self);
        }
        self.between[(from * 64 + to) as usize]
    }

    /// The squares that a rook on `square` attacks, with `blockers` the occupied squares.
    pub fn rook_attack(&self, square: i32, blockers: u64) -> (r: u64)
        requires
            0 <= square < 64,
        ensures
            r == rook_attacks(square as int, blockers),
    {
        proof {
            use_type_invariant(self);
            self.lemma_view(square as int);
        }
        let sq = square as usize;
        if self.rook_ready[sq] {
            let mask = self.rook_masks[sq];
            proof {
                lemma_relevance(true, square as int, blockers);
                lemma_masked_subset(blockers, mask);
            }
            let (magic, shift) = magic_constants(true, sq);
            let slot = magic_index(magic, blockers & mask, shift);
            self.rook_tables[sq][slot]
        } else {
            BitBoard::get_rook_attack_mask(square, blockers)
        }
    }

    /// The squares that a bishop on `square` attacks, with `blockers` the occupied squares.
    pub fn bishop_attack(&self, square: i32, blockers: u64) -> (r: u64)
        requires
            0 <= square < 64,
        ensures
            r == bishop_attacks(square as int, blockers),
    {
        proof {
            use_type_invariant(self);
            self.lemma_view(square as int);
        }
        let sq = square as usize;
        if self.bishop_ready[sq] {
            let mask = self.bishop_masks[sq];
            proof {
                lemma_relevance(false, square as int, blockers);
                lemma_masked_subset(blockers, mask);
            }
            let (magic, shift) = magic_constants(false, sq);
            let slot = magic_index(magic, blockers & mask, shift);
            self.bishop_tables[sq][slot]
        } else {
            BitBoard::get_bishop_attack_mask(square, blockers)
        }
    }

    /// Every magic table is ready, so that no lookup falls back on the ray
    /// walk: the constants of every square are sound.
    pub fn all_ready(&self) -> (r: bool)
        ensures
            r == all_sound(),
    {
        proof {
            use_type_invariant(self);
        }
        let mut square: usize = 0;
        while square < 64
            invariant
                computed(self@),
                self.rook_ready@.len() == 64,
                self.bishop_ready@.len() == 64,
                square <= 64,
                forall|s: int| 0 <= s < square ==> sound_at(s),
            decreases 64 - square,
        {
            proof {
                assert(self@.rook_ready[square as int] == magic_sound(true, square as int));
                assert(self@.bishop_ready[square as int] == magic_sound(false, square as int));
            }
            if !self.rook_ready[square] || !self.bishop_ready[square] {
                assert(!sound_at(square as int));
                return false;
            }
            proof {
                assert(sound_at(square as int));
            }
            square += 1;
        }
        true
    }
}

/// The squares that a bishop on `square` attacks, by the magic lookup.
pub fn get_bishop_magic(tables: &AttackTables, square: i32, blockers: u64) -> (r: u64)
    requires
        0 <= square < 64,
    ensures
        r == bishop_attacks(square as int, blockers),
{
    tables.bishop_attack(square, blockers)
}

/// The squares that a rook on `square` attacks, by the magic lookup.
pub fn get_rook_magic(tables: &AttackTables, square: i32, blockers: u64) -> (r: u64)
    requires
        0 <= square < 64,
    ensures
        r == rook_attacks(square as int, blockers),
{
    tables.rook_attack(square, blockers)
}

} // verus!
