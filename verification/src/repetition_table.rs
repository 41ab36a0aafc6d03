//! A small direct-mapped table that counts how often a position occurred.
//!
//! Every hash has one slot. A slot remembers one hash and its count, so a
//! new hash that falls into an occupied slot replaces what was there: the
//! table may forget a position, it never invents one.

use vstd::prelude::*;

verus! {

/// Number of slots: 32 KB of entries of 16 bytes.
pub const ENTRY_COUNT: u64 = 2048;

/// One slot: a hash and the number of times it was counted.
#[derive(Debug, Clone, Copy, PartialEq, Eq, Structural)]
pub struct RepetitionEntry {
    pub zobrist_hash: u64,
    pub repetitions: u8,
}

/// The table of slots.
#[derive(Debug, Clone, Copy)]
pub struct RepetitionTable {
    pub entries: [RepetitionEntry; 2048],
}

/// The slot of a hash.
pub open spec fn slot_of(hash: u64) -> int {
    hash as int % 2048
}

/// The empty slot.
pub open spec fn empty_entry() -> RepetitionEntry {
    RepetitionEntry { zobrist_hash: 0, repetitions: 0 }
}

/// A count one higher, modulo 256.
pub open spec fn count_up(count: u8) -> u8 {
    if count == 255 {
        0
    } else {
        (count + 1) as u8
    }
}

/// A count one lower, modulo 256.
pub open spec fn count_down(count: u8) -> u8 {
    if count == 0 {
        255
    } else {
        (count - 1) as u8
    }
}

/// Counting a hash, whether or not its slot holds it.
pub open spec fn counted(table: Seq<RepetitionEntry>, hash: u64) -> Seq<RepetitionEntry> {
    let slot = slot_of(hash);
    if table[slot].zobrist_hash == hash {
        table.update(
            slot,
            RepetitionEntry { zobrist_hash: hash, repetitions: count_up(table[slot].repetitions) },
        )
    } else {
        table.update(slot, RepetitionEntry { zobrist_hash: hash, repetitions: 1 })
    }
}

/// Counting a hash if its slot holds it.
pub open spec fn counted_existing(table: Seq<RepetitionEntry>, hash: u64) -> Seq<RepetitionEntry> {
    let slot = slot_of(hash);
    if table[slot].zobrist_hash == hash {
        counted(table, hash)
    } else {
        table
    }
}

/// Taking back one count of a hash if its slot holds it.
pub open spec fn uncounted(table: Seq<RepetitionEntry>, hash: u64) -> Seq<RepetitionEntry> {
    let slot = slot_of(hash);
    if table[slot].zobrist_hash == hash {
        table.update(
            slot,
            RepetitionEntry {
                zobrist_hash: hash,
                repetitions: count_down(table[slot].repetitions),
            },
        )
    } else {
        table
    }
}

/// The table with every slot empty.
pub open spec fn cleared() -> Seq<RepetitionEntry> {
    Seq::new(2048, |i: int| empty_entry())
}

impl RepetitionEntry {
    /// The empty slot.
    pub fn new() -> (e: RepetitionEntry)
        ensures
            e == empty_entry(),
    {
        RepetitionEntry { zobrist_hash: 0, repetitions: 0 }
    }
}

impl View for RepetitionTable {
    type V = Seq<RepetitionEntry>;

    open spec fn view(&self) -> Seq<RepetitionEntry> {
        self.entries@
    }
}

impl RepetitionTable {
    /// The table with every slot empty.
    pub fn new() -> (t: RepetitionTable)
        ensures
            t@ == cleared(),
    {
        let t = RepetitionTable { entries: [RepetitionEntry { zobrist_hash: 0, repetitions: 0 };2048] };
        assert(t@ =~= cleared());
        t
    }

    /// Counts a hash if its slot holds it, and says whether it did.
    pub fn increment_existing_repetition(&mut self, hash: u64) -> (r: bool)
        ensures
            r == (old(self)@[slot_of(hash)].zobrist_hash == hash),
            final(self)@ == counted_existing(old(self)@, hash),
    {
        let key = (hash % ENTRY_COUNT) as usize;
        let entry = self.entries[key];
        if entry.zobrist_hash == hash {
            self.entries[key] = RepetitionEntry {
                zobrist_hash: hash,
                repetitions: entry.repetitions.wrapping_add(1),
            };
            assert(self@ =~= counted_existing(old(self)@, hash));
            return true;
        }
        false
    }

    /// Counts a hash: one more if its slot holds it, else the slot is taken
    /// over with a count of one. Always true.
    pub fn increment_repetition(&mut self, hash: u64) -> (r: bool)
        ensures
            r,
            final(self)@ == counted(old(self)@, hash),
    {
        let key = (hash % ENTRY_COUNT) as usize;
        let entry = self.entries[key];
        if entry.zobrist_hash == hash {
            self.entries[key] = RepetitionEntry {
                zobrist_hash: hash,
                repetitions: entry.repetitions.wrapping_add(1),
            };
            assert(self@ =~= counted(old(self)@, hash));
            return true;
        }
        self.entries[key] = RepetitionEntry { zobrist_hash: hash, repetitions: 1 };
        assert(self@ =~= counted(old(self)@, hash));
        true
    }

    /// Takes back one count of a hash if its slot holds it, and says whether it did.
    pub fn decrement_repetition(&mut self, hash: u64) -> (r: bool)
        ensures
            r == (old(self)@[slot_of(hash)].zobrist_hash == hash),
            final(self)@ == uncounted(old(self)@, hash),
    {
        let key = (hash % ENTRY_COUNT) as usize;
        let entry = self.entries[key];
        if entry.zobrist_hash == hash {
            self.entries[key] = RepetitionEntry {
                zobrist_hash: hash,
                repetitions: entry.repetitions.wrapping_sub(1),
            };
            assert(self@ =~= uncounted(old(self)@, hash));
            return true;
        }
        false
    }

    /// The count of a hash, if its slot holds it.
    pub fn get_repetitions(&self, hash: u64) -> (r: Option<u8>)
        ensures
            r == if self@[slot_of(hash)].zobrist_hash == hash {
                Some(self@[slot_of(hash)].repetitions)
            } else {
                None
            },
    {
        let key = (hash % ENTRY_COUNT) as usize;
        if self.entries[key].zobrist_hash == hash {
            return Some(self.entries[key].repetitions);
        }
        None
    }

    /// Empties every slot.
    pub fn clear(&mut self)
        ensures
            final(self)@ == cleared(),
    {
        self.entries = [RepetitionEntry { zobrist_hash: 0, repetitions: 0 };2048];
        assert(self@ =~= cleared());
    }
}

} // verus!
