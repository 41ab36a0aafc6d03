//! Zobrist keys and the hash of a position.
//!
//! The keys are drawn from a seeded generator, so they are the same in
//! every run. The hash of a position is the exclusive or of one key for
//! each piece on its square, one for each castling right that is set, and
//! one more if black is to move.

use vstd::prelude::*;
use crate::piece::{Piece, PieceColor};

verus! {

/// Seed of the key generator.
pub const ZOBRIST_SEED: u64 = 212832809410876;

/// Index of the key of the side to move.
pub const ZOBRIST_TURN: usize = 768;

/// Index of the first of the four keys of the castling rights.
pub const ZOBRIST_CASTLING: usize = 769;

/// Number of keys.
pub const ZOBRIST_KEY_COUNT: usize = 781;

/// What the generator adds to its state at every step.
pub const GENERATOR_INCREMENT: u64 = 0x2d35_8dcc_aa6c_78a5;

/// What the generator masks a copy of its state with.
pub const GENERATOR_MASK: u64 = 0x8bb8_4b93_962e_acc9;

/// The state of the generator after one step.
pub open spec fn generator_step(state: u64) -> u64 {
    state.wrapping_add(GENERATOR_INCREMENT)
}

/// The number that the generator yields in a state it has just stepped to:
/// the two halves of a 128-bit product, folded together.
pub open spec fn generator_output(state: u64) -> u64 {
    let product = (state as int) * ((state ^ GENERATOR_MASK) as int);
    ((product % 0x1_0000_0000_0000_0000) as u64) ^ ((product / 0x1_0000_0000_0000_0000) as u64)
}

/// The state of the generator after `n` steps from the seed.
pub open spec fn generator_state(n: nat) -> u64
    decreases n,
{
    if n == 0 {
        ZOBRIST_SEED
    } else {
        generator_step(generator_state((n - 1) as nat))
    }
}

/// The key with index `i`.
pub open spec fn zobrist_key(i: int) -> u64 {
    generator_output(generator_state((i + 1) as nat))
}

/// One draw from fastrand's generator: `Rng::with_seed(state)`, then
/// `Rng::u64(..)` for the value and `Rng::get_seed()` for the state it
/// leaves. The generator adds a constant to its state and returns the upper
/// half of the product of the new state with a masked copy of it, folded
/// onto the lower half.
#[verifier::external_body]
fn draw(state: u64) -> (r: (u64, u64))
    ensures
        r.1 == generator_step(state),
        r.0 == generator_output(r.1),
{
    let mut rng = fastrand::Rng::with_seed(state);
    let value = rng.u64(..);
    (value, rng.get_seed())
}

/// The keys, drawn once.
#[derive(Debug)]
pub struct ZobristKeys {
    keys: Vec<u64>,
}

/// The keys in the order of their indices: what the generator yields
/// from the seed on, one key at each step.
pub open spec fn drawn_keys() -> Seq<u64> {
    Seq::new(ZOBRIST_KEY_COUNT as nat, |i: int| zobrist_key(i))
}

impl View for ZobristKeys {
    type V = Seq<u64>;

    closed spec fn view(&self) -> Seq<u64> {
        self.keys@
    }
}

impl ZobristKeys {
    #[verifier::type_invariant]
    spec fn well_formed(self) -> bool {
        self@ == drawn_keys()
    }

    /// Draws the keys from the seed.
    pub fn new() -> (k: ZobristKeys)
        ensures
            k@ == drawn_keys(),
    {
        let mut keys: Vec<u64> = Vec::new();
        let mut state: u64 = ZOBRIST_SEED;
        let mut i: usize = 0;
        while i < ZOBRIST_KEY_COUNT
            invariant
                i <= ZOBRIST_KEY_COUNT,
                keys@.len() == i,
                state == generator_state(i as nat),
                forall|j: int| 0 <= j < i ==> #[trigger] keys@[j] == zobrist_key(j),
            decreases ZOBRIST_KEY_COUNT - i,
        {
            let (value, next) = draw(state);
            keys.push(value);
            state = next;
            i += 1;
        }
        assert(keys@ =~= drawn_keys());
        ZobristKeys { keys }
    }

    /// The key with index `i`.
    pub fn key(&self, i: usize) -> (r: u64)
        requires
            i < ZOBRIST_KEY_COUNT,
        ensures
            r == zobrist_key(i as int),
            r == self@[i as int],
    {
        proof {
            use_type_invariant(self);
        }
        self.keys[i]
    }

    /// Number of keys.
    pub fn len(&self) -> (r: usize)
        ensures
            r == ZOBRIST_KEY_COUNT,
    {
        proof {
            use_type_invariant(self);
        }
        self.keys.len()
    }
}

/// The key of a piece on a square.
pub open spec fn piece_key(p: Piece, sq: int) -> u64 {
    zobrist_key(sq * 12 + p.index())
}

/// What a square adds to the hash: the key of its piece, nothing if it is empty.
pub open spec fn square_hash(p: Piece, sq: int) -> u64 {
    if p.occupied() {
        piece_key(p, sq)
    } else {
        0
    }
}

/// The hash of the pieces on the first `n` squares.
pub open spec fn pieces_hash(board: Seq<Piece>, n: nat) -> u64
    decreases n,
{
    if n == 0 {
        0
    } else {
        pieces_hash(board, (n - 1) as nat) ^ square_hash(board[n - 1], n - 1)
    }
}

/// The hash of the first `n` castling rights.
pub open spec fn castling_hash(rights: Seq<bool>, n: nat) -> u64
    decreases n,
{
    if n == 0 {
        0
    } else if rights[n - 1] {
        castling_hash(rights, (n - 1) as nat) ^ zobrist_key(ZOBRIST_CASTLING + n - 1)
    } else {
        castling_hash(rights, (n - 1) as nat)
    }
}

/// What the side to move adds to the hash.
pub open spec fn turn_hash(turn: PieceColor) -> u64 {
    if turn == PieceColor::Black {
        zobrist_key(ZOBRIST_TURN as int)
    } else {
        0
    }
}

/// The hash of a position, from scratch.
pub open spec fn position_hash(board: Seq<Piece>, rights: Seq<bool>, turn: PieceColor) -> u64 {
    pieces_hash(board, 64) ^ castling_hash(rights, 4) ^ turn_hash(turn)
}

/// Exclusive or is commutative and associative, and every value is its own inverse.
pub proof fn lemma_xor(a: u64, b: u64, c: u64)
    by (bit_vector)
    ensures
        a ^ b == b ^ a,
        (a ^ b) ^ c == a ^ (b ^ c),
        a ^ a == 0,
        a ^ 0 == a,
        0 ^ a == a,
        (a ^ b) ^ b == a,
{
}

/// Replacing the piece of one square changes the hash of the pieces by the
/// keys of the old piece and of the new one.
pub proof fn lemma_pieces_hash_update(board: Seq<Piece>, sq: int, p: Piece, n: nat)
    requires
        0 <= sq < 64,
        n <= 64,
        board.len() == 64,
    ensures
        pieces_hash(board.update(sq, p), n) == if sq < n {
            pieces_hash(board, n) ^ square_hash(board[sq], sq) ^ square_hash(p, sq)
        } else {
            pieces_hash(board, n)
        },
    decreases n,
{
    if n > 0 {
        let m = (n - 1) as nat;
        lemma_pieces_hash_update(board, sq, p, m);
        let h = pieces_hash(board, m);
        let old_key = square_hash(board[sq], sq);
        let new_key = square_hash(p, sq);
        if sq == n - 1 {
            lemma_xor(h, old_key, new_key);
            lemma_xor(h ^ old_key, old_key, new_key);
        } else if sq < n - 1 {
            let k = square_hash(board[n - 1], n - 1);
            lemma_xor(h ^ old_key, new_key, k);
            lemma_xor(h, old_key, k);
            lemma_xor(h ^ k, old_key, new_key);
            assert((h ^ old_key ^ new_key) ^ k == (h ^ k) ^ old_key ^ new_key) by (bit_vector);
        }
    }
}

/// Setting or clearing one castling right changes the hash of the rights by its key.
pub proof fn lemma_castling_hash_update(rights: Seq<bool>, i: int, value: bool, n: nat)
    requires
        0 <= i < 4,
        n <= 4,
        rights.len() == 4,
    ensures
        castling_hash(rights.update(i, value), n) == if i < n && rights[i] != value {
            castling_hash(rights, n) ^ zobrist_key(ZOBRIST_CASTLING + i)
        } else {
            castling_hash(rights, n)
        },
    decreases n,
{
    if n > 0 {
        let m = (n - 1) as nat;
        lemma_castling_hash_update(rights, i, value, m);
        let h = castling_hash(rights, m);
        let key_i = zobrist_key(ZOBRIST_CASTLING + i);
        let key_n = zobrist_key(ZOBRIST_CASTLING + n - 1);
        lemma_xor(h, key_i, key_n);
        lemma_xor(h ^ key_i, key_i, key_n);
        assert((h ^ key_i) ^ key_n == (h ^ key_n) ^ key_i) by (bit_vector);
    }
}

} // verus!
