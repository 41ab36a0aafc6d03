//! Rays: the attack sets of rooks, bishops and queens, and the squares
//! between two squares of one line.

use vstd::prelude::*;
use crate::bitboard::BitBoard;
use crate::bits::{
    bit, bitboard_of, group_bits, has_square, lemma_bitboard_of, lemma_bitboard_of_members, single,
    square_bit,
};
use crate::board_helper::{file_of, on_board, rank_of, square_at};

verus! {

/// `(dr, df)` is one of the eight directions of the board.
pub open spec fn is_direction(dr: int, df: int) -> bool {
    -1 <= dr <= 1 && -1 <= df <= 1 && (dr != 0 || df != 0)
}

/// The square `k` steps from `s` in the direction `(dr, df)`; -1 if that
/// leaves the board.
pub open spec fn ray_square(s: int, dr: int, df: int, k: int) -> int {
    square_at(file_of(s) + k * df, rank_of(s) + k * dr)
}

/// The first `k` squares of the ray from `s` are on the board.
pub open spec fn ray_on_board(s: int, dr: int, df: int, k: int) -> bool {
    forall|i: int| 1 <= i <= k ==> on_board(#[trigger] ray_square(s, dr, df, i))
}

/// None of the squares before the `k`-th of the ray from `s` is in `occ`.
pub open spec fn ray_clear(s: int, dr: int, df: int, occ: u64, k: int) -> bool {
    forall|i: int| 1 <= i < k ==> !bit(occ, #[trigger] ray_square(s, dr, df, i))
}

/// A slider on `s` that moves in the direction `(dr, df)` attacks `t`, with
/// `occ` the occupied squares: `t` is on the ray, and the squares of the ray
/// before it are empty.
pub open spec fn ray_sees(s: int, dr: int, df: int, occ: u64, t: int) -> bool {
    exists|k: int|
        1 <= k < 8 && #[trigger] ray_square(s, dr, df, k) == t && ray_on_board(s, dr, df, k)
            && ray_clear(s, dr, df, occ, k)
}

/// `t` is on the ray from `s` and is not the last square of it on the board.
pub open spec fn ray_inner(s: int, dr: int, df: int, t: int) -> bool {
    exists|k: int|
        1 <= k < 8 && #[trigger] ray_square(s, dr, df, k) == t && ray_on_board(s, dr, df, k + 1)
}

/// The squares that a slider on `s` attacks in one direction.
pub open spec fn ray_attacks(s: int, dr: int, df: int, occ: u64) -> u64 {
    bitboard_of(|t: int| ray_sees(s, dr, df, occ, t))
}

/// The squares of one ray without the last one.
pub open spec fn ray_mask(s: int, dr: int, df: int) -> u64 {
    bitboard_of(|t: int| ray_inner(s, dr, df, t))
}

/// A rook on `s` attacks `t`.
pub open spec fn rook_sees(s: int, occ: u64, t: int) -> bool {
    ray_sees(s, 1, 0, occ, t) || ray_sees(s, -1, 0, occ, t) || ray_sees(s, 0, 1, occ, t)
        || ray_sees(s, 0, -1, occ, t)
}

/// A bishop on `s` attacks `t`.
pub open spec fn bishop_sees(s: int, occ: u64, t: int) -> bool {
    ray_sees(s, 1, 1, occ, t) || ray_sees(s, -1, 1, occ, t) || ray_sees(s, 1, -1, occ, t)
        || ray_sees(s, -1, -1, occ, t)
}

/// The squares that a rook on `s` attacks.
pub open spec fn rook_attacks(s: int, occ: u64) -> u64 {
    bitboard_of(|t: int| rook_sees(s, occ, t))
}

/// The squares that a bishop on `s` attacks.
pub open spec fn bishop_attacks(s: int, occ: u64) -> u64 {
    bitboard_of(|t: int| bishop_sees(s, occ, t))
}

/// The squares that a queen on `s` attacks.
pub open spec fn queen_attacks(s: int, occ: u64) -> u64 {
    bitboard_of(|t: int| rook_sees(s, occ, t) || bishop_sees(s, occ, t))
}

/// `t` is an inner square of one of the four rays of a rook on `s`.
pub open spec fn rook_inner(s: int, t: int) -> bool {
    ray_inner(s, 1, 0, t) || ray_inner(s, -1, 0, t) || ray_inner(s, 0, 1, t) || ray_inner(
        s,
        0,
        -1,
        t,
    )
}

/// `t` is an inner square of one of the four rays of a bishop on `s`.
pub open spec fn bishop_inner(s: int, t: int) -> bool {
    ray_inner(s, 1, 1, t) || ray_inner(s, -1, 1, t) || ray_inner(s, 1, -1, t) || ray_inner(
        s,
        -1,
        -1,
        t,
    )
}

/// The inner squares of the four rays of a rook: what can block it short of the edge.
pub open spec fn rook_relevance(s: int) -> u64 {
    bitboard_of(|t: int| rook_inner(s, t))
}

/// The inner squares of the four rays of a bishop.
pub open spec fn bishop_relevance(s: int) -> u64 {
    bitboard_of(|t: int| bishop_inner(s, t))
}

/// Products with a step of -1, 0 or 1.
pub proof fn lemma_step_product(k: int, d: int)
    by (nonlinear_arith)
    requires
        -1 <= d <= 1,
    ensures
        (k + 1) * d == k * d + d,
        d == 1 ==> k * d == k,
        d == -1 ==> k * d == -k,
        d == 0 ==> k * d == 0,
{
}

/// The ray walk up to step `k`: the squares before it are on the board, and
/// `attacks` holds exactly them.
spec fn walked(s: int, dr: int, df: int, k: int, attacks: u64) -> bool {
    &&& ray_on_board(s, dr, df, k - 1)
    &&& forall|t: int|
        bit(attacks, t) <==> exists|i: int| 1 <= i < k && #[trigger] ray_square(s, dr, df, i) == t
}

proof fn lemma_walk_step(s: int, dr: int, df: int, k: int, attacks: u64, t: int)
    requires
        1 <= k,
        walked(s, dr, df, k, attacks),
        t == ray_square(s, dr, df, k),
        on_board(t),
    ensures
        walked(s, dr, df, k + 1, attacks | single(t)),
{
    broadcast use group_bits;

    let after = attacks | single(t);
    assert forall|u: int| bit(after, u) implies exists|i: int|
        1 <= i < k + 1 && #[trigger] ray_square(s, dr, df, i) == u by {
        if bit(attacks, u) {
            let i = choose|i: int| 1 <= i < k && #[trigger] ray_square(s, dr, df, i) == u;
            assert(ray_square(s, dr, df, i) == u);
        } else {
            assert(ray_square(s, dr, df, k) == u);
        }
    }
    assert forall|u: int|
        (exists|i: int|
            1 <= i < k + 1 && #[trigger] ray_square(s, dr, df, i) == u) implies bit(after, u) by {
        let i = choose|i: int| 1 <= i < k + 1 && #[trigger] ray_square(s, dr, df, i) == u;
        if i < k {
            assert(bit(attacks, u));
        } else {
            assert(bit(single(t), u));
        }
    }
}

/// A walk that ends because the next square is outside or because the last
/// one taken is a blocker has collected what the slider attacks.
proof fn lemma_walk_done(s: int, dr: int, df: int, occ: u64, k: int, attacks: u64)
    requires
        1 <= k <= 8,
        walked(s, dr, df, k, attacks),
        ray_clear(s, dr, df, occ, k - 1),
        !on_board(ray_square(s, dr, df, k)) || (k > 1 && bit(occ, ray_square(s, dr, df, k - 1))),
        k > 1 && !bit(occ, ray_square(s, dr, df, k - 1)) ==> !on_board(ray_square(s, dr, df, k)),
    ensures
        attacks == ray_attacks(s, dr, df, occ),
{
    let pred = |t: int| ray_sees(s, dr, df, occ, t);
    assert forall|u: int| 0 <= u < 64 implies bit(attacks, u) == pred(u) by {
        if bit(attacks, u) {
            let i = choose|i: int| 1 <= i < k && #[trigger] ray_square(s, dr, df, i) == u;
            assert(ray_on_board(s, dr, df, i));
            assert(ray_clear(s, dr, df, occ, i));
            assert(ray_sees(s, dr, df, occ, u));
        }
        if pred(u) {
            let j = choose|j: int|
                1 <= j < 8 && #[trigger] ray_square(s, dr, df, j) == u && ray_on_board(
                    s,
                    dr,
                    df,
                    j,
                ) && ray_clear(s, dr, df, occ, j);
            if j >= k {
                if k > 1 && bit(occ, ray_square(s, dr, df, k - 1)) {
                    assert(!bit(occ, ray_square(s, dr, df, k - 1)));
                } else {
                    assert(on_board(ray_square(s, dr, df, k)));
                }
            }
            assert(ray_square(s, dr, df, j) == u);
            assert(bit(attacks, u));
        }
    }
    lemma_bitboard_of_members(attacks, pred);
}

/// A walk that ends where the square after the next is outside has collected
/// the inner squares of the ray.
proof fn lemma_inner_done(s: int, dr: int, df: int, k: int, attacks: u64)
    requires
        1 <= k <= 8,
        walked(s, dr, df, k, attacks),
        k > 1 ==> on_board(ray_square(s, dr, df, k)),
        !on_board(ray_square(s, dr, df, k)) || !on_board(ray_square(s, dr, df, k + 1)),
    ensures
        attacks == ray_mask(s, dr, df),
{
    let pred = |t: int| ray_inner(s, dr, df, t);
    assert forall|u: int| 0 <= u < 64 implies bit(attacks, u) == pred(u) by {
        if bit(attacks, u) {
            let i = choose|i: int| 1 <= i < k && #[trigger] ray_square(s, dr, df, i) == u;
            assert(ray_on_board(s, dr, df, i + 1)) by {
                assert forall|m: int| 1 <= m <= i + 1 implies on_board(
                    #[trigger] ray_square(s, dr, df, m),
                ) by {
                    if m < k {
                    } else {
                        assert(m == k);
                    }
                }
            }
            assert(ray_inner(s, dr, df, u));
        }
        if pred(u) {
            let j = choose|j: int|
                1 <= j < 8 && #[trigger] ray_square(s, dr, df, j) == u && ray_on_board(
                    s,
                    dr,
                    df,
                    j + 1,
                );
            if j >= k {
                assert(on_board(ray_square(s, dr, df, k)));
                assert(on_board(ray_square(s, dr, df, k + 1)));
            }
            assert(ray_square(s, dr, df, j) == u);
            assert(bit(attacks, u));
        }
    }
    lemma_bitboard_of_members(attacks, pred);
}

impl BitBoard {
    /// The squares that a slider on `square` attacks in the direction `(dr, df)`.
    pub fn get_ray_attack(square: i32, dr: i32, df: i32, blockers: u64) -> (attacks: u64)
        requires
            0 <= square < 64,
            is_direction(dr as int, df as int),
        ensures
            attacks == ray_attacks(square as int, dr as int, df as int, blockers),
    {
        let ghost s = square as int;
        let mut attacks = 0u64;
        let mut r: i32 = square / 8 + dr;
        let mut f: i32 = square % 8 + df;
        let ghost mut k: int = 1;
        proof {
            lemma_step_product(0, dr as int);
            lemma_step_product(0, df as int);
            crate::bits::lemma_bit_zero_all();
        }
        loop
            invariant_except_break
                0 <= square < 64,
                s == square,
                is_direction(dr as int, df as int),
                1 <= k <= 8,
                r == rank_of(s) + k * dr,
                f == file_of(s) + k * df,
                walked(s, dr as int, df as int, k, attacks),
                ray_clear(s, dr as int, df as int, blockers, k),
            ensures
                attacks == ray_attacks(s, dr as int, df as int, blockers),
            decreases 8 - k,
        {
            proof {
                lemma_step_product(k, dr as int);
                lemma_step_product(k, df as int);
            }
            if !(0 <= r && r < 8 && 0 <= f && f < 8) {
                proof {
                    lemma_walk_done(s, dr as int, df as int, blockers, k, attacks);
                }
                break ;
            }
            let t: i32 = r * 8 + f;
            assert(t == ray_square(s, dr as int, df as int, k));
            proof {
                lemma_walk_step(s, dr as int, df as int, k, attacks, t as int);
            }
            attacks = attacks | square_bit(t);
            if has_square(blockers, t) {
                proof {
                    lemma_step_product(k + 1, dr as int);
                    lemma_step_product(k + 1, df as int);
                    lemma_walk_done(s, dr as int, df as int, blockers, k + 1, attacks);
                }
                break ;
            }
            r = r + dr;
            f = f + df;
            proof {
                k = k + 1;
            }
        }
        attacks
    }

    /// The squares of the ray from `square` in the direction `(dr, df)`,
    /// without the last one on the board.
    pub fn get_ray_mask(square: i32, dr: i32, df: i32) -> (mask: u64)
        requires
            0 <= square < 64,
            is_direction(dr as int, df as int),
        ensures
            mask == ray_mask(square as int, dr as int, df as int),
    {
        let ghost s = square as int;
        let mut mask = 0u64;
        let mut r: i32 = square / 8 + dr;
        let mut f: i32 = square % 8 + df;
        let ghost mut k: int = 1;
        proof {
            lemma_step_product(0, dr as int);
            lemma_step_product(0, df as int);
            crate::bits::lemma_bit_zero_all();
        }
        loop
            invariant_except_break
                0 <= square < 64,
                s == square,
                is_direction(dr as int, df as int),
                1 <= k <= 8,
                r == rank_of(s) + k * dr,
                f == file_of(s) + k * df,
                walked(s, dr as int, df as int, k, mask),
                k > 1 ==> on_board(ray_square(s, dr as int, df as int, k)),
            ensures
                mask == ray_mask(s, dr as int, df as int),
            decreases 8 - k,
        {
            proof {
                lemma_step_product(k, dr as int);
                lemma_step_product(k, df as int);
                lemma_step_product(k + 1, dr as int);
                lemma_step_product(k + 1, df as int);
            }
            let r2: i32 = r + dr;
            let f2: i32 = f + df;
            if !(0 <= r && r < 8 && 0 <= f && f < 8) || !(0 <= r2 && r2 < 8 && 0 <= f2 && f2 < 8) {
                proof {
                    lemma_inner_done(s, dr as int, df as int, k, mask);
                }
                break ;
            }
            let t: i32 = r * 8 + f;
            assert(t == ray_square(s, dr as int, df as int, k));
            proof {
                lemma_walk_step(s, dr as int, df as int, k, mask, t as int);
            }
            mask = mask | square_bit(t);
            r = r2;
            f = f2;
            proof {
                k = k + 1;
            }
        }
        mask
    }

    /// The squares that a rook on `square` attacks, with `blockers` the occupied squares.
    pub fn get_rook_attack_mask(square: i32, blockers: u64) -> (r: u64)
        requires
            0 <= square < 64,
        ensures
            r == rook_attacks(square as int, blockers),
    {
        broadcast use group_bits, lemma_bitboard_of;

        let up = Self::get_ray_attack(square, 1, 0, blockers);
        let down = Self::get_ray_attack(square, -1, 0, blockers);
        let right = Self::get_ray_attack(square, 0, 1, blockers);
        let left = Self::get_ray_attack(square, 0, -1, blockers);
        let r = up | down | right | left;
        proof {
            lemma_bitboard_of_members(r, |t: int| rook_sees(square as int, blockers, t));
        }
        r
    }

    /// The squares that a bishop on `square` attacks, with `blockers` the occupied squares.
    pub fn get_bishop_attack_mask(square: i32, blockers: u64) -> (r: u64)
        requires
            0 <= square < 64,
        ensures
            r == bishop_attacks(square as int, blockers),
    {
        broadcast use group_bits, lemma_bitboard_of;

        let a = Self::get_ray_attack(square, 1, 1, blockers);
        let b = Self::get_ray_attack(square, -1, 1, blockers);
        let c = Self::get_ray_attack(square, 1, -1, blockers);
        let d = Self::get_ray_attack(square, -1, -1, blockers);
        let r = a | b | c | d;
        proof {
            lemma_bitboard_of_members(r, |t: int| bishop_sees(square as int, blockers, t));
        }
        r
    }

    /// The squares that a queen on `square` attacks, with `blockers` the occupied squares.
    pub fn get_queen_attack_mask(square: i32, blockers: u64) -> (r: u64)
        requires
            0 <= square < 64,
        ensures
            r == queen_attacks(square as int, blockers),
    {
        broadcast use group_bits, lemma_bitboard_of;

        let bishop = Self::get_bishop_attack_mask(square, blockers);
        let rook = Self::get_rook_attack_mask(square, blockers);
        let r = bishop | rook;
        proof {
            lemma_bitboard_of_members(
                r,
                |t: int|
                    rook_sees(square as int, blockers, t) || bishop_sees(
                        square as int,
                        blockers,
                        t,
                    ),
            );
        }
        r
    }
}

/// `t` lies on the ray from `a` in the direction `(dr, df)`, before `b`.
pub open spec fn between_along(a: int, b: int, dr: int, df: int, t: int) -> bool {
    exists|k: int, j: int|
        1 <= j < k < 8 && #[trigger] ray_square(a, dr, df, k) == b && #[trigger] ray_square(
            a,
            dr,
            df,
            j,
        ) == t && on_board(b) && on_board(t)
}

/// `t` lies strictly between `a` and `b` on a rank, a file or a diagonal.
pub open spec fn strictly_between(a: int, b: int, t: int) -> bool {
    between_along(a, b, 1, 0, t) || between_along(a, b, -1, 0, t) || between_along(a, b, 0, 1, t)
        || between_along(a, b, 0, -1, t) || between_along(a, b, 1, 1, t) || between_along(
        a,
        b,
        1,
        -1,
        t,
    ) || between_along(a, b, -1, 1, t) || between_along(a, b, -1, -1, t)
}

/// The squares strictly between two squares that share a line; empty otherwise.
pub open spec fn between(a: int, b: int) -> u64 {
    bitboard_of(|t: int| strictly_between(a, b, t))
}

/// `b` is `n` steps from `a` in the direction `(dr, df)`.
spec fn steps_apart(a: int, b: int, dr: int, df: int, n: int) -> bool {
    &&& on_board(a) && on_board(b)
    &&& is_direction(dr, df)
    &&& 1 <= n < 8
    &&& rank_of(b) - rank_of(a) == n * dr
    &&& file_of(b) - file_of(a) == n * df
}

/// The rank and the file of a square of a ray, if it is on the board.
pub proof fn lemma_ray_coordinates(s: int, dr: int, df: int, k: int)
    requires
        on_board(ray_square(s, dr, df, k)),
    ensures
        rank_of(ray_square(s, dr, df, k)) == rank_of(s) + k * dr,
        file_of(ray_square(s, dr, df, k)) == file_of(s) + k * df,
{
    let f = file_of(s) + k * df;
    let r = rank_of(s) + k * dr;
    assert(0 <= f < 8 && 0 <= r < 8);
    assert((r * 8 + f) / 8 == r);
    assert((r * 8 + f) % 8 == f);
}

/// How far a square that a slider sees along a ray lies from the slider: a
/// positive number of steps in the direction of the ray.
proof fn lemma_ray_offset(s: int, dr: int, df: int, occ: u64, t: int) -> (k: int)
    requires
        ray_sees(s, dr, df, occ, t),
    ensures
        1 <= k < 8,
        on_board(t),
        rank_of(t) - rank_of(s) == k * dr,
        file_of(t) - file_of(s) == k * df,
{
    let k = choose|k: int|
        1 <= k < 8 && #[trigger] ray_square(s, dr, df, k) == t && ray_on_board(s, dr, df, k)
            && ray_clear(s, dr, df, occ, k);
    assert(on_board(ray_square(s, dr, df, k)));
    lemma_ray_coordinates(s, dr, df, k);
    k
}

/// What a rook attacks shares its rank or its file; what a bishop attacks
/// shares neither. So no square is attacked by both from the same square.
pub proof fn lemma_rook_bishop_disjoint(s: int, occ: u64, t: int)
    ensures
        bit(rook_attacks(s, occ), t) ==> rank_of(t) == rank_of(s) || file_of(t) == file_of(s),
        bit(bishop_attacks(s, occ), t) ==> rank_of(t) != rank_of(s) && file_of(t) != file_of(s),
        !(bit(rook_attacks(s, occ), t) && bit(bishop_attacks(s, occ), t)),
{
    lemma_bitboard_of(|t: int| rook_sees(s, occ, t), t);
    lemma_bitboard_of(|t: int| bishop_sees(s, occ, t), t);
    if bit(rook_attacks(s, occ), t) {
        if ray_sees(s, 1, 0, occ, t) {
            lemma_ray_offset(s, 1, 0, occ, t);
        } else if ray_sees(s, -1, 0, occ, t) {
            lemma_ray_offset(s, -1, 0, occ, t);
        } else if ray_sees(s, 0, 1, occ, t) {
            lemma_ray_offset(s, 0, 1, occ, t);
        } else {
            lemma_ray_offset(s, 0, -1, occ, t);
        }
    }
    if bit(bishop_attacks(s, occ), t) {
        if ray_sees(s, 1, 1, occ, t) {
            lemma_ray_offset(s, 1, 1, occ, t);
        } else if ray_sees(s, -1, 1, occ, t) {
            lemma_ray_offset(s, -1, 1, occ, t);
        } else if ray_sees(s, 1, -1, occ, t) {
            lemma_ray_offset(s, 1, -1, occ, t);
        } else {
            lemma_ray_offset(s, -1, -1, occ, t);
        }
    }
}

/// Two squares are `n` steps apart in at most one direction, for one `n`; so
/// what lies between them in any direction lies on that segment.
proof fn lemma_segment_unique(a: int, b: int, dr: int, df: int, n: int, dr2: int, df2: int, u: int)
    requires
        steps_apart(a, b, dr, df, n),
        is_direction(dr2, df2),
        between_along(a, b, dr2, df2, u),
    ensures
        dr2 == dr,
        df2 == df,
        exists|j: int| 1 <= j < n && #[trigger] ray_square(a, dr, df, j) == u,
{
    let (k, j) = choose|k: int, j: int|
        1 <= j < k < 8 && #[trigger] ray_square(a, dr2, df2, k) == b && #[trigger] ray_square(
            a,
            dr2,
            df2,
            j,
        ) == u && on_board(b) && on_board(u);
    lemma_ray_coordinates(a, dr2, df2, k);
    lemma_step_product(k, dr2);
    lemma_step_product(k, df2);
    lemma_step_product(n, dr);
    lemma_step_product(n, df);
    assert(k == n && dr2 == dr && df2 == df);
    assert(ray_square(a, dr, df, j) == u);
}

/// Nothing lies between two squares that share no line, or between a square and itself.
proof fn lemma_no_segment(a: int, b: int, dr2: int, df2: int, u: int)
    requires
        on_board(a),
        on_board(b),
        is_direction(dr2, df2),
        between_along(a, b, dr2, df2, u),
    ensures
        a != b,
        rank_of(a) == rank_of(b) || file_of(a) == file_of(b) || rank_of(b) - rank_of(a) == file_of(
            b,
        ) - file_of(a) || rank_of(b) - rank_of(a) == file_of(a) - file_of(b),
{
    let (k, j) = choose|k: int, j: int|
        1 <= j < k < 8 && #[trigger] ray_square(a, dr2, df2, k) == b && #[trigger] ray_square(
            a,
            dr2,
            df2,
            j,
        ) == u && on_board(b) && on_board(u);
    lemma_ray_coordinates(a, dr2, df2, k);
    lemma_step_product(k, dr2);
    lemma_step_product(k, df2);
}

impl BitBoard {
    /// The squares strictly between two squares of one rank, file or
    /// diagonal; the empty bitboard for any other pair.
    pub fn get_between(from: i32, to: i32) -> (mask: u64)
        requires
            0 <= from < 64,
            0 <= to < 64,
        ensures
            mask == between(from as int, to as int),
    {
        let ghost a = from as int;
        let ghost b = to as int;
        let ghost pred = |t: int| strictly_between(a, b, t);
        let rf: i32 = from / 8;
        let ff: i32 = from % 8;
        let rt: i32 = to / 8;
        let ft: i32 = to % 8;
        let delta_r: i32 = rt - rf;
        let delta_f: i32 = ft - ff;
        let aligned = delta_r == 0 || delta_f == 0 || delta_r == delta_f || delta_r == -delta_f;
        if from == to || !aligned {
            proof {
                crate::bits::lemma_bit_zero_all();
                assert forall|u: int| 0 <= u < 64 implies bit(0u64, u) == pred(u) by {
                    if between_along(a, b, 1, 0, u) {
                        lemma_no_segment(a, b, 1, 0, u);
                    }
                    if between_along(a, b, -1, 0, u) {
                        lemma_no_segment(a, b, -1, 0, u);
                    }
                    if between_along(a, b, 0, 1, u) {
                        lemma_no_segment(a, b, 0, 1, u);
                    }
                    if between_along(a, b, 0, -1, u) {
                        lemma_no_segment(a, b, 0, -1, u);
                    }
                    if between_along(a, b, 1, 1, u) {
                        lemma_no_segment(a, b, 1, 1, u);
                    }
                    if between_along(a, b, 1, -1, u) {
                        lemma_no_segment(a, b, 1, -1, u);
                    }
                    if between_along(a, b, -1, 1, u) {
                        lemma_no_segment(a, b, -1, 1, u);
                    }
                    if between_along(a, b, -1, -1, u) {
                        lemma_no_segment(a, b, -1, -1, u);
                    }
                }
                lemma_bitboard_of_members(0u64, pred);
            }
            return 0;
        }
        let dr: i32 = if delta_r > 0 { 1 } else if delta_r < 0 { -1 } else { 0 };
        let df: i32 = if delta_f > 0 { 1 } else if delta_f < 0 { -1 } else { 0 };
        let n: i32 = if delta_r > 0 {
            delta_r
        } else if delta_r < 0 {
            -delta_r
        } else if delta_f > 0 {
            delta_f
        } else {
            -delta_f
        };
        proof {
            lemma_step_product(n as int, dr as int);
            lemma_step_product(n as int, df as int);
            lemma_step_product(0, dr as int);
            lemma_step_product(0, df as int);
            crate::bits::lemma_bit_zero_all();
            assert(steps_apart(a, b, dr as int, df as int, n as int));
        }
        let mut mask = 0u64;
        let mut k: i32 = 1;
        while k < n
            invariant
                0 <= from < 64,
                a == from,
                rf == rank_of(a),
                ff == file_of(a),
                steps_apart(a, b, dr as int, df as int, n as int),
                1 <= k <= n,
                walked(a, dr as int, df as int, k as int, mask),
            decreases n - k,
        {
            proof {
                lemma_step_product(k as int, dr as int);
                lemma_step_product(k as int, df as int);
                lemma_step_product(n as int, dr as int);
                lemma_step_product(n as int, df as int);
            }
            let t: i32 = (rf + k * dr) * 8 + (ff + k * df);
            assert(t == ray_square(a, dr as int, df as int, k as int));
            proof {
                lemma_walk_step(a, dr as int, df as int, k as int, mask, t as int);
            }
            mask = mask | square_bit(t);
            k = k + 1;
        }
        proof {
            assert(ray_square(a, dr as int, df as int, n as int) == b);
            assert forall|u: int| 0 <= u < 64 implies bit(mask, u) == pred(u) by {
                if bit(mask, u) {
                    let j = choose|j: int|
                        1 <= j < n && #[trigger] ray_square(a, dr as int, df as int, j) == u;
                    assert(ray_square(a, dr as int, df as int, j) == u);
                    assert(between_along(a, b, dr as int, df as int, u));
                }
                if pred(u) {
                    if between_along(a, b, 1, 0, u) {
                        lemma_segment_unique(a, b, dr as int, df as int, n as int, 1, 0, u);
                    }
                    if between_along(a, b, -1, 0, u) {
                        lemma_segment_unique(a, b, dr as int, df as int, n as int, -1, 0, u);
                    }
                    if between_along(a, b, 0, 1, u) {
                        lemma_segment_unique(a, b, dr as int, df as int, n as int, 0, 1, u);
                    }
                    if between_along(a, b, 0, -1, u) {
                        lemma_segment_unique(a, b, dr as int, df as int, n as int, 0, -1, u);
                    }
                    if between_along(a, b, 1, 1, u) {
                        lemma_segment_unique(a, b, dr as int, df as int, n as int, 1, 1, u);
                    }
                    if between_along(a, b, 1, -1, u) {
                        lemma_segment_unique(a, b, dr as int, df as int, n as int, 1, -1, u);
                    }
                    if between_along(a, b, -1, 1, u) {
                        lemma_segment_unique(a, b, dr as int, df as int, n as int, -1, 1, u);
                    }
                    if between_along(a, b, -1, -1, u) {
                        lemma_segment_unique(a, b, dr as int, df as int, n as int, -1, -1, u);
                    }
                    assert(bit(mask, u));
                }
            }
            lemma_bitboard_of_members(mask, pred);
        }
        mask
    }
}

/// The blockers that matter to a bishop on `square`: its rays without the edge.
pub fn bishop_mask(square: i32) -> (r: u64)
    requires
        0 <= square < 64,
    ensures
        r == bishop_relevance(square as int),
{
    broadcast use group_bits, lemma_bitboard_of;

    let a = BitBoard::get_ray_mask(square, 1, 1);
    let b = BitBoard::get_ray_mask(square, -1, 1);
    let c = BitBoard::get_ray_mask(square, 1, -1);
    let d = BitBoard::get_ray_mask(square, -1, -1);
    let r = a | b | c | d;
    proof {
        lemma_bitboard_of_members(r, |t: int| bishop_inner(square as int, t));
    }
    r
}

/// The blockers that matter to a rook on `square`: its rays without the edge.
pub fn rook_mask(square: i32) -> (r: u64)
    requires
        0 <= square < 64,
    ensures
        r == rook_relevance(square as int),
{
    broadcast use group_bits, lemma_bitboard_of;

    let a = BitBoard::get_ray_mask(square, 1, 0);
    let b = BitBoard::get_ray_mask(square, -1, 0);
    let c = BitBoard::get_ray_mask(square, 0, 1);
    let d = BitBoard::get_ray_mask(square, 0, -1);
    let r = a | b | c | d;
    proof {
        lemma_bitboard_of_members(r, |t: int| rook_inner(square as int, t));
    }
    r
}

/// What a slider sees along a ray sees the slider along the opposite ray,
/// whatever stands on the two squares themselves.
pub proof fn lemma_ray_back(a: int, dr: int, df: int, occ: u64, b: int, occ2: u64)
    requires
        0 <= a < 64,
        is_direction(dr, df),
        ray_sees(a, dr, df, occ, b),
        forall|u: int| 0 <= u < 64 && u != a && u != b ==> bit(occ2, u) == bit(occ, u),
    ensures
        ray_sees(b, -dr, -df, occ2, a),
        a != b,
{
    let k = choose|k: int|
        1 <= k < 8 && #[trigger] ray_square(a, dr, df, k) == b && ray_on_board(a, dr, df, k)
            && ray_clear(a, dr, df, occ, k);
    assert(on_board(ray_square(a, dr, df, k)));
    lemma_ray_coordinates(a, dr, df, k);
    lemma_step_product(k, dr);
    lemma_step_product(k, df);
    assert(a != b);
    assert forall|i: int| 1 <= i <= k implies #[trigger] ray_square(b, -dr, -df, i) == (if i == k {
        a
    } else {
        ray_square(a, dr, df, k - i)
    }) && on_board(ray_square(b, -dr, -df, i)) by {
        lemma_step_product(i, -dr);
        lemma_step_product(i, -df);
        lemma_step_product(k - i, dr);
        lemma_step_product(k - i, df);
        if i < k {
            assert(on_board(ray_square(a, dr, df, k - i)));
            lemma_ray_coordinates(a, dr, df, k - i);
        }
    }
    assert(ray_on_board(b, -dr, -df, k));
    assert forall|i: int| 1 <= i < k implies !bit(occ2, #[trigger] ray_square(b, -dr, -df, i)) by {
        let u = ray_square(a, dr, df, k - i);
        assert(ray_square(b, -dr, -df, i) == u);
        assert(on_board(u));
        lemma_ray_coordinates(a, dr, df, k - i);
        lemma_step_product(k - i, dr);
        lemma_step_product(k - i, df);
        assert(u != a && u != b);
        assert(!bit(occ, u));
    }
    assert(ray_square(b, -dr, -df, k) == a);
}

/// If a rook on `a` attacks `b`, a rook on `b` attacks `a`, whatever stands
/// on the two squares themselves; and the same of bishops.
pub proof fn lemma_attack_back(a: int, occ: u64, b: int, occ2: u64)
    requires
        0 <= a < 64,
        forall|u: int| 0 <= u < 64 && u != a && u != b ==> bit(occ2, u) == bit(occ, u),
    ensures
        bit(rook_attacks(a, occ), b) ==> bit(rook_attacks(b, occ2), a) && a != b,
        bit(bishop_attacks(a, occ), b) ==> bit(bishop_attacks(b, occ2), a) && a != b,
{
    lemma_bitboard_of(|t: int| rook_sees(a, occ, t), b);
    lemma_bitboard_of(|t: int| bishop_sees(a, occ, t), b);
    lemma_bitboard_of(|t: int| rook_sees(b, occ2, t), a);
    lemma_bitboard_of(|t: int| bishop_sees(b, occ2, t), a);
    if bit(rook_attacks(a, occ), b) {
        if ray_sees(a, 1, 0, occ, b) {
            lemma_ray_back(a, 1, 0, occ, b, occ2);
        } else if ray_sees(a, -1, 0, occ, b) {
            lemma_ray_back(a, -1, 0, occ, b, occ2);
        } else if ray_sees(a, 0, 1, occ, b) {
            lemma_ray_back(a, 0, 1, occ, b, occ2);
        } else {
            lemma_ray_back(a, 0, -1, occ, b, occ2);
        }
    }
    if bit(bishop_attacks(a, occ), b) {
        if ray_sees(a, 1, 1, occ, b) {
            lemma_ray_back(a, 1, 1, occ, b, occ2);
        } else if ray_sees(a, -1, 1, occ, b) {
            lemma_ray_back(a, -1, 1, occ, b, occ2);
        } else if ray_sees(a, 1, -1, occ, b) {
            lemma_ray_back(a, 1, -1, occ, b, occ2);
        } else {
            lemma_ray_back(a, -1, -1, occ, b, occ2);
        }
    }
}

} // verus!
