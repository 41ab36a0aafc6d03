//! Lines of the board in coordinates: when two squares share a line, which
//! squares lie between them, and what a slider sees along a line.

use vstd::prelude::*;
use crate::bits::{bit, lemma_bitboard_of};
use crate::board_helper::{file_of, on_board, rank_of};
use crate::sliders::{
    between, between_along, bishop_attacks, bishop_sees, is_direction, lemma_ray_coordinates,
    lemma_step_product, ray_clear, ray_on_board, ray_sees, ray_square, rook_attacks, rook_sees,
    strictly_between,
};

verus! {

/// The sign of a number.
pub open spec fn sign(x: int) -> int {
    if x > 0 {
        1
    } else if x < 0 {
        -1
    } else {
        0
    }
}

/// The number of ranks from `a` up to `b`.
pub open spec fn up(a: int, b: int) -> int {
    rank_of(b) - rank_of(a)
}

/// The number of files from `a` across to `b`.
pub open spec fn across(a: int, b: int) -> int {
    file_of(b) - file_of(a)
}

/// The number of steps of a king from `a` to `b`.
pub open spec fn span(a: int, b: int) -> int {
    let r = if up(a, b) < 0 {
        -up(a, b)
    } else {
        up(a, b)
    };
    let f = if across(a, b) < 0 {
        -across(a, b)
    } else {
        across(a, b)
    };
    if r > f {
        r
    } else {
        f
    }
}

/// Two different squares share a rank or a file.
pub open spec fn rook_line(a: int, b: int) -> bool {
    on_board(a) && on_board(b) && a != b && (up(a, b) == 0 || across(a, b) == 0)
}

/// Two different squares share a diagonal.
pub open spec fn bishop_line(a: int, b: int) -> bool {
    on_board(a) && on_board(b) && a != b && (up(a, b) == across(a, b) || up(a, b) == -across(
        a,
        b,
    ))
}

/// `b` lies in the direction `(dr, df)` from `a`, on a line with it.
pub open spec fn toward(a: int, dr: int, df: int, b: int) -> bool {
    (rook_line(a, b) || bishop_line(a, b)) && sign(up(a, b)) == dr && sign(across(a, b)) == df
}

/// `u` lies on the line from `a` to `b`, strictly between them.
pub open spec fn inside(a: int, b: int, u: int) -> bool {
    &&& rook_line(a, b) || bishop_line(a, b)
    &&& rook_line(a, u) || bishop_line(a, u)
    &&& sign(up(a, u)) == sign(up(a, b))
    &&& sign(across(a, u)) == sign(across(a, b))
    &&& span(a, u) < span(a, b)
}

/// No square between `a` and `b` is occupied.
pub open spec fn clear(a: int, b: int, occ: u64) -> bool {
    forall|u: int| inside(a, b, u) ==> !bit(occ, u)
}

/// The square `k` steps from a square of the board, where the steps stay
/// on the board: its coordinates, and how it lies to the start.
proof fn lemma_step(a: int, dr: int, df: int, k: int)
    requires
        0 <= a < 64,
        is_direction(dr, df),
        1 <= k,
        on_board(ray_square(a, dr, df, k)),
    ensures
        toward(a, dr, df, ray_square(a, dr, df, k)),
        span(a, ray_square(a, dr, df, k)) == k,
        up(a, ray_square(a, dr, df, k)) == k * dr,
        across(a, ray_square(a, dr, df, k)) == k * df,
{
    lemma_ray_coordinates(a, dr, df, k);
    lemma_step_product(k, dr);
    lemma_step_product(k, df);
}

/// A square that lies in a direction from a square of the board is the
/// square so many steps away.
proof fn lemma_reach(a: int, dr: int, df: int, b: int)
    requires
        0 <= a < 64,
        toward(a, dr, df, b),
    ensures
        is_direction(dr, df),
        1 <= span(a, b) < 8,
        ray_square(a, dr, df, span(a, b)) == b,
{
    let k = span(a, b);
    lemma_step_product(k, dr);
    lemma_step_product(k, df);
    let f = file_of(a) + k * df;
    let r = rank_of(a) + k * dr;
    assert(f == file_of(b));
    assert(r == rank_of(b));
    assert(b == rank_of(b) * 8 + file_of(b));
}

/// A slider sees a square along a ray exactly if the square lies in the
/// direction of the ray and nothing stands between.
pub proof fn lemma_ray_sight(a: int, dr: int, df: int, occ: u64, b: int)
    requires
        0 <= a < 64,
        is_direction(dr, df),
    ensures
        ray_sees(a, dr, df, occ, b) == (toward(a, dr, df, b) && clear(a, b, occ)),
{
    if ray_sees(a, dr, df, occ, b) {
        let k = choose|k: int|
            1 <= k < 8 && #[trigger] ray_square(a, dr, df, k) == b && ray_on_board(a, dr, df, k)
                && ray_clear(a, dr, df, occ, k);
        assert(on_board(ray_square(a, dr, df, k)));
        lemma_step(a, dr, df, k);
        assert forall|u: int| inside(a, b, u) implies !bit(occ, u) by {
            lemma_reach(a, dr, df, u);
            let j = span(a, u);
            assert(ray_square(a, dr, df, j) == u);
            assert(1 <= j < k);
        }
    }
    if toward(a, dr, df, b) && clear(a, b, occ) {
        lemma_reach(a, dr, df, b);
        let k = span(a, b);
        assert forall|i: int| 1 <= i <= k implies on_board(#[trigger] ray_square(a, dr, df, i)) by {
            lemma_step_product(i, dr);
            lemma_step_product(i, df);
            lemma_step_product(k, dr);
            lemma_step_product(k, df);
        }
        assert(ray_on_board(a, dr, df, k));
        assert forall|i: int| 1 <= i < k implies !bit(occ, #[trigger] ray_square(a, dr, df, i)) by {
            assert(on_board(ray_square(a, dr, df, i)));
            lemma_step(a, dr, df, i);
            assert(inside(a, b, ray_square(a, dr, df, i)));
        }
        assert(ray_square(a, dr, df, k) == b);
    }
}

/// A rook sees a square exactly if they share a rank or a file and nothing
/// stands between; a bishop, if they share a diagonal and nothing stands between.
pub proof fn lemma_sight(a: int, occ: u64, b: int)
    requires
        0 <= a < 64,
    ensures
        bit(rook_attacks(a, occ), b) == (rook_line(a, b) && clear(a, b, occ)),
        bit(bishop_attacks(a, occ), b) == (bishop_line(a, b) && clear(a, b, occ)),
{
    lemma_bitboard_of(|t: int| rook_sees(a, occ, t), b);
    lemma_bitboard_of(|t: int| bishop_sees(a, occ, t), b);
    lemma_ray_sight(a, 1, 0, occ, b);
    lemma_ray_sight(a, -1, 0, occ, b);
    lemma_ray_sight(a, 0, 1, occ, b);
    lemma_ray_sight(a, 0, -1, occ, b);
    lemma_ray_sight(a, 1, 1, occ, b);
    lemma_ray_sight(a, -1, 1, occ, b);
    lemma_ray_sight(a, 1, -1, occ, b);
    lemma_ray_sight(a, -1, -1, occ, b);
}

/// The squares between two squares of a line in one direction.
proof fn lemma_between_along(a: int, b: int, dr: int, df: int, u: int)
    requires
        0 <= a < 64,
        is_direction(dr, df),
    ensures
        between_along(a, b, dr, df, u) == (toward(a, dr, df, b) && inside(a, b, u)),
{
    if between_along(a, b, dr, df, u) {
        let (k, j) = choose|k: int, j: int|
            1 <= j < k < 8 && #[trigger] ray_square(a, dr, df, k) == b && #[trigger] ray_square(
                a,
                dr,
                df,
                j,
            ) == u && on_board(b) && on_board(u);
        lemma_step(a, dr, df, k);
        lemma_step(a, dr, df, j);
    }
    if toward(a, dr, df, b) && inside(a, b, u) {
        lemma_reach(a, dr, df, b);
        lemma_reach(a, dr, df, u);
        let k = span(a, b);
        let j = span(a, u);
        assert(1 <= j < k < 8 && ray_square(a, dr, df, k) == b && ray_square(a, dr, df, j) == u);
    }
}

/// A square is in the bitboard of the squares between two squares exactly
/// if it lies on their line, strictly between them.
pub proof fn lemma_between(a: int, b: int, u: int)
    requires
        0 <= a < 64,
    ensures
        bit(between(a, b), u) == inside(a, b, u),
{
    lemma_bitboard_of(|t: int| strictly_between(a, b, t), u);
    lemma_between_along(a, b, 1, 0, u);
    lemma_between_along(a, b, -1, 0, u);
    lemma_between_along(a, b, 0, 1, u);
    lemma_between_along(a, b, 0, -1, u);
    lemma_between_along(a, b, 1, 1, u);
    lemma_between_along(a, b, 1, -1, u);
    lemma_between_along(a, b, -1, 1, u);
    lemma_between_along(a, b, -1, -1, u);
}

/// Two squares share a line on which rooks move, or else one on which bishops move.
pub open spec fn on_line(rook: bool, a: int, b: int) -> bool {
    if rook {
        rook_line(a, b)
    } else {
        bishop_line(a, b)
    }
}

/// What lies between two squares lies between them from either end, and on
/// a line of the same kind with both.
pub proof fn lemma_inside_flip(rook: bool, a: int, b: int, u: int)
    requires
        inside(a, b, u),
    ensures
        inside(b, a, u),
        on_line(rook, a, b) ==> on_line(rook, a, u) && on_line(rook, b, u),
{
}

/// What lies between `a` and a square between `a` and `c` lies between `a` and `c`.
pub proof fn lemma_inside_chain(a: int, c: int, b: int, u: int)
    requires
        inside(a, c, b),
        u == b || inside(a, b, u),
    ensures
        inside(a, c, u),
{
}

/// A piece between `a` and `b` slides along their line: where it arrives
/// on a line with `a` without passing over `a`, it is on the ray from `a`
/// through `b`.
pub proof fn lemma_slide_on_ray(rook: bool, a: int, b: int, f: int, t: int)
    requires
        inside(a, b, f),
        on_line(rook, a, b),
        on_line(rook, a, t),
        on_line(rook, f, t),
        !inside(f, t, a),
    ensures
        t == b || inside(a, b, t) || (inside(a, t, b) && inside(a, t, f)),
{
    let (ar, af) = (rank_of(a), file_of(a));
    let (br, bf) = (rank_of(b), file_of(b));
    let (fr, ff) = (rank_of(f), file_of(f));
    let (tr, tf) = (rank_of(t), file_of(t));
    assert(a == 8 * ar + af && b == 8 * br + bf && f == 8 * fr + ff && t == 8 * tr + tf);
    if rook {
        if ar == br {
            assert(fr == ar);
            assert(tr == ar);
        } else {
            assert(af == bf && ff == af);
            assert(tf == af);
        }
    } else {
        if br - ar == bf - af {
            assert(fr - ar == ff - af);
            assert(tr - ar == tf - af);
        } else {
            assert(fr - ar == af - ff);
            assert(tr - ar == af - tf);
        }
    }
}

/// The square after two squares of a file that both lie between `a` and
/// `b` is `a`, `b` or again between them.
pub proof fn lemma_next_on_file(a: int, b: int, f: int, w: int, t: int)
    requires
        inside(a, b, f),
        inside(a, b, w),
        (w == f + 8 && t == f + 16) || (w == f - 8 && t == f - 16),
        0 <= t < 64,
    ensures
        t == a || t == b || inside(a, b, t),
{
    let (ar, af) = (rank_of(a), file_of(a));
    let (br, bf) = (rank_of(b), file_of(b));
    let (fr, ff) = (rank_of(f), file_of(f));
    let (wr, wf) = (rank_of(w), file_of(w));
    let (tr, tf) = (rank_of(t), file_of(t));
    assert(a == 8 * ar + af && b == 8 * br + bf && f == 8 * fr + ff && t == 8 * tr + tf && w == 8
        * wr + wf);
    assert(wf == ff && tf == ff);
    assert(af == ff);
    assert(bf == ff);
}

/// Nothing lies between two squares that touch.
pub proof fn lemma_adjacent_clear(a: int, b: int, occ: u64)
    requires
        span(a, b) <= 1,
    ensures
        clear(a, b, occ),
{
}

/// Of two squares next to each other on a file, at most one shares a
/// diagonal with a given square.
pub proof fn lemma_diagonals_skip_file(a: int, f: int, w: int)
    requires
        w == f + 8 || w == f - 8,
        bishop_line(a, f),
    ensures
        !bishop_line(a, w),
{
    let (ar, af) = (rank_of(a), file_of(a));
    let (fr, ff) = (rank_of(f), file_of(f));
    let (wr, wf) = (rank_of(w), file_of(w));
    assert(a == 8 * ar + af && f == 8 * fr + ff && w == 8 * wr + wf);
    assert(wf == ff);
}

/// A corner of the board does not lie between a square of its rank and
/// any other square.
pub proof fn lemma_corner_outside(s: int, to: int, corner: int)
    requires
        0 <= to < 64,
        (corner == to + 1 && file_of(corner) == 7) || (corner == to - 2 && file_of(corner) == 0),
    ensures
        !inside(s, to, corner),
{
    let (sr, sf) = (rank_of(s), file_of(s));
    let (tr, tf) = (rank_of(to), file_of(to));
    let (cr, cf) = (rank_of(corner), file_of(corner));
    assert(s == 8 * sr + sf && to == 8 * tr + tf && corner == 8 * cr + cf);
    assert(cr == tr);
}

/// Two squares of one rank that both lie between `a` and `b`: `a` and `b`
/// are on that rank too.
pub proof fn lemma_same_rank_between(a: int, b: int, f: int, v: int)
    requires
        inside(a, b, f),
        inside(a, b, v),
        f != v,
        rank_of(f) == rank_of(v),
    ensures
        rook_line(a, b),
        rank_of(b) == rank_of(f),
{
    let (ar, af) = (rank_of(a), file_of(a));
    let (br, bf) = (rank_of(b), file_of(b));
    let (fr, ff) = (rank_of(f), file_of(f));
    let (vr, vf) = (rank_of(v), file_of(v));
    assert(a == 8 * ar + af && b == 8 * br + bf && f == 8 * fr + ff && v == 8 * vr + vf);
    if ar != fr {
        assert(ff != vf);
    }
}

/// The square above or below a square between `a` and `b` on a rank or a
/// file, where `b` is not on the rank of that square, is `a`, `b` or again
/// between them.
pub proof fn lemma_next_on_line(a: int, b: int, v: int, t: int)
    requires
        rook_line(a, b),
        inside(a, b, v),
        rank_of(b) != rank_of(v),
        t == v + 8 || t == v - 8,
        0 <= t < 64,
    ensures
        t == a || t == b || inside(a, b, t),
{
    let (ar, af) = (rank_of(a), file_of(a));
    let (br, bf) = (rank_of(b), file_of(b));
    let (vr, vf) = (rank_of(v), file_of(v));
    let (tr, tf) = (rank_of(t), file_of(t));
    assert(a == 8 * ar + af && b == 8 * br + bf && v == 8 * vr + vf && t == 8 * tr + tf);
    assert(tf == vf);
    assert(af == vf && bf == vf);
}

/// Two squares that hold a common square between themselves and `a` lie
/// on one ray from `a`: they are the same, or one lies between `a` and the
/// other.
pub proof fn lemma_same_ray(a: int, b: int, c: int, t: int)
    requires
        inside(b, a, t),
        inside(c, a, t),
    ensures
        b == c || inside(a, b, c) || inside(a, c, b),
{
    let (ar, af) = (rank_of(a), file_of(a));
    let (br, bf) = (rank_of(b), file_of(b));
    let (cr, cf) = (rank_of(c), file_of(c));
    let (tr, tf) = (rank_of(t), file_of(t));
    assert(a == 8 * ar + af && b == 8 * br + bf && c == 8 * cr + cf && t == 8 * tr + tf);
}

/// Two different squares between `a` and `b`, or one of them `b` itself:
/// they share a line of the kind of the line from `a` to `b`, and what
/// lies between them lies between `a` and `b`.
pub proof fn lemma_line_between(rook: bool, a: int, b: int, f: int, t: int, w: int)
    requires
        on_line(rook, a, b),
        inside(a, b, f),
        t == b || inside(a, b, t),
        f != t,
    ensures
        on_line(rook, f, t),
        w == t || inside(f, t, w) ==> w == b || inside(a, b, w),
{
    let (ar, af) = (rank_of(a), file_of(a));
    let (br, bf) = (rank_of(b), file_of(b));
    let (fr, ff) = (rank_of(f), file_of(f));
    let (tr, tf) = (rank_of(t), file_of(t));
    let (wr, wf) = (rank_of(w), file_of(w));
    assert(a == 8 * ar + af && b == 8 * br + bf && f == 8 * fr + ff && t == 8 * tr + tf && w == 8
        * wr + wf);
}

/// A square of a rank lies between `s` and its neighbour on the rank:
/// then `s` is the next square of the rank on the other side, or that
/// square lies between them too.
pub proof fn lemma_beyond_neighbour(s: int, to: int, landing: int, k: int)
    requires
        (landing == to - 1 && k == to - 2) || (landing == to + 1 && k == to + 2),
        0 <= k < 64,
        rank_of(k) == rank_of(to),
        inside(s, to, landing),
    ensures
        s == k || inside(s, to, k),
{
    let (sr, sf) = (rank_of(s), file_of(s));
    let (tr, tf) = (rank_of(to), file_of(to));
    let (lr, lf) = (rank_of(landing), file_of(landing));
    let (kr, kf) = (rank_of(k), file_of(k));
    assert(s == 8 * sr + sf && to == 8 * tr + tf && landing == 8 * lr + lf && k == 8 * kr + kf);
    assert(lr == tr);
}

} // verus!
