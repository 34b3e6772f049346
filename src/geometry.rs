//! Piece geometry on the 8x8 board: which squares a piece on `s` reaches.
use vstd::prelude::*;
use crate::bits::{
    bit, group_bits, holds, is_set, lemma_coords_square, lemma_square_coords, on_board, square_at,
    file_of, rank_of,
};

verus! {

broadcast use group_bits;

pub open spec fn dist(a: int, b: int) -> int {
    if a >= b {
        a - b
    } else {
        b - a
    }
}

pub open spec fn is_square(s: int) -> bool {
    0 <= s < 64
}

/// `t` is a knight's jump away from `s`.
pub open spec fn knight_step(s: int, t: int) -> bool {
    is_square(s) && is_square(t) && {
        let df = dist(file_of(s), file_of(t));
        let dr = dist(rank_of(s), rank_of(t));
        (df == 1 && dr == 2) || (df == 2 && dr == 1)
    }
}

/// `t` is next to `s` (the king's step).
pub open spec fn king_step(s: int, t: int) -> bool {
    is_square(s) && is_square(t) && s != t && dist(file_of(s), file_of(t)) <= 1 && dist(
        rank_of(s),
        rank_of(t),
    ) <= 1
}

/// Rank direction in which a side's pawns advance.
pub open spec fn forward(white: bool) -> int {
    if white {
        1
    } else {
        -1
    }
}

/// A pawn of side `white` on `s` attacks `t`.
pub open spec fn pawn_hit(white: bool, s: int, t: int) -> bool {
    is_square(s) && is_square(t) && dist(file_of(s), file_of(t)) == 1 && rank_of(t) == rank_of(s)
        + forward(white)
}

/// The rank from which a side's pawns may advance two squares.
pub open spec fn pawn_start_rank(white: bool) -> int {
    if white {
        1
    } else {
        6
    }
}

/// A pawn of side `white` on `s` may be pushed to `t` on an empty board.
pub open spec fn pawn_push_target(white: bool, s: int, t: int) -> bool {
    is_square(s) && is_square(t) && file_of(t) == file_of(s) && (rank_of(t) == rank_of(s)
        + forward(white) || (rank_of(s) == pawn_start_rank(white) && rank_of(t) == rank_of(s) + 2
        * forward(white)))
}

/// `k` steps in direction `d` (one of -1, 0, 1).
pub open spec fn step_of(k: int, d: int) -> int {
    if d > 0 {
        k
    } else if d < 0 {
        -k
    } else {
        0
    }
}

pub open spec fn is_dir(df: int, dr: int) -> bool {
    -1 <= df <= 1 && -1 <= dr <= 1 && (df != 0 || dr != 0)
}

/// The file and rank `k` steps from `s` along `(df, dr)` lie on the board.
pub open spec fn ray_on_board(s: int, df: int, dr: int, k: int) -> bool {
    on_board(file_of(s) + step_of(k, df), rank_of(s) + step_of(k, dr))
}

/// The square `k` steps from `s` along `(df, dr)`.
pub open spec fn ray_square(s: int, df: int, dr: int, k: int) -> int {
    square_at(file_of(s) + step_of(k, df), rank_of(s) + step_of(k, dr))
}

/// How many steps along `(df, dr)` lead from `s` to the file (or rank) of `t`.
pub open spec fn ray_index(s: int, t: int, df: int, dr: int) -> int {
    if df != 0 {
        step_of(file_of(t) - file_of(s), df)
    } else {
        step_of(rank_of(t) - rank_of(s), dr)
    }
}

/// A slider on `s` moving along `(df, dr)` reaches `t`: `t` lies on that ray and no
/// square of `occ` stands strictly between them. The first blocker is itself reached.
pub open spec fn ray_reaches(s: int, t: int, df: int, dr: int, occ: u64) -> bool {
    let k = ray_index(s, t, df, dr);
    is_square(s) && 1 <= k && ray_on_board(s, df, dr, k) && t == ray_square(s, df, dr, k) && forall|
        j: int,
    |
        1 <= j < k ==> !#[trigger] holds(occ, ray_square(s, df, dr, j))
}

pub open spec fn rook_reaches(s: int, t: int, occ: u64) -> bool {
    ray_reaches(s, t, 1, 0, occ) || ray_reaches(s, t, -1, 0, occ) || ray_reaches(s, t, 0, 1, occ)
        || ray_reaches(s, t, 0, -1, occ)
}

pub open spec fn bishop_reaches(s: int, t: int, occ: u64) -> bool {
    ray_reaches(s, t, 1, 1, occ) || ray_reaches(s, t, 1, -1, occ) || ray_reaches(s, t, -1, 1, occ)
        || ray_reaches(s, t, -1, -1, occ)
}

pub open spec fn queen_reaches(s: int, t: int, occ: u64) -> bool {
    rook_reaches(s, t, occ) || bishop_reaches(s, t, occ)
}

/// `t` lies `df` files and `dr` ranks away from `s`.
pub open spec fn offset_hit(s: int, t: int, df: int, dr: int) -> bool {
    on_board(file_of(s) + df, rank_of(s) + dr) && t == square_at(file_of(s) + df, rank_of(s) + dr)
}

proof fn lemma_offset_hit(s: int, t: int, df: int, dr: int)
    requires
        is_square(s),
        is_square(t),
    ensures
        offset_hit(s, t, df, dr) == (file_of(t) - file_of(s) == df && rank_of(t) - rank_of(s) == dr),
{
    lemma_square_coords(t);
    if on_board(file_of(s) + df, rank_of(s) + dr) {
        lemma_coords_square(file_of(s) + df, rank_of(s) + dr);
    }
}

/// Adds to `acc` the square `(df, dr)` away from `s`, when that square is on the board.
fn add_offset(acc: u64, s: usize, df: i64, dr: i64) -> (r: u64)
    requires
        s < 64,
        -2 <= df <= 2,
        -2 <= dr <= 2,
    ensures
        forall|t: int| #[trigger]
            holds(r, t) <==> (holds(acc, t) || offset_hit(s as int, t, df as int, dr as int)),
{
    let f = (s % 8) as i64 + df;
    let rk = (s / 8) as i64 + dr;
    if 0 <= f && f < 8 && 0 <= rk && rk < 8 {
        let t = (rk * 8 + f) as usize;
        acc | bit(t)
    } else {
        acc
    }
}

/// The squares a knight on `s` attacks.
pub fn knight_targets(s: usize) -> (r: u64)
    requires
        s < 64,
    ensures
        forall|t: int| #[trigger] holds(r, t) <==> knight_step(s as int, t),
{
    let mut a: u64 = 0;
    a = add_offset(a, s, 1, 2);
    a = add_offset(a, s, 2, 1);
    a = add_offset(a, s, 2, -1);
    a = add_offset(a, s, 1, -2);
    a = add_offset(a, s, -1, -2);
    a = add_offset(a, s, -2, -1);
    a = add_offset(a, s, -2, 1);
    a = add_offset(a, s, -1, 2);
    proof {
        assert forall|t: int| #[trigger] holds(a, t) <==> knight_step(s as int, t) by {
            if 0 <= t < 64 {
                lemma_offset_hit(s as int, t, 1, 2);
                lemma_offset_hit(s as int, t, 2, 1);
                lemma_offset_hit(s as int, t, 2, -1);
                lemma_offset_hit(s as int, t, 1, -2);
                lemma_offset_hit(s as int, t, -1, -2);
                lemma_offset_hit(s as int, t, -2, -1);
                lemma_offset_hit(s as int, t, -2, 1);
                lemma_offset_hit(s as int, t, -1, 2);
            }
        }
    }
    a
}

/// The squares a king on `s` attacks.
pub fn king_targets(s: usize) -> (r: u64)
    requires
        s < 64,
    ensures
        forall|t: int| #[trigger] holds(r, t) <==> king_step(s as int, t),
{
    let mut a: u64 = 0;
    a = add_offset(a, s, 1, 1);
    a = add_offset(a, s, 1, 0);
    a = add_offset(a, s, 1, -1);
    a = add_offset(a, s, 0, -1);
    a = add_offset(a, s, -1, -1);
    a = add_offset(a, s, -1, 0);
    a = add_offset(a, s, -1, 1);
    a = add_offset(a, s, 0, 1);
    proof {
        assert forall|t: int| #[trigger] holds(a, t) <==> king_step(s as int, t) by {
            if 0 <= t < 64 {
                lemma_offset_hit(s as int, t, 1, 1);
                lemma_offset_hit(s as int, t, 1, 0);
                lemma_offset_hit(s as int, t, 1, -1);
                lemma_offset_hit(s as int, t, 0, -1);
                lemma_offset_hit(s as int, t, -1, -1);
                lemma_offset_hit(s as int, t, -1, 0);
                lemma_offset_hit(s as int, t, -1, 1);
                lemma_offset_hit(s as int, t, 0, 1);
            }
        }
    }
    a
}

/// The squares a pawn of side `white` on `s` attacks.
pub fn pawn_hits(white: bool, s: usize) -> (r: u64)
    requires
        s < 64,
    ensures
        forall|t: int| #[trigger] holds(r, t) <==> pawn_hit(white, s as int, t),
{
    let dr: i64 = if white {
        1
    } else {
        -1
    };
    let mut a: u64 = 0;
    a = add_offset(a, s, 1, dr);
    a = add_offset(a, s, -1, dr);
    proof {
        assert forall|t: int| #[trigger] holds(a, t) <==> pawn_hit(white, s as int, t) by {
            if 0 <= t < 64 {
                lemma_offset_hit(s as int, t, 1, dr as int);
                lemma_offset_hit(s as int, t, -1, dr as int);
            }
        }
    }
    a
}

/// The squares a pawn of side `white` on `s` may be pushed to on an empty board.
pub fn pawn_push_targets(white: bool, s: usize) -> (r: u64)
    requires
        s < 64,
    ensures
        forall|t: int| #[trigger] holds(r, t) <==> pawn_push_target(white, s as int, t),
{
    let dr: i64 = if white {
        1
    } else {
        -1
    };
    let start: usize = if white {
        1
    } else {
        6
    };
    let mut a: u64 = 0;
    a = add_offset(a, s, 0, dr);
    if s / 8 == start {
        a = add_offset(a, s, 0, 2 * dr);
    }
    proof {
        assert forall|t: int| #[trigger] holds(a, t) <==> pawn_push_target(white, s as int, t) by {
            if 0 <= t < 64 {
                lemma_offset_hit(s as int, t, 0, dr as int);
                lemma_offset_hit(s as int, t, 0, 2 * dr as int);
            }
        }
    }
    a
}

/// Adds to `acc` the squares a slider on `s` reaches along `(df, dr)` through `occ`.
fn ray_targets(acc: u64, s: usize, df: i64, dr: i64, occ: u64) -> (r: u64)
    requires
        s < 64,
        is_dir(df as int, dr as int),
    ensures
        forall|t: int| #[trigger]
            holds(r, t) <==> (holds(acc, t) || ray_reaches(s as int, t, df as int, dr as int, occ)),
{
    let ghost si = s as int;
    let ghost dfi = df as int;
    let ghost dri = dr as int;
    let mut a = acc;
    let mut f: i64 = (s % 8) as i64 + df;
    let mut rk: i64 = (s / 8) as i64 + dr;
    let mut k: i64 = 1;
    while k < 8
        invariant
            s < 64,
            is_dir(dfi, dri),
            dfi == df,
            dri == dr,
            si == s,
            1 <= k <= 8,
            f == file_of(si) + step_of(k as int, dfi),
            rk == rank_of(si) + step_of(k as int, dri),
            forall|j: int|
                1 <= j < k ==> ray_on_board(si, dfi, dri, j) && !#[trigger] holds(
                    occ,
                    ray_square(si, dfi, dri, j),
                ),
            forall|t: int| #[trigger]
                holds(a, t) <==> (holds(acc, t) || (ray_reaches(si, t, dfi, dri, occ) && ray_index(
                    si,
                    t,
                    dfi,
                    dri,
                ) < k)),
        decreases 8 - k,
    {
        if !(0 <= f && f < 8 && 0 <= rk && rk < 8) {
            proof {
                assert forall|t: int| #[trigger]
                    holds(a, t) <==> (holds(acc, t) || ray_reaches(si, t, dfi, dri, occ)) by {
                    if ray_reaches(si, t, dfi, dri, occ) && ray_index(si, t, dfi, dri) >= k {
                        assert(false);
                    }
                }
            }
            return a;
        }
        let t = (rk * 8 + f) as usize;
        proof {
            lemma_coords_square(f as int, rk as int);
        }
        let m = bit(t);
        a = a | m;
        let blocked = is_set(occ, t);
        proof {
            assert forall|u: int| #[trigger]
                holds(a, u) <==> (holds(acc, u) || (ray_reaches(si, u, dfi, dri, occ) && ray_index(
                    si,
                    u,
                    dfi,
                    dri,
                ) < k + 1)) by {
                if u == t {
                    assert(ray_index(si, u, dfi, dri) == k);
                }
                if ray_reaches(si, u, dfi, dri, occ) && ray_index(si, u, dfi, dri) == k {
                    assert(u == t);
                }
            }
        }
        if blocked {
            proof {
                assert forall|u: int| #[trigger]
                    holds(a, u) <==> (holds(acc, u) || ray_reaches(si, u, dfi, dri, occ)) by {
                    if ray_reaches(si, u, dfi, dri, occ) && ray_index(si, u, dfi, dri) > k {
                        assert(!holds(occ, ray_square(si, dfi, dri, k as int)));
                    }
                }
            }
            return a;
        }
        k = k + 1;
        f = f + df;
        rk = rk + dr;
    }
    proof {
        assert forall|t: int| #[trigger]
            holds(a, t) <==> (holds(acc, t) || ray_reaches(si, t, dfi, dri, occ)) by {
            if ray_reaches(si, t, dfi, dri, occ) && ray_index(si, t, dfi, dri) >= 8 {
                assert(false);
            }
        }
    }
    a
}

/// The squares a rook on `s` attacks, given the occupied squares `occ`.
pub fn rook_targets(s: usize, occ: u64) -> (r: u64)
    requires
        s < 64,
    ensures
        forall|t: int| #[trigger] holds(r, t) <==> rook_reaches(s as int, t, occ),
{
    let mut a: u64 = 0;
    a = ray_targets(a, s, 1, 0, occ);
    a = ray_targets(a, s, -1, 0, occ);
    a = ray_targets(a, s, 0, 1, occ);
    a = ray_targets(a, s, 0, -1, occ);
    a
}

/// The squares a bishop on `s` attacks, given the occupied squares `occ`.
pub fn bishop_targets(s: usize, occ: u64) -> (r: u64)
    requires
        s < 64,
    ensures
        forall|t: int| #[trigger] holds(r, t) <==> bishop_reaches(s as int, t, occ),
{
    let mut a: u64 = 0;
    a = ray_targets(a, s, 1, 1, occ);
    a = ray_targets(a, s, 1, -1, occ);
    a = ray_targets(a, s, -1, 1, occ);
    a = ray_targets(a, s, -1, -1, occ);
    a
}

} // verus!
