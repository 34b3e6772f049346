//! Counting move paths: the number of legal-move paths of a given length, as a sum over
//! every move of a fixed enumeration.
use vstd::prelude::*;
use crate::bitboard::Piece;
use crate::game::Game;
use crate::laws::game_after;
use crate::legal::legal;
use crate::movelist::Move;

verus! {

/// Number of (from, to, promotion) triples enumerated.
pub open spec fn move_space() -> int {
    28672int
}

pub open spec fn promo_index(p: Option<Piece>) -> int {
    match p {
        None => 0,
        Some(Piece::Queen) => 1,
        Some(Piece::Rook) => 2,
        Some(Piece::Bishop) => 3,
        Some(Piece::Knight) => 4,
        Some(Piece::Pawn) => 5,
        Some(Piece::King) => 6,
    }
}

pub open spec fn promo_at(i: int) -> Option<Piece> {
    if i == 1 {
        Some(Piece::Queen)
    } else if i == 2 {
        Some(Piece::Rook)
    } else if i == 3 {
        Some(Piece::Bishop)
    } else if i == 4 {
        Some(Piece::Knight)
    } else if i == 5 {
        Some(Piece::Pawn)
    } else if i == 6 {
        Some(Piece::King)
    } else {
        None
    }
}

/// The move with index `k` of the enumeration.
pub open spec fn move_at(k: int) -> Move {
    ((k / 448) as usize, ((k / 7) % 64) as usize, promo_at(k % 7))
}

/// The index of `m` in the enumeration.
pub open spec fn index_of(m: Move) -> int {
    m.0 * 448 + m.1 * 7 + promo_index(m.2)
}

pub open spec fn in_space(m: Move) -> bool {
    m.0 < 64 && m.1 < 64
}

pub proof fn lemma_index(m: Move, k: int)
    requires
        in_space(m),
        0 <= k < move_space(),
        move_at(k) == m,
    ensures
        k == index_of(m),
{
    let a = k / 448;
    let b = (k / 7) % 64;
    let c = k % 7;
    assert(k == a * 448 + b * 7 + c) by (nonlinear_arith)
        requires
            0 <= k,
            a == k / 448,
            b == (k / 7) % 64,
            c == k % 7,
    ;
}

pub proof fn lemma_index_in_space(m: Move)
    requires
        in_space(m),
    ensures
        0 <= index_of(m) < move_space(),
        move_at(index_of(m)) == m,
{
    let k = index_of(m);
    let a = m.0 as int;
    let b = m.1 as int;
    let c = promo_index(m.2);
    assert(k / 448 == a && (k / 7) % 64 == b && k % 7 == c) by (nonlinear_arith)
        requires
            k == a * 448 + b * 7 + c,
            0 <= a < 64,
            0 <= b < 64,
            0 <= c < 7,
    ;
}

/// Sum of `f` over the enumerated moves below index `k` that `inc` includes.
pub open spec fn dsum(f: spec_fn(Move) -> int, inc: spec_fn(Move) -> bool, k: int) -> int
    decreases k,
{
    if k <= 0 {
        0
    } else {
        dsum(f, inc, k - 1) + if inc(move_at(k - 1)) {
            f(move_at(k - 1))
        } else {
            0
        }
    }
}

pub proof fn lemma_dsum_ext(f: spec_fn(Move) -> int, a: spec_fn(Move) -> bool, b: spec_fn(Move) -> bool, k: int)
    requires
        forall|m: Move| #[trigger] a(m) == b(m),
    ensures
        dsum(f, a, k) == dsum(f, b, k),
    decreases k,
{
    if k > 0 {
        lemma_dsum_ext(f, a, b, k - 1);
    }
}

/// Including one more move `x` adds `f(x)` once it is enumerated.
pub proof fn lemma_dsum_add(f: spec_fn(Move) -> int, a: spec_fn(Move) -> bool, b: spec_fn(Move) -> bool, x: Move, k: int)
    requires
        in_space(x),
        !a(x),
        forall|m: Move| #[trigger] b(m) == (a(m) || m == x),
        k <= move_space(),
    ensures
        dsum(f, b, k) == dsum(f, a, k) + if index_of(x) < k {
            f(x)
        } else {
            0
        },
    decreases k,
{
    lemma_index_in_space(x);
    if k > 0 {
        lemma_dsum_add(f, a, b, x, k - 1);
        if move_at(k - 1) == x {
            lemma_index(x, k - 1);
        } else if index_of(x) == k - 1 {
            assert(false);
        }
    }
}

/// Largest of `base` and `f` over the enumerated moves below index `k` that `inc`
/// includes.
pub open spec fn dmax(f: spec_fn(Move) -> int, inc: spec_fn(Move) -> bool, base: int, k: int) -> int
    decreases k,
{
    if k <= 0 {
        base
    } else {
        let p = dmax(f, inc, base, k - 1);
        if inc(move_at(k - 1)) && f(move_at(k - 1)) > p {
            f(move_at(k - 1))
        } else {
            p
        }
    }
}

pub proof fn lemma_dmax_ext(f: spec_fn(Move) -> int, a: spec_fn(Move) -> bool, b: spec_fn(Move) -> bool, base: int, k: int)
    requires
        forall|m: Move| #[trigger] a(m) == b(m),
    ensures
        dmax(f, a, base, k) == dmax(f, b, base, k),
    decreases k,
{
    if k > 0 {
        lemma_dmax_ext(f, a, b, base, k - 1);
    }
}

pub proof fn lemma_dmax_base(f: spec_fn(Move) -> int, base: int, k: int)
    ensures
        dmax(f, |m: Move| false, base, k) == base,
    decreases k,
{
    if k > 0 {
        lemma_dmax_base(f, base, k - 1);
    }
}

/// The maximum is at least the base and every included value.
pub proof fn lemma_dmax_bounds(f: spec_fn(Move) -> int, inc: spec_fn(Move) -> bool, base: int, k: int, x: Move)
    requires
        k <= move_space(),
    ensures
        dmax(f, inc, base, k) >= base,
        in_space(x) && inc(x) && index_of(x) < k ==> dmax(f, inc, base, k) >= f(x),
    decreases k,
{
    if k > 0 {
        lemma_dmax_bounds(f, inc, base, k - 1, x);
        if in_space(x) && inc(x) && index_of(x) == k - 1 {
            lemma_index_in_space(x);
        }
    }
}

/// Including `x` as well takes the larger of the old maximum and `f(x)`.
pub proof fn lemma_dmax_add(f: spec_fn(Move) -> int, a: spec_fn(Move) -> bool, b: spec_fn(Move) -> bool, base: int, x: Move, k: int)
    requires
        in_space(x),
        forall|m: Move| #[trigger] b(m) == (a(m) || m == x),
        k <= move_space(),
    ensures
        dmax(f, b, base, k) == if index_of(x) < k && f(x) > dmax(f, a, base, k) {
            f(x)
        } else {
            dmax(f, a, base, k)
        },
    decreases k,
{
    lemma_index_in_space(x);
    if k > 0 {
        lemma_dmax_add(f, a, b, base, x, k - 1);
        lemma_dmax_bounds(f, a, base, k - 1, x);
        if move_at(k - 1) == x {
            lemma_index(x, k - 1);
        } else if index_of(x) == k - 1 {
            assert(false);
        }
    }
}

/// The number of legal-move paths of length `d` from `g`.
pub open spec fn perft_count(g: Game, d: nat) -> int
    decreases d, move_space() + 1,
{
    if d == 0 {
        1
    } else {
        perft_sum(g, d, move_space())
    }
}

/// The paths of length `d` that start with an enumerated move below index `k`.
pub open spec fn perft_sum(g: Game, d: nat, k: int) -> int
    decreases d, k,
{
    if k <= 0 || d == 0 || k > move_space() {
        0
    } else {
        perft_sum(g, d, k - 1) + if legal(g, move_at(k - 1)) {
            perft_count(game_after(g, move_at(k - 1)), (d - 1) as nat)
        } else {
            0
        }
    }
}

pub proof fn lemma_perft_nonneg(g: Game, d: nat)
    ensures
        perft_count(g, d) >= 0,
    decreases d, move_space() + 1,
{
    if d > 0 {
        lemma_perft_sum_nonneg(g, d, move_space());
    }
}

pub proof fn lemma_perft_sum_nonneg(g: Game, d: nat, k: int)
    ensures
        perft_sum(g, d, k) >= 0,
    decreases d, k,
{
    if !(k <= 0 || d == 0 || k > move_space()) {
        lemma_perft_sum_nonneg(g, d, k - 1);
        if legal(g, move_at(k - 1)) {
            lemma_perft_nonneg(game_after(g, move_at(k - 1)), (d - 1) as nat);
        }
    }
}

/// The sum over legal moves, written with `dsum`.
pub proof fn lemma_perft_sum_is_dsum(g: Game, d: nat, k: int)
    requires
        d > 0,
        0 <= k <= move_space(),
    ensures
        perft_sum(g, d, k) == dsum(|m: Move| perft_count(game_after(g, m), (d - 1) as nat), |m: Move| legal(g, m), k),
    decreases k,
{
    if k > 0 {
        lemma_perft_sum_is_dsum(g, d, k - 1);
    }
}

} // verus!
