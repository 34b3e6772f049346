//! Sums over the squares of a bitboard.
use vstd::prelude::*;
use crate::bits::{group_bits, holds, lowest_square, without};

verus! {

broadcast use group_bits;

/// Sum of `f(s)` over the squares `s < n` of `b`.
pub open spec fn sum_upto(b: u64, f: spec_fn(int) -> int, n: int) -> int
    decreases n,
{
    if n <= 0 {
        0
    } else {
        sum_upto(b, f, n - 1) + if holds(b, n - 1) {
            f(n - 1)
        } else {
            0
        }
    }
}

/// Sum of `f(s)` over the squares of `b`.
pub open spec fn sum_set(b: u64, f: spec_fn(int) -> int) -> int {
    sum_upto(b, f, 64)
}

pub proof fn lemma_sum_skip(b: u64, f: spec_fn(int) -> int, lo: int, s: int)
    requires
        0 <= lo <= s,
        forall|t: int| lo <= t < s ==> !#[trigger] holds(b, t),
    ensures
        sum_upto(b, f, s) == sum_upto(b, f, lo),
    decreases s - lo,
{
    if s > lo {
        lemma_sum_skip(b, f, lo, s - 1);
    }
}

pub proof fn lemma_sum_bound(b: u64, f: spec_fn(int) -> int, n: int, m: int)
    requires
        0 <= n <= 64,
        0 <= m,
        forall|t: int| 0 <= t < 64 ==> -m <= #[trigger] f(t) <= m,
    ensures
        -(n * m) <= sum_upto(b, f, n) <= n * m,
    decreases n,
{
    if n > 0 {
        lemma_sum_bound(b, f, n - 1, m);
        assert(-m <= f(n - 1) <= m);
        assert((n - 1) * m + m == n * m) by (nonlinear_arith);
    } else {
        assert(n * m == 0) by (nonlinear_arith)
            requires
                n == 0,
        ;
    }
}

pub proof fn lemma_sum_zero(b: u64, f: spec_fn(int) -> int, n: int)
    requires
        forall|s: int| #[trigger] f(s) == 0,
    ensures
        sum_upto(b, f, n) == 0,
    decreases n,
{
    if n > 0 {
        lemma_sum_zero(b, f, n - 1);
    }
}

/// Sum of `f` over the squares of `b`, where `f` computes `g` and `|g| <= m`.
pub(crate) fn sum_over<F: Fn(usize) -> i64>(b: u64, f: F, Ghost(g): Ghost<spec_fn(int) -> int>, Ghost(m): Ghost<int>) -> (r: i64)
    requires
        0 <= m <= 100_000_000,
        forall|s: usize| s < 64 ==> #[trigger] f.requires((s,)),
        forall|s: usize, v: i64| s < 64 && #[trigger] f.ensures((s,), v) ==> v == g(s as int),
        forall|t: int| 0 <= t < 64 ==> -m <= #[trigger] g(t) <= m,
    ensures
        r == sum_set(b, g),
        -(64 * m) <= r <= 64 * m,
{
    let mut rem = b;
    let mut acc: i64 = 0;
    let ghost mut lo: int = 0;
    proof {
        lemma_sum_bound(b, g, 64, m);
    }
    while rem != 0
        invariant
            0 <= lo <= 64,
            0 <= m <= 100_000_000,
            forall|s: usize| s < 64 ==> #[trigger] f.requires((s,)),
            forall|s: usize, v: i64| s < 64 && #[trigger] f.ensures((s,), v) ==> v == g(s as int),
            forall|t: int| 0 <= t < 64 ==> -m <= #[trigger] g(t) <= m,
            forall|t: int| #[trigger] holds(rem, t) <==> (holds(b, t) && t >= lo),
            acc == sum_upto(b, g, lo),
        decreases rem,
    {
        let s = lowest_square(rem);
        proof {
            assert forall|t: int| lo <= t < s implies !#[trigger] holds(b, t) by {
                if holds(b, t) {
                    assert(holds(rem, t));
                }
            }
            lemma_sum_skip(b, g, lo, s as int);
            lemma_sum_bound(b, g, s as int + 1, m);
            lemma_sum_bound(b, g, s as int, m);
            assert((s as int) * m <= 64 * m) by (nonlinear_arith)
                requires
                    s < 64,
                    0 <= m,
            ;
            assert((s as int + 1) * m <= 64 * m) by (nonlinear_arith)
                requires
                    s < 64,
                    0 <= m,
            ;
            assert(-m <= g(s as int) <= m);
        }
        let v = f(s);
        acc = acc + v;
        rem = without(rem, s);
        proof {
            lo = s + 1;
        }
    }
    proof {
        assert forall|t: int| lo <= t < 64 implies !#[trigger] holds(b, t) by {
            if holds(b, t) {
                assert(holds(rem, t));
            }
        }
        lemma_sum_skip(b, g, lo, 64);
    }
    acc
}

} // verus!
