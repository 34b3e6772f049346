//! Bitboards as sets of squares: a bit of a `u64` per square, bit `s` for square `s`.
use vstd::prelude::*;

verus! {

/// Square `s` belongs to the set `b`.
pub open spec fn holds(b: u64, s: int) -> bool {
    0 <= s < 64 && (b >> (s as u64)) & 1 == 1
}

/// File (column, 0 = a) of a square.
pub open spec fn file_of(s: int) -> int {
    s % 8
}

/// Rank (row, 0 = first rank) of a square.
pub open spec fn rank_of(s: int) -> int {
    s / 8
}

/// The square on file `f` and rank `r`.
pub open spec fn square_at(f: int, r: int) -> int {
    r * 8 + f
}

pub open spec fn on_board(f: int, r: int) -> bool {
    0 <= f < 8 && 0 <= r < 8
}

/// Number of squares in a set.
pub open spec fn pop(b: u64) -> nat
    decreases b,
{
    if b == 0 {
        0
    } else {
        (b % 2) as nat + pop(b / 2)
    }
}

pub proof fn lemma_square_coords(s: int)
    requires
        0 <= s < 64,
    ensures
        on_board(file_of(s), rank_of(s)),
        square_at(file_of(s), rank_of(s)) == s,
{
}

pub proof fn lemma_coords_square(f: int, r: int)
    requires
        on_board(f, r),
    ensures
        0 <= square_at(f, r) < 64,
        file_of(square_at(f, r)) == f,
        rank_of(square_at(f, r)) == r,
{
}

pub broadcast proof fn lemma_has_or(a: u64, b: u64, s: int)
    ensures
        #[trigger] holds(a | b, s) == (holds(a, s) || holds(b, s)),
{
    if 0 <= s < 64 {
        let u = s as u64;
        assert((((a | b) >> u) & 1 == 1) == (((a >> u) & 1 == 1) || ((b >> u) & 1 == 1))) by (bit_vector);
    }
}

pub broadcast proof fn lemma_has_and(a: u64, b: u64, s: int)
    ensures
        #[trigger] holds(a & b, s) == (holds(a, s) && holds(b, s)),
{
    if 0 <= s < 64 {
        let u = s as u64;
        assert((((a & b) >> u) & 1 == 1) == (((a >> u) & 1 == 1) && ((b >> u) & 1 == 1))) by (bit_vector);
    }
}

pub broadcast proof fn lemma_has_not(a: u64, s: int)
    ensures
        #[trigger] holds(!a, s) == (0 <= s < 64 && !holds(a, s)),
{
    if 0 <= s < 64 {
        let u = s as u64;
        assert(((((!a) >> u) & 1) == 1) == !(((a >> u) & 1) == 1)) by (bit_vector)
            requires
                u < 64,
        ;
    }
}

pub broadcast proof fn lemma_has_single(s: u64, t: int)
    requires
        s < 64,
    ensures
        #[trigger] holds(1u64 << s, t) == (t == s),
{
    if 0 <= t < 64 {
        let u = t as u64;
        assert(((((1u64 << s) >> u) & 1) == 1) == (u == s)) by (bit_vector)
            requires
                s < 64,
                u < 64,
        ;
    }
}

pub broadcast proof fn lemma_has_zero(s: int)
    ensures
        !#[trigger] holds(0u64, s),
{
    if 0 <= s < 64 {
        let u = s as u64;
        assert(((0u64 >> u) & 1) == 0) by (bit_vector);
    }
}

pub broadcast group group_bits {
    lemma_has_or,
    lemma_has_and,
    lemma_has_not,
    lemma_has_single,
    lemma_has_zero,
}

/// Two bitboards with the same squares are equal.
pub proof fn lemma_bits_ext(a: u64, b: u64)
    requires
        forall|s: int| 0 <= s < 64 ==> holds(a, s) == holds(b, s),
    ensures
        a == b,
{
    assert(holds(a, 0) == holds(b, 0));
    assert(holds(a, 1) == holds(b, 1));
    assert(holds(a, 2) == holds(b, 2));
    assert(holds(a, 3) == holds(b, 3));
    assert(holds(a, 4) == holds(b, 4));
    assert(holds(a, 5) == holds(b, 5));
    assert(holds(a, 6) == holds(b, 6));
    assert(holds(a, 7) == holds(b, 7));
    assert(holds(a, 8) == holds(b, 8));
    assert(holds(a, 9) == holds(b, 9));
    assert(holds(a, 10) == holds(b, 10));
    assert(holds(a, 11) == holds(b, 11));
    assert(holds(a, 12) == holds(b, 12));
    assert(holds(a, 13) == holds(b, 13));
    assert(holds(a, 14) == holds(b, 14));
    assert(holds(a, 15) == holds(b, 15));
    assert(holds(a, 16) == holds(b, 16));
    assert(holds(a, 17) == holds(b, 17));
    assert(holds(a, 18) == holds(b, 18));
    assert(holds(a, 19) == holds(b, 19));
    assert(holds(a, 20) == holds(b, 20));
    assert(holds(a, 21) == holds(b, 21));
    assert(holds(a, 22) == holds(b, 22));
    assert(holds(a, 23) == holds(b, 23));
    assert(holds(a, 24) == holds(b, 24));
    assert(holds(a, 25) == holds(b, 25));
    assert(holds(a, 26) == holds(b, 26));
    assert(holds(a, 27) == holds(b, 27));
    assert(holds(a, 28) == holds(b, 28));
    assert(holds(a, 29) == holds(b, 29));
    assert(holds(a, 30) == holds(b, 30));
    assert(holds(a, 31) == holds(b, 31));
    assert(holds(a, 32) == holds(b, 32));
    assert(holds(a, 33) == holds(b, 33));
    assert(holds(a, 34) == holds(b, 34));
    assert(holds(a, 35) == holds(b, 35));
    assert(holds(a, 36) == holds(b, 36));
    assert(holds(a, 37) == holds(b, 37));
    assert(holds(a, 38) == holds(b, 38));
    assert(holds(a, 39) == holds(b, 39));
    assert(holds(a, 40) == holds(b, 40));
    assert(holds(a, 41) == holds(b, 41));
    assert(holds(a, 42) == holds(b, 42));
    assert(holds(a, 43) == holds(b, 43));
    assert(holds(a, 44) == holds(b, 44));
    assert(holds(a, 45) == holds(b, 45));
    assert(holds(a, 46) == holds(b, 46));
    assert(holds(a, 47) == holds(b, 47));
    assert(holds(a, 48) == holds(b, 48));
    assert(holds(a, 49) == holds(b, 49));
    assert(holds(a, 50) == holds(b, 50));
    assert(holds(a, 51) == holds(b, 51));
    assert(holds(a, 52) == holds(b, 52));
    assert(holds(a, 53) == holds(b, 53));
    assert(holds(a, 54) == holds(b, 54));
    assert(holds(a, 55) == holds(b, 55));
    assert(holds(a, 56) == holds(b, 56));
    assert(holds(a, 57) == holds(b, 57));
    assert(holds(a, 58) == holds(b, 58));
    assert(holds(a, 59) == holds(b, 59));
    assert(holds(a, 60) == holds(b, 60));
    assert(holds(a, 61) == holds(b, 61));
    assert(holds(a, 62) == holds(b, 62));
    assert(holds(a, 63) == holds(b, 63));
    assert(a == b) by (bit_vector)
        requires
            (((a >> 0u64) & 1) == 1) == (((b >> 0u64) & 1) == 1),
            (((a >> 1u64) & 1) == 1) == (((b >> 1u64) & 1) == 1),
            (((a >> 2u64) & 1) == 1) == (((b >> 2u64) & 1) == 1),
            (((a >> 3u64) & 1) == 1) == (((b >> 3u64) & 1) == 1),
            (((a >> 4u64) & 1) == 1) == (((b >> 4u64) & 1) == 1),
            (((a >> 5u64) & 1) == 1) == (((b >> 5u64) & 1) == 1),
            (((a >> 6u64) & 1) == 1) == (((b >> 6u64) & 1) == 1),
            (((a >> 7u64) & 1) == 1) == (((b >> 7u64) & 1) == 1),
            (((a >> 8u64) & 1) == 1) == (((b >> 8u64) & 1) == 1),
            (((a >> 9u64) & 1) == 1) == (((b >> 9u64) & 1) == 1),
            (((a >> 10u64) & 1) == 1) == (((b >> 10u64) & 1) == 1),
            (((a >> 11u64) & 1) == 1) == (((b >> 11u64) & 1) == 1),
            (((a >> 12u64) & 1) == 1) == (((b >> 12u64) & 1) == 1),
            (((a >> 13u64) & 1) == 1) == (((b >> 13u64) & 1) == 1),
            (((a >> 14u64) & 1) == 1) == (((b >> 14u64) & 1) == 1),
            (((a >> 15u64) & 1) == 1) == (((b >> 15u64) & 1) == 1),
            (((a >> 16u64) & 1) == 1) == (((b >> 16u64) & 1) == 1),
            (((a >> 17u64) & 1) == 1) == (((b >> 17u64) & 1) == 1),
            (((a >> 18u64) & 1) == 1) == (((b >> 18u64) & 1) == 1),
            (((a >> 19u64) & 1) == 1) == (((b >> 19u64) & 1) == 1),
            (((a >> 20u64) & 1) == 1) == (((b >> 20u64) & 1) == 1),
            (((a >> 21u64) & 1) == 1) == (((b >> 21u64) & 1) == 1),
            (((a >> 22u64) & 1) == 1) == (((b >> 22u64) & 1) == 1),
            (((a >> 23u64) & 1) == 1) == (((b >> 23u64) & 1) == 1),
            (((a >> 24u64) & 1) == 1) == (((b >> 24u64) & 1) == 1),
            (((a >> 25u64) & 1) == 1) == (((b >> 25u64) & 1) == 1),
            (((a >> 26u64) & 1) == 1) == (((b >> 26u64) & 1) == 1),
            (((a >> 27u64) & 1) == 1) == (((b >> 27u64) & 1) == 1),
            (((a >> 28u64) & 1) == 1) == (((b >> 28u64) & 1) == 1),
            (((a >> 29u64) & 1) == 1) == (((b >> 29u64) & 1) == 1),
            (((a >> 30u64) & 1) == 1) == (((b >> 30u64) & 1) == 1),
            (((a >> 31u64) & 1) == 1) == (((b >> 31u64) & 1) == 1),
            (((a >> 32u64) & 1) == 1) == (((b >> 32u64) & 1) == 1),
            (((a >> 33u64) & 1) == 1) == (((b >> 33u64) & 1) == 1),
            (((a >> 34u64) & 1) == 1) == (((b >> 34u64) & 1) == 1),
            (((a >> 35u64) & 1) == 1) == (((b >> 35u64) & 1) == 1),
            (((a >> 36u64) & 1) == 1) == (((b >> 36u64) & 1) == 1),
            (((a >> 37u64) & 1) == 1) == (((b >> 37u64) & 1) == 1),
            (((a >> 38u64) & 1) == 1) == (((b >> 38u64) & 1) == 1),
            (((a >> 39u64) & 1) == 1) == (((b >> 39u64) & 1) == 1),
            (((a >> 40u64) & 1) == 1) == (((b >> 40u64) & 1) == 1),
            (((a >> 41u64) & 1) == 1) == (((b >> 41u64) & 1) == 1),
            (((a >> 42u64) & 1) == 1) == (((b >> 42u64) & 1) == 1),
            (((a >> 43u64) & 1) == 1) == (((b >> 43u64) & 1) == 1),
            (((a >> 44u64) & 1) == 1) == (((b >> 44u64) & 1) == 1),
            (((a >> 45u64) & 1) == 1) == (((b >> 45u64) & 1) == 1),
            (((a >> 46u64) & 1) == 1) == (((b >> 46u64) & 1) == 1),
            (((a >> 47u64) & 1) == 1) == (((b >> 47u64) & 1) == 1),
            (((a >> 48u64) & 1) == 1) == (((b >> 48u64) & 1) == 1),
            (((a >> 49u64) & 1) == 1) == (((b >> 49u64) & 1) == 1),
            (((a >> 50u64) & 1) == 1) == (((b >> 50u64) & 1) == 1),
            (((a >> 51u64) & 1) == 1) == (((b >> 51u64) & 1) == 1),
            (((a >> 52u64) & 1) == 1) == (((b >> 52u64) & 1) == 1),
            (((a >> 53u64) & 1) == 1) == (((b >> 53u64) & 1) == 1),
            (((a >> 54u64) & 1) == 1) == (((b >> 54u64) & 1) == 1),
            (((a >> 55u64) & 1) == 1) == (((b >> 55u64) & 1) == 1),
            (((a >> 56u64) & 1) == 1) == (((b >> 56u64) & 1) == 1),
            (((a >> 57u64) & 1) == 1) == (((b >> 57u64) & 1) == 1),
            (((a >> 58u64) & 1) == 1) == (((b >> 58u64) & 1) == 1),
            (((a >> 59u64) & 1) == 1) == (((b >> 59u64) & 1) == 1),
            (((a >> 60u64) & 1) == 1) == (((b >> 60u64) & 1) == 1),
            (((a >> 61u64) & 1) == 1) == (((b >> 61u64) & 1) == 1),
            (((a >> 62u64) & 1) == 1) == (((b >> 62u64) & 1) == 1),
            (((a >> 63u64) & 1) == 1) == (((b >> 63u64) & 1) == 1),
    ;
}

/// A set with no square is the empty bitboard.
pub proof fn lemma_empty_ext(a: u64)
    requires
        forall|s: int| 0 <= s < 64 ==> !holds(a, s),
    ensures
        a == 0,
{
    broadcast use lemma_has_zero;
    lemma_bits_ext(a, 0);
}

/// The bitboard that holds square `s` alone.
pub fn bit(s: usize) -> (r: u64)
    requires
        s < 64,
    ensures
        r == 1u64 << (s as u64),
        forall|t: int| #[trigger] holds(r, t) <==> t == s,
{
    let r = 1u64 << (s as u64);
    proof {
        assert forall|t: int| #[trigger] holds(r, t) <==> t == s by {
            lemma_has_single(s as u64, t);
        }
    }
    r
}

/// Whether square `s` is in `b`.
pub fn is_set(b: u64, s: usize) -> (r: bool)
    requires
        s < 64,
    ensures
        r == holds(b, s as int),
{
    (b >> s) & 1 == 1
}

/// The lowest square of a non-empty set.
pub fn lowest_square(b: u64) -> (s: usize)
    requires
        b != 0,
    ensures
        s < 64,
        s == vstd::std_specs::bits::u64_trailing_zeros(b),
        holds(b, s as int),
        forall|j: int| 0 <= j < s ==> !#[trigger] holds(b, j),
{
    proof {
        vstd::std_specs::bits::axiom_u64_trailing_zeros(b);
    }
    let z = b.trailing_zeros();
    proof {
        assert forall|j: int| 0 <= j < z implies !#[trigger] holds(b, j) by {
            let u = j as u64;
            assert((b >> u) & 1u64 == 0u64);
        }
    }
    z as usize
}

/// The set `b` without square `s`.
pub fn without(b: u64, s: usize) -> (r: u64)
    requires
        s < 64,
    ensures
        forall|t: int| #[trigger] holds(r, t) <==> (holds(b, t) && t != s),
        holds(b, s as int) ==> r < b,
        r <= b,
{
    let m = bit(s);
    let r = b & !m;
    proof {
        broadcast use group_bits;
        let u = s as u64;
        assert(((b >> u) & 1 == 1) ==> (b & !(1u64 << u)) < b) by (bit_vector)
            requires
                u < 64,
        ;
        assert((b & !(1u64 << u)) <= b) by (bit_vector);
    }
    r
}

/// Number of squares in `b`.
pub fn count_squares(b: u64) -> (r: u32)
    ensures
        r == pop(b),
        r <= 64,
{
    let mut x = b;
    let mut c: u32 = 0;
    let mut i: u64 = 0;
    assert(b <= (0xffff_ffff_ffff_ffffu64 >> 0u64)) by (bit_vector);
    while i < 64
        invariant
            i <= 64,
            c <= i,
            c + pop(x) == pop(b),
            i < 64 ==> x <= (0xffff_ffff_ffff_ffffu64 >> i),
            i == 64 ==> x == 0,
        decreases 64 - i,
    {
        let lo = x & 1;
        proof {
            assert((x & 1) == x % 2) by (bit_vector);
            assert((x >> 1) == x / 2) by (bit_vector);
            assert(x <= (0xffff_ffff_ffff_ffffu64 >> i) ==> (i + 1 < 64 ==> (x >> 1) <= (
            0xffff_ffff_ffff_ffffu64 >> (i + 1))) && (i + 1 == 64 ==> (x >> 1) == 0)) by (bit_vector)
                requires
                    i < 64,
            ;
        }
        x = x >> 1;
        c = c + lo as u32;
        i = i + 1;
    }
    c
}


/// The squares of file `f`.
pub open spec fn file_mask(f: int) -> u64 {
    0x0101010101010101u64 << (f as u64)
}

pub proof fn lemma_file_mask(f: int, t: int)
    requires
        0 <= f < 8,
    ensures
        holds(file_mask(f), t) == (0 <= t < 64 && file_of(t) == f),
{
    if 0 <= t < 64 {
        let fu = f as u64;
        let tu = t as u64;
        assert((((0x0101010101010101u64 << fu) >> tu) & 1 == 1) == ((tu & 7) == fu)) by (bit_vector)
            requires
                fu < 8,
                tu < 64,
        ;
        assert((tu & 7) == tu % 8) by (bit_vector);
    }
}

/// The squares of file `f`.
pub fn file_bits(f: usize) -> (r: u64)
    requires
        f < 8,
    ensures
        r == file_mask(f as int),
        forall|t: int| #[trigger] holds(r, t) == (0 <= t < 64 && file_of(t) == f),
{
    proof {
        assert forall|t: int| #[trigger] holds(file_mask(f as int), t) == (0 <= t < 64 && file_of(t) == f) by {
            lemma_file_mask(f as int, t);
        }
    }
    0x0101010101010101u64 << (f as u64)
}


/// The squares at or above `n`.
pub proof fn lemma_high_mask(n: u64, t: int)
    requires
        n < 64,
    ensures
        holds(0xffff_ffff_ffff_ffffu64 << n, t) == (n <= t < 64),
{
    if 0 <= t < 64 {
        let tu = t as u64;
        assert((((0xffff_ffff_ffff_ffffu64 << n) >> tu) & 1 == 1) == (n <= tu)) by (bit_vector)
            requires
                n < 64,
                tu < 64,
        ;
    }
}

/// The squares below `n`.
pub proof fn lemma_low_mask(n: u64, t: int)
    requires
        n < 64,
    ensures
        holds(((1u64 << n) - 1) as u64, t) == (0 <= t < n),
{
    if 0 <= t < 64 {
        let tu = t as u64;
        assert(((((1u64 << n) - 1) as u64 >> tu) & 1 == 1) == (tu < n)) by (bit_vector)
            requires
                n < 64,
                tu < 64,
        ;
    }
}

} // verus!
