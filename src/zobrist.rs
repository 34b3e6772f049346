//! Zobrist keys: one random 64-bit key per (side, piece kind, square), per castling-rights
//! value, per en-passant file, and for the side to move.
use vstd::prelude::*;
use crate::bitboard::{Piece, piece_index};

verus! {

/// rand's `StdRng`, held opaque: the generator the keys are drawn from.
#[verifier::external_type_specification]
#[verifier::external_body]
pub struct ExStdRng(rand::rngs::StdRng);

/// Relies on rand's `SeedableRng::seed_from_u64`: a generator whose stream the seed fixes.
#[verifier::external_body]
fn seeded_rng(seed: u64) -> rand::rngs::StdRng {
    <rand::rngs::StdRng as rand::SeedableRng>::seed_from_u64(seed)
}

/// Relies on rand's `Rng::random`: the next 64-bit value of the generator's stream.
#[verifier::external_body]
fn next_key(rng: &mut rand::rngs::StdRng) -> u64 {
    rand::Rng::random::<u64>(rng)
}

/// The seed the keys are drawn from, so that hashes agree from run to run.
pub const KEY_SEED: u64 = 0x12345678abcdef;

#[derive(Clone)]
pub struct ZobristKeys {
    /// Indexed by `(side * 6 + piece) * 64 + square`, side 0 for white.
    pub piece_keys: Vec<u64>,
    /// Indexed by the four castling-rights bits.
    pub castling_keys: Vec<u64>,
    /// Indexed by the en-passant file.
    pub en_passent_keys: Vec<u64>,
    pub side_to_move_key: u64,
}

pub open spec fn side_index(white: bool) -> int {
    if white {
        0
    } else {
        1
    }
}

pub open spec fn key_index(white: bool, p: Piece, s: int) -> int {
    (side_index(white) * 6 + piece_index(p)) * 64 + s
}

impl ZobristKeys {
    pub open spec fn wf(&self) -> bool {
        self.piece_keys@.len() == 768 && self.castling_keys@.len() == 16
            && self.en_passent_keys@.len() == 8
    }

    pub open spec fn piece_key(&self, white: bool, p: Piece, s: int) -> u64 {
        self.piece_keys@[key_index(white, p, s)]
    }

    /// Draws the keys from the generator seeded with `KEY_SEED`.
    pub fn new() -> (r: Self)
        ensures
            r.wf(),
    {
        let mut rng = seeded_rng(KEY_SEED);
        let piece_keys = draw(&mut rng, 768);
        let castling_keys = draw(&mut rng, 16);
        let en_passent_keys = draw(&mut rng, 8);
        let side_to_move_key = next_key(&mut rng);
        ZobristKeys { piece_keys, castling_keys, en_passent_keys, side_to_move_key }
    }

    /// The key of piece `p` of side `white` on `s`.
    pub fn piece(&self, white: bool, p: Piece, s: usize) -> (r: u64)
        requires
            self.wf(),
            s < 64,
        ensures
            r == self.piece_key(white, p, s as int),
    {
        let side: usize = if white { 0 } else { 1 };
        self.piece_keys[(side * 6 + p.to_index()) * 64 + s]
    }

    /// The key of the castling-rights value `c` (its four low bits).
    pub fn castling(&self, c: u8) -> (r: u64)
        requires
            self.wf(),
        ensures
            r == self.castling_keys@[(c & 15) as int],
    {
        proof {
            assert(c & 15 < 16) by (bit_vector);
        }
        self.castling_keys[(c & 15) as usize]
    }

    /// The key of the en-passant target, zero when there is none.
    pub fn en_passant(&self, ep: Option<usize>) -> (r: u64)
        requires
            self.wf(),
        ensures
            r == ep_key(self, ep),
    {
        match ep {
            Some(s) => self.en_passent_keys[s % 8],
            None => 0,
        }
    }
}

pub open spec fn ep_key(keys: &ZobristKeys, ep: Option<usize>) -> u64 {
    match ep {
        Some(s) => keys.en_passent_keys@[(s % 8) as int],
        None => 0,
    }
}

/// `n` values of the generator's stream.
fn draw(rng: &mut rand::rngs::StdRng, n: usize) -> (r: Vec<u64>)
    ensures
        r@.len() == n,
{
    let mut v: Vec<u64> = Vec::new();
    let mut i: usize = 0;
    while i < n
        invariant
            i <= n,
            v@.len() == i,
        decreases n - i,
    {
        v.push(next_key(rng));
        i = i + 1;
    }
    v
}

} // verus!
