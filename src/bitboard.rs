//! The position's twelve piece sets and the queries on them.
use vstd::prelude::*;
use crate::bits::{group_bits, holds, is_set, lemma_empty_ext, lemma_coords_square, lemma_square_coords, file_of, rank_of};
use crate::geometry::{bishop_reaches, bishop_targets, is_square, king_step, king_targets, knight_step, knight_targets, pawn_hit, pawn_hits, pawn_push_target, pawn_push_targets, ray_reaches, ray_index, ray_square, step_of, queen_reaches, rook_reaches, rook_targets};

verus! {

broadcast use group_bits;

#[derive(Debug, Clone, Copy, PartialEq, Eq, Structural)]
pub enum Piece {
    King,
    Queen,
    Rook,
    Bishop,
    Knight,
    Pawn,
}

/// Index of a piece kind: pawn 0, knight 1, bishop 2, rook 3, queen 4, king 5.
pub open spec fn piece_index(p: Piece) -> int {
    match p {
        Piece::Pawn => 0,
        Piece::Knight => 1,
        Piece::Bishop => 2,
        Piece::Rook => 3,
        Piece::Queen => 4,
        Piece::King => 5,
    }
}

impl Piece {
    pub fn from_index(index: usize) -> (r: Option<Self>)
        ensures
            r.is_some() <==> index < 6,
            r.is_some() ==> piece_index(r.unwrap()) == index,
    {
        match index {
            0 => Some(Piece::Pawn),
            1 => Some(Piece::Knight),
            2 => Some(Piece::Bishop),
            3 => Some(Piece::Rook),
            4 => Some(Piece::Queen),
            5 => Some(Piece::King),
            _ => None,
        }
    }

    pub fn to_index(&self) -> (r: usize)
        ensures
            r == piece_index(*self),
    {
        match self {
            Piece::Pawn => 0,
            Piece::Knight => 1,
            Piece::Bishop => 2,
            Piece::Rook => 3,
            Piece::Queen => 4,
            Piece::King => 5,
        }
    }
}

#[derive(Clone, Copy, Debug, PartialEq, Eq, Structural)]
pub struct Bitboard {
    pub white_king: u64,
    pub white_queen: u64,
    pub white_rook: u64,
    pub white_bishop: u64,
    pub white_knight: u64,
    pub white_pawns: u64,
    pub black_king: u64,
    pub black_queen: u64,
    pub black_rook: u64,
    pub black_bishop: u64,
    pub black_knight: u64,
    pub black_pawns: u64,
}

impl Default for Bitboard {
    /// The starting position.
    fn default() -> (r: Self)
        ensures
            r == Bitboard::start(),
    {
        Bitboard::new()
    }
}

/// Side index of the pawn tables: 0 for white, 1 for black.
pub open spec fn colour_is_white(colour: usize) -> bool {
    colour == 0
}

impl Bitboard {
    /// The set of pieces of kind `p` and side `white`.
    pub open spec fn bb(&self, p: Piece, white: bool) -> u64 {
        if white {
            match p {
                Piece::King => self.white_king,
                Piece::Queen => self.white_queen,
                Piece::Rook => self.white_rook,
                Piece::Bishop => self.white_bishop,
                Piece::Knight => self.white_knight,
                Piece::Pawn => self.white_pawns,
            }
        } else {
            match p {
                Piece::King => self.black_king,
                Piece::Queen => self.black_queen,
                Piece::Rook => self.black_rook,
                Piece::Bishop => self.black_bishop,
                Piece::Knight => self.black_knight,
                Piece::Pawn => self.black_pawns,
            }
        }
    }

    /// This board with the set of `(p, white)` replaced by `v`.
    pub open spec fn with_bb(self, p: Piece, white: bool, v: u64) -> Bitboard {
        if white {
            match p {
                Piece::King => Bitboard { white_king: v, ..self },
                Piece::Queen => Bitboard { white_queen: v, ..self },
                Piece::Rook => Bitboard { white_rook: v, ..self },
                Piece::Bishop => Bitboard { white_bishop: v, ..self },
                Piece::Knight => Bitboard { white_knight: v, ..self },
                Piece::Pawn => Bitboard { white_pawns: v, ..self },
            }
        } else {
            match p {
                Piece::King => Bitboard { black_king: v, ..self },
                Piece::Queen => Bitboard { black_queen: v, ..self },
                Piece::Rook => Bitboard { black_rook: v, ..self },
                Piece::Bishop => Bitboard { black_bishop: v, ..self },
                Piece::Knight => Bitboard { black_knight: v, ..self },
                Piece::Pawn => Bitboard { black_pawns: v, ..self },
            }
        }
    }

    pub open spec fn white_occ(&self) -> u64 {
        self.white_king | self.white_queen | self.white_rook | self.white_bishop | self.white_knight
            | self.white_pawns
    }

    pub open spec fn black_occ(&self) -> u64 {
        self.black_king | self.black_queen | self.black_rook | self.black_bishop | self.black_knight
            | self.black_pawns
    }

    pub open spec fn side_occ(&self, white: bool) -> u64 {
        if white {
            self.white_occ()
        } else {
            self.black_occ()
        }
    }

    pub open spec fn occ(&self) -> u64 {
        self.white_occ() | self.black_occ()
    }

    /// Square `s` holds a piece of side `white`.
    pub open spec fn side_on(&self, white: bool, s: int) -> bool {
        holds(self.bb(Piece::Pawn, white), s) || holds(self.bb(Piece::Knight, white), s) || holds(
            self.bb(Piece::Bishop, white),
            s,
        ) || holds(self.bb(Piece::Rook, white), s) || holds(self.bb(Piece::Queen, white), s)
            || holds(self.bb(Piece::King, white), s)
    }

    /// The piece of side `white` on `t` attacks `s`, sliders seeing through `occ`.
    pub open spec fn attacks_from(&self, white: bool, t: int, s: int, occ: u64) -> bool {
        (holds(self.bb(Piece::Pawn, white), t) && pawn_hit(white, t, s)) || (holds(
            self.bb(Piece::Knight, white),
            t,
        ) && knight_step(t, s)) || (holds(self.bb(Piece::Bishop, white), t) && bishop_reaches(
            t,
            s,
            occ,
        )) || (holds(self.bb(Piece::Rook, white), t) && rook_reaches(t, s, occ)) || (holds(
            self.bb(Piece::Queen, white),
            t,
        ) && queen_reaches(t, s, occ)) || (holds(self.bb(Piece::King, white), t) && king_step(t, s))
    }

    /// Square `s` is attacked by side `white` on this board.
    pub open spec fn attacked(&self, s: int, white: bool) -> bool {
        exists|t: int| #[trigger] self.attacks_from(white, t, s, self.occ())
    }

    /// The starting position.
    pub fn new() -> (r: Self)
        ensures
            r == Self::start(),
    {
        Bitboard {
            white_king: 0x0000000000000010,
            white_queen: 0x0000000000000008,
            white_rook: 0x0000000000000081,
            white_bishop: 0x0000000000000024,
            white_knight: 0x0000000000000042,
            white_pawns: 0x000000000000FF00,
            black_king: 0x1000000000000000,
            black_queen: 0x0800000000000000,
            black_rook: 0x8100000000000000,
            black_bishop: 0x2400000000000000,
            black_knight: 0x4200000000000000,
            black_pawns: 0x00FF000000000000,
        }
    }

    pub open spec fn start() -> Bitboard {
        Bitboard {
            white_king: 0x0000000000000010,
            white_queen: 0x0000000000000008,
            white_rook: 0x0000000000000081,
            white_bishop: 0x0000000000000024,
            white_knight: 0x0000000000000042,
            white_pawns: 0x000000000000FF00,
            black_king: 0x1000000000000000,
            black_queen: 0x0800000000000000,
            black_rook: 0x8100000000000000,
            black_bishop: 0x2400000000000000,
            black_knight: 0x4200000000000000,
            black_pawns: 0x00FF000000000000,
        }
    }

    /// A board with no piece.
    pub fn empty() -> (r: Self)
        ensures
            r.occ() == 0,
            forall|p: Piece, w: bool| r.bb(p, w) == 0,
    {
        let r = Bitboard {
            white_king: 0,
            white_queen: 0,
            white_rook: 0,
            white_bishop: 0,
            white_knight: 0,
            white_pawns: 0,
            black_king: 0,
            black_queen: 0,
            black_rook: 0,
            black_bishop: 0,
            black_knight: 0,
            black_pawns: 0,
        };
        assert((0u64 | 0u64 | 0u64 | 0u64 | 0u64 | 0u64) | (0u64 | 0u64 | 0u64 | 0u64 | 0u64 | 0u64) == 0u64) by (bit_vector);
        r
    }

    pub fn white_pieces(&self) -> (r: u64)
        ensures
            r == self.white_occ(),
    {
        self.white_king | self.white_queen | self.white_rook | self.white_bishop | self.white_knight
            | self.white_pawns
    }

    pub fn black_pieces(&self) -> (r: u64)
        ensures
            r == self.black_occ(),
    {
        self.black_king | self.black_queen | self.black_rook | self.black_bishop | self.black_knight
            | self.black_pawns
    }

    pub fn all_pieces(&self) -> (r: u64)
        ensures
            r == self.occ(),
    {
        self.white_pieces() | self.black_pieces()
    }

    /// The pieces of side `white`.
    pub fn side_pieces(&self, white: bool) -> (r: u64)
        ensures
            r == self.side_occ(white),
    {
        if white {
            self.white_pieces()
        } else {
            self.black_pieces()
        }
    }

    /// The set of pieces of kind `piece` and side `is_white`.
    pub fn get_board(&self, piece: Piece, is_white: bool) -> (r: u64)
        ensures
            r == self.bb(piece, is_white),
    {
        if is_white {
            match piece {
                Piece::King => self.white_king,
                Piece::Queen => self.white_queen,
                Piece::Rook => self.white_rook,
                Piece::Bishop => self.white_bishop,
                Piece::Knight => self.white_knight,
                Piece::Pawn => self.white_pawns,
            }
        } else {
            match piece {
                Piece::King => self.black_king,
                Piece::Queen => self.black_queen,
                Piece::Rook => self.black_rook,
                Piece::Bishop => self.black_bishop,
                Piece::Knight => self.black_knight,
                Piece::Pawn => self.black_pawns,
            }
        }
    }

    /// A mutable handle on the set of pieces of kind `piece` and side `is_white`.
    pub fn get_mut_board(&mut self, piece: Piece, is_white: bool) -> (r: &mut u64)
        ensures
            *r == old(self).bb(piece, is_white),
            *final(self) == old(self).with_bb(piece, is_white, *final(r)),
    {
        if is_white {
            match piece {
                Piece::King => &mut self.white_king,
                Piece::Queen => &mut self.white_queen,
                Piece::Rook => &mut self.white_rook,
                Piece::Bishop => &mut self.white_bishop,
                Piece::Knight => &mut self.white_knight,
                Piece::Pawn => &mut self.white_pawns,
            }
        } else {
            match piece {
                Piece::King => &mut self.black_king,
                Piece::Queen => &mut self.black_queen,
                Piece::Rook => &mut self.black_rook,
                Piece::Bishop => &mut self.black_bishop,
                Piece::Knight => &mut self.black_knight,
                Piece::Pawn => &mut self.black_pawns,
            }
        }
    }

    pub fn get_knight_attacks(&self, from: usize) -> (r: u64)
        requires
            from < 64,
        ensures
            forall|t: int| #[trigger] holds(r, t) <==> knight_step(from as int, t),
    {
        knight_targets(from)
    }

    pub fn get_king_attacks(&self, from: usize) -> (r: u64)
        requires
            from < 64,
        ensures
            forall|t: int| #[trigger] holds(r, t) <==> king_step(from as int, t),
    {
        king_targets(from)
    }

    pub fn get_bishop_attacks(square: usize, all_pieces: u64) -> (r: u64)
        requires
            square < 64,
        ensures
            forall|t: int| #[trigger] holds(r, t) <==> bishop_reaches(square as int, t, all_pieces),
    {
        bishop_targets(square, all_pieces)
    }

    pub fn get_rook_attacks(square: usize, all_pieces: u64) -> (r: u64)
        requires
            square < 64,
        ensures
            forall|t: int| #[trigger] holds(r, t) <==> rook_reaches(square as int, t, all_pieces),
    {
        rook_targets(square, all_pieces)
    }

    /// Squares a pawn of side `colour` (0 white, 1 black) on `from` attacks.
    pub fn get_pawn_attacks(colour: usize, from: usize) -> (r: u64)
        requires
            colour < 2,
            from < 64,
        ensures
            forall|t: int| #[trigger] holds(r, t) <==> pawn_hit(colour_is_white(colour), from as int, t),
    {
        pawn_hits(colour == 0, from)
    }

    /// Squares a pawn of side `colour` (0 white, 1 black) on `from` may be pushed to on
    /// an empty board: one square, and two from its starting rank.
    pub fn get_pawn_pushes(colour: usize, from: usize) -> (r: u64)
        requires
            colour < 2,
            from < 64,
        ensures
            forall|t: int| #[trigger]
                holds(r, t) <==> pawn_push_target(colour_is_white(colour), from as int, t),
    {
        pawn_push_targets(colour == 0, from)
    }

    /// The side and kind of the piece on `s`, white sets first, each side in the
    /// order pawn, knight, bishop, rook, queen, king.
    pub open spec fn piece_on(&self, s: int) -> Option<(bool, Piece)> {
        if holds(self.white_pawns, s) {
            Some((true, Piece::Pawn))
        } else if holds(self.white_knight, s) {
            Some((true, Piece::Knight))
        } else if holds(self.white_bishop, s) {
            Some((true, Piece::Bishop))
        } else if holds(self.white_rook, s) {
            Some((true, Piece::Rook))
        } else if holds(self.white_queen, s) {
            Some((true, Piece::Queen))
        } else if holds(self.white_king, s) {
            Some((true, Piece::King))
        } else if holds(self.black_pawns, s) {
            Some((false, Piece::Pawn))
        } else if holds(self.black_knight, s) {
            Some((false, Piece::Knight))
        } else if holds(self.black_bishop, s) {
            Some((false, Piece::Bishop))
        } else if holds(self.black_rook, s) {
            Some((false, Piece::Rook))
        } else if holds(self.black_queen, s) {
            Some((false, Piece::Queen))
        } else if holds(self.black_king, s) {
            Some((false, Piece::King))
        } else {
            None
        }
    }

    /// The side and kind of the piece on `s`.
    pub fn piece_on_square(&self, s: usize) -> (r: Option<(bool, Piece)>)
        requires
            s < 64,
        ensures
            r == self.piece_on(s as int),
    {
        if is_set(self.white_pawns, s) {
            Some((true, Piece::Pawn))
        } else if is_set(self.white_knight, s) {
            Some((true, Piece::Knight))
        } else if is_set(self.white_bishop, s) {
            Some((true, Piece::Bishop))
        } else if is_set(self.white_rook, s) {
            Some((true, Piece::Rook))
        } else if is_set(self.white_queen, s) {
            Some((true, Piece::Queen))
        } else if is_set(self.white_king, s) {
            Some((true, Piece::King))
        } else if is_set(self.black_pawns, s) {
            Some((false, Piece::Pawn))
        } else if is_set(self.black_knight, s) {
            Some((false, Piece::Knight))
        } else if is_set(self.black_bishop, s) {
            Some((false, Piece::Bishop))
        } else if is_set(self.black_rook, s) {
            Some((false, Piece::Rook))
        } else if is_set(self.black_queen, s) {
            Some((false, Piece::Queen))
        } else if is_set(self.black_king, s) {
            Some((false, Piece::King))
        } else {
            None
        }
    }

    /// The pieces of side `is_white` that attack `square`, sliders seeing through `occ`.
    pub fn attackers_to_occ(&self, square: usize, is_white: bool, occ: u64) -> (r: u64)
        requires
            square < 64,
        ensures
            forall|t: int| #[trigger] holds(r, t) <==> self.attacks_from(is_white, t, square as int, occ),
    {
        let colour: usize = if is_white { 1 } else { 0 };
        let pawns = self.get_board(Piece::Pawn, is_white) & Self::get_pawn_attacks(colour, square);
        let knights = self.get_board(Piece::Knight, is_white) & self.get_knight_attacks(square);
        let kings = self.get_board(Piece::King, is_white) & self.get_king_attacks(square);
        let diag = Self::get_bishop_attacks(square, occ);
        let line = Self::get_rook_attacks(square, occ);
        let bishops = self.get_board(Piece::Bishop, is_white) & diag;
        let rooks = self.get_board(Piece::Rook, is_white) & line;
        let queens = self.get_board(Piece::Queen, is_white) & (line | diag);
        let r = pawns | knights | kings | bishops | rooks | queens;
        proof {
            assert forall|t: int| #[trigger] holds(r, t) <==> self.attacks_from(is_white, t, square as int, occ) by {
                if is_square(t) {
                    lemma_slider_symmetric(square as int, t, occ);
                }
            }
        }
        r
    }

    /// The pieces of side `is_white` that attack `square` on this board.
    pub fn attackers_to(&self, square: usize, is_white: bool) -> (r: u64)
        requires
            square < 64,
        ensures
            forall|t: int| #[trigger] holds(r, t) <==> self.attacks_from(is_white, t, square as int, self.occ()),
    {
        let occ = self.all_pieces();
        self.attackers_to_occ(square, is_white, occ)
    }

    /// Whether side `attacker_is_white` attacks `position`.
    pub fn possible_check(&self, position: usize, attacker_is_white: bool) -> (r: bool)
        requires
            position < 64,
        ensures
            r == self.attacked(position as int, attacker_is_white),
    {
        let a = self.attackers_to(position, attacker_is_white);
        proof {
            if a != 0 {
                let t = lemma_some_square(a);
                assert(self.attacks_from(attacker_is_white, t, position as int, self.occ()));
            } else {
                assert forall|t: int| !#[trigger] self.attacks_from(attacker_is_white, t, position as int, self.occ()) by {
                    assert(!holds(a, t));
                }
            }
        }
        a != 0
    }
}

/// A non-empty set holds some square.
pub proof fn lemma_some_square(a: u64) -> (t: int)
    requires
        a != 0,
    ensures
        0 <= t < 64,
        holds(a, t),
{
    if forall|s: int| 0 <= s < 64 ==> !holds(a, s) {
        lemma_empty_ext(a);
    }
    choose|s: int| 0 <= s < 64 && holds(a, s)
}

pub proof fn lemma_ray_symmetric(s: int, t: int, df: int, dr: int, occ: u64)
    requires
        is_square(t),
        -1 <= df <= 1,
        -1 <= dr <= 1,
        ray_reaches(s, t, df, dr, occ),
    ensures
        ray_reaches(t, s, -df, -dr, occ),
{
    let k = ray_index(s, t, df, dr);
    lemma_coords_square(file_of(s) + step_of(k, df), rank_of(s) + step_of(k, dr));
    lemma_square_coords(s);
    assert(ray_index(t, s, -df, -dr) == k);
    assert forall|j: int| 1 <= j < k implies !#[trigger] holds(occ, ray_square(t, -df, -dr, j)) by {
        assert(ray_square(t, -df, -dr, j) == ray_square(s, df, dr, k - j));
    }
}

pub proof fn lemma_slider_symmetric(s: int, t: int, occ: u64)
    requires
        is_square(s),
        is_square(t),
    ensures
        rook_reaches(s, t, occ) == rook_reaches(t, s, occ),
        bishop_reaches(s, t, occ) == bishop_reaches(t, s, occ),
{
    if ray_reaches(s, t, 1, 0, occ) { lemma_ray_symmetric(s, t, 1, 0, occ); }
    if ray_reaches(s, t, -1, 0, occ) { lemma_ray_symmetric(s, t, -1, 0, occ); }
    if ray_reaches(s, t, 0, 1, occ) { lemma_ray_symmetric(s, t, 0, 1, occ); }
    if ray_reaches(s, t, 0, -1, occ) { lemma_ray_symmetric(s, t, 0, -1, occ); }
    if ray_reaches(t, s, 1, 0, occ) { lemma_ray_symmetric(t, s, 1, 0, occ); }
    if ray_reaches(t, s, -1, 0, occ) { lemma_ray_symmetric(t, s, -1, 0, occ); }
    if ray_reaches(t, s, 0, 1, occ) { lemma_ray_symmetric(t, s, 0, 1, occ); }
    if ray_reaches(t, s, 0, -1, occ) { lemma_ray_symmetric(t, s, 0, -1, occ); }
    if ray_reaches(s, t, 1, 1, occ) { lemma_ray_symmetric(s, t, 1, 1, occ); }
    if ray_reaches(s, t, -1, 1, occ) { lemma_ray_symmetric(s, t, -1, 1, occ); }
    if ray_reaches(s, t, 1, -1, occ) { lemma_ray_symmetric(s, t, 1, -1, occ); }
    if ray_reaches(s, t, -1, -1, occ) { lemma_ray_symmetric(s, t, -1, -1, occ); }
    if ray_reaches(t, s, 1, 1, occ) { lemma_ray_symmetric(t, s, 1, 1, occ); }
    if ray_reaches(t, s, -1, 1, occ) { lemma_ray_symmetric(t, s, -1, 1, occ); }
    if ray_reaches(t, s, 1, -1, occ) { lemma_ray_symmetric(t, s, 1, -1, occ); }
    if ray_reaches(t, s, -1, -1, occ) { lemma_ray_symmetric(t, s, -1, -1, occ); }
}

} // verus!
