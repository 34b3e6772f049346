//! Moving one piece on a `Bitboard`, checked against the piece's rules of movement.
use vstd::prelude::*;
use crate::bits::{bit, group_bits, holds, is_set, file_of, rank_of};
use crate::bitboard::{Bitboard, Piece};
use crate::geometry::{
    bishop_reaches, forward, king_step, knight_step, pawn_hit, pawn_start_rank, queen_reaches,
    rook_reaches,
};

verus! {

broadcast use group_bits;

/// Castling rights, one bit each.
pub const WHITE_KINGSIDE: u8 = 8;
pub const WHITE_QUEENSIDE: u8 = 4;
pub const BLACK_KINGSIDE: u8 = 2;
pub const BLACK_QUEENSIDE: u8 = 1;

/// Every set of side `w` without square `s`.
pub open spec fn clear_side(b: Bitboard, w: bool, s: int) -> Bitboard {
    let m = !(1u64 << (s as u64));
    if w {
        Bitboard {
            white_king: b.white_king & m,
            white_queen: b.white_queen & m,
            white_rook: b.white_rook & m,
            white_bishop: b.white_bishop & m,
            white_knight: b.white_knight & m,
            white_pawns: b.white_pawns & m,
            ..b
        }
    } else {
        Bitboard {
            black_king: b.black_king & m,
            black_queen: b.black_queen & m,
            black_rook: b.black_rook & m,
            black_bishop: b.black_bishop & m,
            black_knight: b.black_knight & m,
            black_pawns: b.black_pawns & m,
            ..b
        }
    }
}

/// The set of `(p, w)` with square `s` added.
pub open spec fn place(b: Bitboard, p: Piece, w: bool, s: int) -> Bitboard {
    b.with_bb(p, w, b.bb(p, w) | (1u64 << (s as u64)))
}

/// Side `w` moves from `from` to `to`, where `placed` stands afterwards; whatever stood
/// on `to` is taken.
pub open spec fn moved(b: Bitboard, placed: Piece, w: bool, from: int, to: int) -> Bitboard {
    place(clear_side(clear_side(b, !w, to), w, from), placed, w, to)
}

/// A pawn may turn into this piece.
pub open spec fn promotable(p: Piece) -> bool {
    p == Piece::Queen || p == Piece::Rook || p == Piece::Bishop || p == Piece::Knight
}

pub open spec fn last_rank(w: bool) -> int {
    if w {
        7
    } else {
        0
    }
}

/// Outcome of a pawn reaching `to` with the promotion choice `promo`.
pub open spec fn pawn_arrival(b: Bitboard, w: bool, from: int, to: int, promo: Option<Piece>) -> Option<Bitboard> {
    if rank_of(to) == last_rank(w) {
        match promo {
            Some(q) => if promotable(q) {
                Some(moved(b, q, w, from, to))
            } else {
                None
            },
            None => None,
        }
    } else if promo.is_some() {
        None
    } else {
        Some(moved(b, Piece::Pawn, w, from, to))
    }
}

/// The square of the pawn taken en passant on `to`.
pub open spec fn ep_victim(w: bool, to: int) -> int {
    to - 8 * forward(w)
}

/// A pawn's double push from `from` to `to`.
pub open spec fn is_double_push(b: Bitboard, w: bool, from: int, to: int) -> bool {
    rank_of(from) == pawn_start_rank(w) && to == from + 16 * forward(w) && !holds(b.occ(), from + 8 * forward(w))
}

/// The board after the pawn move `from` -> `to`, or `None` when a pawn may not make it.
pub open spec fn pawn_outcome(b: Bitboard, w: bool, from: int, to: int, promo: Option<Piece>, ep: Option<usize>) -> Option<Bitboard> {
    if !holds(b.bb(Piece::Pawn, w), from) {
        None
    } else if ep == Some(to as usize) && pawn_hit(w, from, to) {
        Some(clear_side(moved(b, Piece::Pawn, w, from, to), !w, ep_victim(w, to)))
    } else if pawn_hit(w, from, to) {
        if holds(b.side_occ(!w), to) {
            pawn_arrival(b, w, from, to, promo)
        } else {
            None
        }
    } else if holds(b.occ(), to) {
        None
    } else if file_of(to) == file_of(from) && rank_of(to) == rank_of(from) + forward(w) {
        pawn_arrival(b, w, from, to, promo)
    } else if file_of(to) == file_of(from) && is_double_push(b, w, from, to) && promo.is_none() {
        Some(moved(b, Piece::Pawn, w, from, to))
    } else {
        None
    }
}

/// The castling move of side `w` with its king going to `to`: the rights bit it needs,
/// and the rook's corner and destination.
pub open spec fn castle_right(w: bool, to: int) -> u8 {
    if w && to == 6 {
        WHITE_KINGSIDE
    } else if w && to == 2 {
        WHITE_QUEENSIDE
    } else if !w && to == 62 {
        BLACK_KINGSIDE
    } else {
        BLACK_QUEENSIDE
    }
}

pub open spec fn king_home(w: bool) -> int {
    if w {
        4
    } else {
        60
    }
}

pub open spec fn is_castle_target(w: bool, to: int) -> bool {
    if w {
        to == 6 || to == 2
    } else {
        to == 62 || to == 58
    }
}

pub open spec fn rook_corner(to: int) -> int {
    if to == 6 {
        7
    } else if to == 2 {
        0
    } else if to == 62 {
        63
    } else {
        56
    }
}

pub open spec fn rook_landing(to: int) -> int {
    if to == 6 {
        5
    } else if to == 2 {
        3
    } else if to == 62 {
        61
    } else {
        59
    }
}

/// The squares between king and rook are empty for the castling move to `to`.
pub open spec fn castle_path_clear(b: Bitboard, to: int) -> bool {
    let o = b.occ();
    if to == 6 || to == 62 {
        !holds(o, to - 1) && !holds(o, to)
    } else {
        !holds(o, to - 1) && !holds(o, to) && !holds(o, to + 1)
    }
}

/// Side `w` keeps none of its castling rights.
pub open spec fn strip_side(c: u8, w: bool) -> u8 {
    if w {
        c & !(WHITE_KINGSIDE | WHITE_QUEENSIDE)
    } else {
        c & !(BLACK_KINGSIDE | BLACK_QUEENSIDE)
    }
}

/// The right a rook leaving (or taken on) `s` gives up.
pub open spec fn corner_right(s: int) -> u8 {
    if s == 0 {
        WHITE_QUEENSIDE
    } else if s == 7 {
        WHITE_KINGSIDE
    } else if s == 56 {
        BLACK_QUEENSIDE
    } else if s == 63 {
        BLACK_KINGSIDE
    } else {
        0
    }
}

pub open spec fn king_outcome(b: Bitboard, w: bool, from: int, to: int, c: u8) -> Option<Bitboard> {
    if !holds(b.bb(Piece::King, w), from) || holds(b.side_occ(w), to) {
        None
    } else if from == king_home(w) && is_castle_target(w, to) {
        if c & castle_right(w, to) != 0 && holds(b.bb(Piece::Rook, w), rook_corner(to))
            && castle_path_clear(b, to) {
            Some(moved(moved(b, Piece::King, w, from, to), Piece::Rook, w, rook_corner(to), rook_landing(to)))
        } else {
            None
        }
    } else if king_step(from, to) {
        Some(moved(b, Piece::King, w, from, to))
    } else {
        None
    }
}

/// A piece of kind `p` and side `w` on `from` may go to `to` by its own geometry.
pub open spec fn step_ok(b: Bitboard, p: Piece, w: bool, from: int, to: int) -> bool {
    holds(b.bb(p, w), from) && !holds(b.side_occ(w), to) && match p {
        Piece::Knight => knight_step(from, to),
        Piece::Bishop => bishop_reaches(from, to, b.occ()),
        Piece::Rook => rook_reaches(from, to, b.occ()),
        Piece::Queen => queen_reaches(from, to, b.occ()),
        _ => false,
    }
}

impl Bitboard {
    /// Takes square `s` from every set of side `is_white`.
    pub fn clear_piece(&mut self, s: usize, is_white: bool)
        requires
            s < 64,
        ensures
            *final(self) == clear_side(*old(self), is_white, s as int),
    {
        let m = !bit(s);
        if is_white {
            self.white_king = self.white_king & m;
            self.white_queen = self.white_queen & m;
            self.white_rook = self.white_rook & m;
            self.white_bishop = self.white_bishop & m;
            self.white_knight = self.white_knight & m;
            self.white_pawns = self.white_pawns & m;
        } else {
            self.black_king = self.black_king & m;
            self.black_queen = self.black_queen & m;
            self.black_rook = self.black_rook & m;
            self.black_bishop = self.black_bishop & m;
            self.black_knight = self.black_knight & m;
            self.black_pawns = self.black_pawns & m;
        }
    }

    /// Adds square `s` to the set of `(piece, is_white)`.
    pub fn put_piece(&mut self, s: usize, piece: Piece, is_white: bool)
        requires
            s < 64,
        ensures
            *final(self) == place(*old(self), piece, is_white, s as int),
    {
        let m = bit(s);
        let r = self.get_mut_board(piece, is_white);
        *r = *r | m;
    }

    /// Side `is_white` moves from `from` to `to`, `placed` standing there afterwards.
    pub fn apply_move(&mut self, from: usize, to: usize, placed: Piece, is_white: bool)
        requires
            from < 64,
            to < 64,
        ensures
            *final(self) == moved(*old(self), placed, is_white, from as int, to as int),
    {
        self.clear_piece(to, !is_white);
        self.clear_piece(from, is_white);
        self.put_piece(to, placed, is_white);
    }

    /// Moves the piece of kind `p` when its geometry allows; the board is unchanged
    /// otherwise.
    fn move_stepper(&mut self, p: Piece, from: usize, to: usize, is_white: bool) -> (r: bool)
        requires
            from < 64,
            to < 64,
            p == Piece::Knight || p == Piece::Bishop || p == Piece::Rook || p == Piece::Queen,
        ensures
            r == step_ok(*old(self), p, is_white, from as int, to as int),
            r ==> *final(self) == moved(*old(self), p, is_white, from as int, to as int),
            !r ==> *final(self) == *old(self),
    {
        let own = self.get_board(p, is_white);
        let friends = self.side_pieces(is_white);
        if !is_set(own, from) || is_set(friends, to) {
            return false;
        }
        let occ = self.all_pieces();
        let reach = match p {
            Piece::Knight => self.get_knight_attacks(from),
            Piece::Bishop => Self::get_bishop_attacks(from, occ),
            Piece::Rook => Self::get_rook_attacks(from, occ),
            _ => Self::get_rook_attacks(from, occ) | Self::get_bishop_attacks(from, occ),
        };
        if !is_set(reach, to) {
            return false;
        }
        self.apply_move(from, to, p, is_white);
        true
    }

    pub fn move_knight(&mut self, from: usize, to: usize, is_white: bool) -> (r: bool)
        requires
            from < 64,
            to < 64,
        ensures
            r == step_ok(*old(self), Piece::Knight, is_white, from as int, to as int),
            r ==> *final(self) == moved(*old(self), Piece::Knight, is_white, from as int, to as int),
            !r ==> *final(self) == *old(self),
    {
        self.move_stepper(Piece::Knight, from, to, is_white)
    }

    pub fn move_bishop(&mut self, from: usize, to: usize, is_white: bool) -> (r: bool)
        requires
            from < 64,
            to < 64,
        ensures
            r == step_ok(*old(self), Piece::Bishop, is_white, from as int, to as int),
            r ==> *final(self) == moved(*old(self), Piece::Bishop, is_white, from as int, to as int),
            !r ==> *final(self) == *old(self),
    {
        self.move_stepper(Piece::Bishop, from, to, is_white)
    }

    pub fn move_queen(&mut self, from: usize, to: usize, is_white: bool) -> (r: bool)
        requires
            from < 64,
            to < 64,
        ensures
            r == step_ok(*old(self), Piece::Queen, is_white, from as int, to as int),
            r ==> *final(self) == moved(*old(self), Piece::Queen, is_white, from as int, to as int),
            !r ==> *final(self) == *old(self),
    {
        self.move_stepper(Piece::Queen, from, to, is_white)
    }

    /// Moves a rook; a rook leaving its corner gives up that corner's castling right.
    pub fn move_rook(&mut self, from: usize, to: usize, is_white: bool, castling: &mut u8) -> (r: bool)
        requires
            from < 64,
            to < 64,
        ensures
            r == step_ok(*old(self), Piece::Rook, is_white, from as int, to as int),
            r ==> *final(self) == moved(*old(self), Piece::Rook, is_white, from as int, to as int),
            r ==> *final(castling) == *old(castling) & !corner_right(from as int),
            !r ==> *final(self) == *old(self) && *final(castling) == *old(castling),
    {
        let ok = self.move_stepper(Piece::Rook, from, to, is_white);
        if ok {
            let lost: u8 = match from {
                0 => WHITE_QUEENSIDE,
                7 => WHITE_KINGSIDE,
                56 => BLACK_QUEENSIDE,
                63 => BLACK_KINGSIDE,
                _ => 0,
            };
            *castling = *castling & !lost;
        }
        ok
    }

    /// Moves a king one square, or castles when `to` is the castling square of its side,
    /// the right is held, the rook stands in its corner and the squares between are
    /// empty. Any king move gives up both of its side's castling rights. Whether the
    /// squares are attacked is left to the caller.
    pub fn move_king(&mut self, from: usize, to: usize, is_white: bool, castling: &mut u8) -> (r: bool)
        requires
            from < 64,
            to < 64,
        ensures
            r == king_outcome(*old(self), is_white, from as int, to as int, *old(castling)).is_some(),
            r ==> *final(self) == king_outcome(*old(self), is_white, from as int, to as int, *old(castling)).unwrap(),
            r ==> *final(castling) == strip_side(*old(castling), is_white),
            !r ==> *final(self) == *old(self) && *final(castling) == *old(castling),
    {
        let kings = self.get_board(Piece::King, is_white);
        let friends = self.side_pieces(is_white);
        if !is_set(kings, from) || is_set(friends, to) {
            return false;
        }
        let home: usize = if is_white { 4 } else { 60 };
        let castle_target = if is_white { to == 6 || to == 2 } else { to == 62 || to == 58 };
        if from == home && castle_target {
            let right: u8 = if is_white && to == 6 {
                WHITE_KINGSIDE
            } else if is_white && to == 2 {
                WHITE_QUEENSIDE
            } else if !is_white && to == 62 {
                BLACK_KINGSIDE
            } else {
                BLACK_QUEENSIDE
            };
            let (corner, landing): (usize, usize) = if to == 6 {
                (7, 5)
            } else if to == 2 {
                (0, 3)
            } else if to == 62 {
                (63, 61)
            } else {
                (56, 59)
            };
            let occ = self.all_pieces();
            let rooks = self.get_board(Piece::Rook, is_white);
            let clear = if to == 6 || to == 62 {
                !is_set(occ, to - 1) && !is_set(occ, to)
            } else {
                !is_set(occ, to - 1) && !is_set(occ, to) && !is_set(occ, to + 1)
            };
            if *castling & right == 0 || !is_set(rooks, corner) || !clear {
                return false;
            }
            self.apply_move(from, to, Piece::King, is_white);
            self.apply_move(corner, landing, Piece::Rook, is_white);
        } else {
            let steps = self.get_king_attacks(from);
            if !is_set(steps, to) {
                return false;
            }
            self.apply_move(from, to, Piece::King, is_white);
        }
        if is_white {
            *castling = *castling & !(WHITE_KINGSIDE | WHITE_QUEENSIDE);
        } else {
            *castling = *castling & !(BLACK_KINGSIDE | BLACK_QUEENSIDE);
        }
        true
    }

    /// Makes the pawn arrive on `to`, promoting on the last rank.
    fn pawn_arrive(&mut self, from: usize, to: usize, is_white: bool, promo: Option<Piece>) -> (r: bool)
        requires
            from < 64,
            to < 64,
        ensures
            r == pawn_arrival(*old(self), is_white, from as int, to as int, promo).is_some(),
            r ==> *final(self) == pawn_arrival(*old(self), is_white, from as int, to as int, promo).unwrap(),
            !r ==> *final(self) == *old(self),
    {
        let last: usize = if is_white { 7 } else { 0 };
        if to / 8 == last {
            match promo {
                Some(q) => {
                    if q == Piece::Queen || q == Piece::Rook || q == Piece::Bishop || q == Piece::Knight {
                        self.apply_move(from, to, q, is_white);
                        true
                    } else {
                        false
                    }
                },
                None => false,
            }
        } else if promo.is_some() {
            false
        } else {
            self.apply_move(from, to, Piece::Pawn, is_white);
            true
        }
    }

    /// Moves a pawn: a push of one square, a double push from its starting rank (which
    /// sets `en_passent_next` to the square passed over), a capture, or an en-passant
    /// capture onto `en_passent_target`. A pawn reaching the last rank must name its
    /// promotion piece, and no other pawn move may.
    pub fn move_pawn(
        &mut self,
        from: usize,
        to: usize,
        is_white: bool,
        promo: Option<Piece>,
        en_passent_target: Option<usize>,
        en_passent_next: &mut Option<usize>,
    ) -> (r: bool)
        requires
            from < 64,
            to < 64,
        ensures
            r == pawn_outcome(*old(self), is_white, from as int, to as int, promo, en_passent_target).is_some(),
            r ==> *final(self) == pawn_outcome(*old(self), is_white, from as int, to as int, promo, en_passent_target).unwrap(),
            !r ==> *final(self) == *old(self),
            *final(en_passent_next) == if r && file_of(to as int) == file_of(from as int)
                && is_double_push(*old(self), is_white, from as int, to as int) {
                Some(((from + to) / 2) as usize)
            } else {
                *old(en_passent_next)
            },
    {
        let pawns = self.get_board(Piece::Pawn, is_white);
        if !is_set(pawns, from) {
            return false;
        }
        let colour: usize = if is_white { 0 } else { 1 };
        let hits = Self::get_pawn_attacks(colour, from);
        let is_capture = is_set(hits, to);
        if en_passent_target == Some(to) && is_capture {
            self.apply_move(from, to, Piece::Pawn, is_white);
            let victim = if is_white { to - 8 } else { to + 8 };
            self.clear_piece(victim, !is_white);
            return true;
        }
        if is_capture {
            let enemies = self.side_pieces(!is_white);
            if !is_set(enemies, to) {
                return false;
            }
            return self.pawn_arrive(from, to, is_white, promo);
        }
        let occ = self.all_pieces();
        if is_set(occ, to) {
            return false;
        }
        let same_file = from % 8 == to % 8;
        let single = if is_white { from + 8 == to } else { to + 8 == from };
        if same_file && single {
            return self.pawn_arrive(from, to, is_white, promo);
        }
        let start: usize = if is_white { 1 } else { 6 };
        let double = if is_white { from + 16 == to } else { to + 16 == from };
        if same_file && from / 8 == start && double && promo.is_none() {
            let mid = if is_white { from + 8 } else { from - 8 };
            if !is_set(occ, mid) {
                self.apply_move(from, to, Piece::Pawn, is_white);
                *en_passent_next = Some(mid);
                return true;
            }
        }
        false
    }
}

} // verus!
