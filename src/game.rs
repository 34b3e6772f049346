//! The game: position, side to move, castling rights, en-passant target and hash, with
//! make and unmake of moves.
use vstd::prelude::*;
use crate::bits::{bit, group_bits, lowest_square};
use crate::bitboard::{Bitboard, Piece};
use crate::geometry::dist;
use crate::moves::{clear_side, corner_right, ep_victim, is_castle_target, king_home, moved, place, rook_corner, rook_landing, strip_side, BLACK_KINGSIDE, BLACK_QUEENSIDE, WHITE_KINGSIDE, WHITE_QUEENSIDE};
use crate::zobrist::{ep_key, ZobristKeys};

verus! {

broadcast use group_bits;

/// All four castling rights.
pub const ALL_RIGHTS: u8 = 15;

#[derive(Clone)]
pub struct Game {
    pub board: Bitboard,
    pub is_white_turn: bool,
    /// Castling rights: bit 3 white king side, bit 2 white queen side, bit 1 black king
    /// side, bit 0 black queen side.
    pub castling: u8,
    pub en_passent: Option<usize>,
    /// Hashes of the positions the game went through, one entry per visit.
    pub position_history: Vec<u64>,
    pub zobrist_hash: u64,
    pub keys: ZobristKeys,
}

/// What `unmake_move` needs to take a move back.
#[derive(Clone, Copy, Debug, PartialEq, Eq)]
pub struct Undo {
    pub from: usize,
    pub to: usize,
    pub captured_piece: Option<Piece>,
    pub promotion: Option<Piece>,
    pub previous_castling_rights: u8,
    pub previous_en_passant_square: Option<usize>,
    pub previous_zobrist_hash: u64,
}

#[derive(Debug, PartialEq, Eq, Clone, Copy, Structural)]
pub enum GameState {
    Normal,
    Check,
    Checkmate,
    Stalemate,
    RepMoves,
}

/// The key of whatever stands on `s`.
pub open spec fn square_key(b: Bitboard, keys: ZobristKeys, s: int) -> u64 {
    match b.piece_on(s) {
        Some((w, p)) => keys.piece_key(w, p, s),
        None => 0,
    }
}

/// XOR of the keys of the squares below `n`.
pub open spec fn squares_hash(b: Bitboard, keys: ZobristKeys, n: int) -> u64
    decreases n,
{
    if n <= 0 {
        0
    } else {
        squares_hash(b, keys, n - 1) ^ square_key(b, keys, n - 1)
    }
}

pub open spec fn side_key(keys: ZobristKeys, white: bool) -> u64 {
    if white {
        keys.side_to_move_key
    } else {
        0
    }
}

/// The hash of a position computed from scratch.
pub open spec fn position_hash(b: Bitboard, white: bool, castling: u8, ep: Option<usize>, keys: ZobristKeys) -> u64 {
    squares_hash(b, keys, 64) ^ keys.castling_keys@[(castling & 15) as int] ^ ep_key(&keys, ep)
        ^ side_key(keys, white)
}

/// The lowest square of side `w`'s king set.
pub open spec fn king_sq(b: Bitboard, w: bool) -> int {
    vstd::std_specs::bits::u64_trailing_zeros(b.bb(Piece::King, w)) as int
}

/// Side `w` has a king and it is attacked.
pub open spec fn in_check(b: Bitboard, w: bool) -> bool {
    b.bb(Piece::King, w) != 0 && b.attacked(king_sq(b, w), !w)
}

/// The moving piece is a pawn that takes en passant.
pub open spec fn takes_en_passant(g: Game, from: int, to: int) -> bool {
    &&& g.board.piece_on(from) == Some((g.is_white_turn, Piece::Pawn))
    &&& g.en_passent == Some(to as usize)
    &&& 0 <= ep_victim(g.is_white_turn, to) < 64
}

/// The moving piece is a king that castles.
pub open spec fn castles(g: Game, from: int, to: int) -> bool {
    g.board.piece_on(from) == Some((g.is_white_turn, Piece::King)) && from == king_home(
        g.is_white_turn,
    ) && is_castle_target(g.is_white_turn, to)
}

pub open spec fn captured_by(g: Game, from: int, to: int) -> Option<Piece> {
    if takes_en_passant(g, from, to) {
        Some(Piece::Pawn)
    } else {
        match g.board.piece_on(to) {
            Some((_, p)) => Some(p),
            None => None,
        }
    }
}

/// The board after the move: the piece (or its promotion) goes from `from` to `to`,
/// taking what stood there or the pawn passed en passant, and a castling king brings its
/// rook.
pub open spec fn board_after(g: Game, from: int, to: int, promo: Option<Piece>) -> Bitboard {
    let w = g.is_white_turn;
    let p = g.board.piece_on(from).unwrap().1;
    let placed = match promo {
        Some(q) => q,
        None => p,
    };
    let b1 = moved(g.board, placed, w, from, to);
    let b2 = if takes_en_passant(g, from, to) {
        clear_side(b1, !w, ep_victim(w, to))
    } else {
        b1
    };
    if castles(g, from, to) {
        moved(b2, Piece::Rook, w, rook_corner(to), rook_landing(to))
    } else {
        b2
    }
}

/// The hash `make_move_unchecked` keeps: the old one with the keys of what changed
/// taken out and put in.
pub open spec fn hash_after(g: Game, from: int, to: int, promo: Option<Piece>) -> u64 {
    let w = g.is_white_turn;
    let keys = g.keys;
    let p = match g.board.piece_on(from) {
        Some((_, p)) => p,
        None => Piece::Pawn,
    };
    let placed = match promo {
        Some(q) => q,
        None => p,
    };
    let h1 = g.zobrist_hash ^ ep_key(&keys, g.en_passent) ^ keys.castling_keys@[(g.castling & 15) as int]
        ^ keys.piece_key(w, p, from);
    let h2 = match captured_by(g, from, to) {
        Some(cp) => h1 ^ keys.piece_key(!w, cp, if takes_en_passant(g, from, to) {
            ep_victim(w, to)
        } else {
            to
        }),
        None => h1,
    };
    let h3 = if castles(g, from, to) {
        h2 ^ keys.piece_key(w, Piece::Rook, rook_corner(to)) ^ keys.piece_key(w, Piece::Rook, rook_landing(to))
    } else {
        h2
    };
    h3 ^ ep_key(&keys, ep_after(g, from, to)) ^ keys.castling_keys@[(castling_after(g, from, to) & 15) as int]
        ^ keys.piece_key(w, placed, to) ^ keys.side_to_move_key
}

/// Castling rights after the move: a king move gives up its side's rights, and a move
/// from or onto a corner gives up that corner's right.
pub open spec fn castling_after(g: Game, from: int, to: int) -> u8 {
    let c = if g.board.piece_on(from) == Some((g.is_white_turn, Piece::King)) {
        strip_side(g.castling, g.is_white_turn)
    } else {
        g.castling
    };
    c & !corner_right(from) & !corner_right(to)
}

/// The en-passant target after the move: the square a pawn's double push passed over.
pub open spec fn ep_after(g: Game, from: int, to: int) -> Option<usize> {
    if g.board.piece_on(from) == Some((g.is_white_turn, Piece::Pawn)) && dist(from, to) == 16 {
        Some(((from + to) / 2) as usize)
    } else {
        None
    }
}

impl Game {
    pub open spec fn wf(&self) -> bool {
        &&& self.keys.wf()
        &&& match self.en_passent {
            Some(s) => s < 64,
            None => true,
        }
    }

    /// The hash of this position computed from scratch.
    pub open spec fn full_hash(&self) -> u64 {
        position_hash(self.board, self.is_white_turn, self.castling, self.en_passent, self.keys)
    }

    /// The starting position, white to move, all castling rights.
    pub fn new() -> (r: Self)
        ensures
            r.wf(),
            r.board == Bitboard::start(),
            r.is_white_turn,
            r.castling == ALL_RIGHTS,
            r.en_passent.is_none(),
            r.zobrist_hash == r.full_hash(),
            r.position_history@.len() == 0,
            crate::laws::valid_position(r),
            crate::laws::pawns_inside(r.board),
            crate::laws::one_king(r.board, true),
            crate::laws::one_king(r.board, false),
    {
        let mut g = Game {
            board: Bitboard::new(),
            is_white_turn: true,
            castling: ALL_RIGHTS,
            en_passent: None,
            position_history: Vec::new(),
            zobrist_hash: 0,
            keys: ZobristKeys::new(),
        };
        g.zobrist_hash = g.compute_zobrist_hash();
        proof {
            crate::laws::lemma_start_valid(g);
            crate::laws::lemma_start_shape(g.board);
        }
        g
    }

    /// The hash of this position computed from scratch.
    pub fn compute_zobrist_hash(&self) -> (r: u64)
        requires
            self.wf(),
        ensures
            r == self.full_hash(),
    {
        let mut h: u64 = 0;
        let mut sq: usize = 0;
        while sq < 64
            invariant
                self.wf(),
                sq <= 64,
                h == squares_hash(self.board, self.keys, sq as int),
            decreases 64 - sq,
        {
            match self.board.piece_on_square(sq) {
                Some((w, p)) => {
                    h = h ^ self.keys.piece(w, p, sq);
                },
                None => {
                    proof {
                        assert(0u64 ^ 0u64 == 0u64) by (bit_vector);
                        let x = squares_hash(self.board, self.keys, sq as int);
                        assert(x ^ 0u64 == x) by (bit_vector);
                    }
                },
            }
            sq = sq + 1;
        }
        h = h ^ self.keys.castling(self.castling);
        h = h ^ self.keys.en_passant(self.en_passent);
        if self.is_white_turn {
            h = h ^ self.keys.side_to_move_key;
        } else {
            proof {
                let x = h;
                assert(x ^ 0u64 == x) by (bit_vector);
            }
        }
        h
    }

    /// The piece kind on `square`, of either side.
    pub fn get_piece_at(&self, square: usize) -> (r: Option<Piece>)
        requires
            square < 64,
        ensures
            r == match self.board.piece_on(square as int) {
                Some((_, p)) => Some(p),
                None => None,
            },
    {
        match self.board.piece_on_square(square) {
            Some((_, p)) => Some(p),
            None => None,
        }
    }

    /// Whether the side to move has its king attacked.
    pub fn is_in_check(&self) -> (r: bool)
        ensures
            r == in_check(self.board, self.is_white_turn),
    {
        self.side_in_check(self.is_white_turn)
    }

    /// Whether side `white` has its king attacked.
    pub fn side_in_check(&self, white: bool) -> (r: bool)
        ensures
            r == in_check(self.board, white),
    {
        king_in_check(&self.board, white)
    }

    /// The board after `(from, to, promo)`, this game left as it is.
    pub fn board_after_move(&self, from: usize, to: usize, promo: Option<Piece>) -> (r: Bitboard)
        requires
            from < 64,
            to < 64,
            self.board.piece_on(from as int).is_some(),
        ensures
            r == board_after(*self, from as int, to as int, promo),
    {
        let side = self.is_white_turn;
        let (mine, piece) = match self.board.piece_on_square(from) {
            Some((pw, p)) => (pw == side, p),
            None => (false, Piece::Pawn),
        };
        let victim_ok = if side { to >= 8 } else { to < 56 };
        let is_ep = mine && piece == Piece::Pawn && self.en_passent == Some(to) && victim_ok;
        let placed = match promo {
            Some(q) => q,
            None => piece,
        };
        let mut b = self.board;
        b.apply_move(from, to, placed, side);
        if is_ep {
            let victim: usize = if side { to - 8 } else { to + 8 };
            b.clear_piece(victim, !side);
        }
        let home: usize = if side { 4 } else { 60 };
        let castle_target = if side { to == 6 || to == 2 } else { to == 62 || to == 58 };
        if mine && piece == Piece::King && from == home && castle_target {
            let (corner, landing): (usize, usize) = if to == 6 {
                (7, 5)
            } else if to == 2 {
                (0, 3)
            } else if to == 62 {
                (63, 61)
            } else {
                (56, 59)
            };
            b.apply_move(corner, landing, Piece::Rook, side);
        }
        b
    }

    /// Plays `(from, to, promo)` whether or not it leaves the mover's king attacked, and
    /// returns what `unmake_move` needs to take it back.
    pub fn make_move_unchecked(&mut self, from: usize, to: usize, promo: Option<Piece>) -> (undo: Undo)
        requires
            old(self).wf(),
            from < 64,
            to < 64,
            old(self).board.piece_on(from as int).is_some(),
        ensures
            final(self).wf(),
            final(self).is_white_turn == !old(self).is_white_turn,
            final(self).board == board_after(*old(self), from as int, to as int, promo),
            final(self).castling == castling_after(*old(self), from as int, to as int),
            final(self).en_passent == ep_after(*old(self), from as int, to as int),
            final(self).zobrist_hash == hash_after(*old(self), from as int, to as int, promo),
            crate::laws::valid_position(*old(self)) && crate::movegen::pseudo_legal(*old(self), (from, to, promo))
                ==> crate::laws::valid_position(*final(self)),
            crate::laws::valid_position(*old(self)) && crate::movegen::pseudo_legal(*old(self), (from, to, promo))
                && old(self).zobrist_hash == old(self).full_hash() ==> final(self).zobrist_hash == final(self).full_hash(),
            final(self).keys == old(self).keys,
            final(self).position_history == old(self).position_history,
            undo == (Undo {
                from,
                to,
                captured_piece: captured_by(*old(self), from as int, to as int),
                promotion: promo,
                previous_castling_rights: old(self).castling,
                previous_en_passant_square: old(self).en_passent,
                previous_zobrist_hash: old(self).zobrist_hash,
            }),
    {
        let ghost g0 = *self;
        proof {
            if crate::laws::valid_position(g0) && crate::movegen::pseudo_legal(g0, (from, to, promo)) {
                crate::laws::lemma_make_keeps_valid(g0, (from, to, promo));
                if g0.zobrist_hash == g0.full_hash() {
                    crate::laws::lemma_hash_consistent(g0, (from, to, promo));
                }
            }
        }
        let side = self.is_white_turn;
        let (mine, piece) = match self.board.piece_on_square(from) {
            Some((pw, p)) => (pw == side, p),
            None => (false, Piece::Pawn),
        };
        let prev_ep = self.en_passent;
        let prev_castling = self.castling;
        let prev_hash = self.zobrist_hash;
        let victim_ok = if side { to >= 8 } else { to < 56 };
        let is_ep = mine && piece == Piece::Pawn && prev_ep == Some(to) && victim_ok;
        let captured = if is_ep {
            Some(Piece::Pawn)
        } else {
            match self.board.piece_on_square(to) {
                Some((_, p)) => Some(p),
                None => None,
            }
        };
        let undo = Undo {
            from,
            to,
            captured_piece: captured,
            promotion: promo,
            previous_castling_rights: prev_castling,
            previous_en_passant_square: prev_ep,
            previous_zobrist_hash: prev_hash,
        };
        let mut h = self.zobrist_hash ^ self.keys.en_passant(prev_ep);
        h = h ^ self.keys.castling(prev_castling);
        h = h ^ self.keys.piece(side, piece, from);
        let victim: usize = if side { if to >= 8 { to - 8 } else { to } } else { if to < 56 { to + 8 } else { to } };
        match captured {
            Some(cp) => {
                let cs = if is_ep { victim } else { to };
                h = h ^ self.keys.piece(!side, cp, cs);
            },
            None => {},
        }
        let placed = match promo {
            Some(q) => q,
            None => piece,
        };
        self.board = self.board_after_move(from, to, promo);
        let home: usize = if side { 4 } else { 60 };
        let castle_target = if side { to == 6 || to == 2 } else { to == 62 || to == 58 };
        if mine && piece == Piece::King && from == home && castle_target {
            let (corner, landing): (usize, usize) = if to == 6 {
                (7, 5)
            } else if to == 2 {
                (0, 3)
            } else if to == 62 {
                (63, 61)
            } else {
                (56, 59)
            };
            h = h ^ self.keys.piece(side, Piece::Rook, corner);
            h = h ^ self.keys.piece(side, Piece::Rook, landing);
        }
        let mut c = prev_castling;
        if mine && piece == Piece::King {
            if side {
                c = c & !(WHITE_KINGSIDE | WHITE_QUEENSIDE);
            } else {
                c = c & !(BLACK_KINGSIDE | BLACK_QUEENSIDE);
            }
        }
        c = c & !corner_lost(from) & !corner_lost(to);
        self.castling = c;
        let double = from + 16 == to || to + 16 == from;
        self.en_passent = if mine && piece == Piece::Pawn && double {
            Some((from + to) / 2)
        } else {
            None
        };
        h = h ^ self.keys.en_passant(self.en_passent);
        h = h ^ self.keys.castling(c);
        h = h ^ self.keys.piece(side, placed, to);
        h = h ^ self.keys.side_to_move_key;
        self.zobrist_hash = h;
        self.is_white_turn = !side;
        undo
    }

    /// Takes back the move that produced `undo`.
    pub fn unmake_move(&mut self, undo: Undo)
        requires
            old(self).wf(),
            undo.from < 64,
            undo.to < 64,
            match undo.previous_en_passant_square {
                Some(s) => s < 64,
                None => true,
            },
        ensures
            final(self).wf(),
            final(self).is_white_turn == !old(self).is_white_turn,
            final(self).castling == undo.previous_castling_rights,
            final(self).en_passent == undo.previous_en_passant_square,
            final(self).zobrist_hash == undo.previous_zobrist_hash,
            final(self).board == board_before(old(self).board, !old(self).is_white_turn, undo),
            final(self).keys == old(self).keys,
            final(self).position_history == old(self).position_history,
    {
        self.is_white_turn = !self.is_white_turn;
        let side = self.is_white_turn;
        self.castling = undo.previous_castling_rights;
        self.en_passent = undo.previous_en_passant_square;
        let from = undo.from;
        let to = undo.to;
        let moved_piece = match undo.promotion {
            Some(p) => p,
            None => match self.board.piece_on_square(to) {
                Some((_, p)) => p,
                None => Piece::Pawn,
            },
        };
        self.remove_piece(to, moved_piece, side);
        let origin_piece = if undo.promotion.is_some() { Piece::Pawn } else { moved_piece };
        self.add_piece(from, origin_piece, side);
        let home: usize = if side { 4 } else { 60 };
        let castle_target = if side { to == 6 || to == 2 } else { to == 62 || to == 58 };
        if moved_piece == Piece::King && from == home && castle_target {
            let (corner, landing): (usize, usize) = if to == 6 {
                (7, 5)
            } else if to == 2 {
                (0, 3)
            } else if to == 62 {
                (63, 61)
            } else {
                (56, 59)
            };
            self.remove_piece(landing, Piece::Rook, side);
            self.add_piece(corner, Piece::Rook, side);
        }
        match undo.captured_piece {
            Some(cp) => {
                let victim_ok = if side { to >= 8 } else { to < 56 };
                let is_ep = origin_piece == Piece::Pawn && undo.previous_en_passant_square == Some(to) && victim_ok;
                let square = if is_ep {
                    if side { to - 8 } else { to + 8 }
                } else {
                    to
                };
                self.add_piece(square, cp, !side);
            },
            None => {},
        }
        self.zobrist_hash = undo.previous_zobrist_hash;
    }

    /// Takes `square` out of the set of `(piece, is_white)`.
    fn remove_piece(&mut self, square: usize, piece: Piece, is_white: bool)
        requires
            square < 64,
        ensures
            final(self).board == remove_from(old(self).board, piece, is_white, square as int),
            final(self).is_white_turn == old(self).is_white_turn,
            final(self).castling == old(self).castling,
            final(self).en_passent == old(self).en_passent,
            final(self).zobrist_hash == old(self).zobrist_hash,
            final(self).keys == old(self).keys,
            final(self).position_history == old(self).position_history,
    {
        let m = !bit(square);
        let r = self.board.get_mut_board(piece, is_white);
        *r = *r & m;
    }

    /// Puts `piece` of side `is_white` on `square`, removing whatever stood there.
    fn add_piece(&mut self, square: usize, piece: Piece, is_white: bool)
        requires
            square < 64,
        ensures
            final(self).board == place(clear_side(clear_side(old(self).board, true, square as int), false, square as int), piece, is_white, square as int),
            final(self).is_white_turn == old(self).is_white_turn,
            final(self).castling == old(self).castling,
            final(self).en_passent == old(self).en_passent,
            final(self).zobrist_hash == old(self).zobrist_hash,
            final(self).keys == old(self).keys,
            final(self).position_history == old(self).position_history,
    {
        self.board.clear_piece(square, true);
        self.board.clear_piece(square, false);
        self.board.put_piece(square, piece, is_white);
    }
}

/// The set of `(p, w)` without square `s`.
pub open spec fn remove_from(b: Bitboard, p: Piece, w: bool, s: int) -> Bitboard {
    b.with_bb(p, w, b.bb(p, w) & !(1u64 << (s as u64)))
}

/// `piece` of side `w` stands on `s` alone.
pub open spec fn put_alone(b: Bitboard, p: Piece, w: bool, s: int) -> Bitboard {
    place(clear_side(clear_side(b, true, s), false, s), p, w, s)
}

/// The board before the move recorded in `undo`, side `w` having made it.
pub open spec fn board_before(b: Bitboard, w: bool, undo: Undo) -> Bitboard {
    let from = undo.from as int;
    let to = undo.to as int;
    let moved_piece = match undo.promotion {
        Some(p) => p,
        None => match b.piece_on(to) {
            Some((_, p)) => p,
            None => Piece::Pawn,
        },
    };
    let origin = if undo.promotion.is_some() {
        Piece::Pawn
    } else {
        moved_piece
    };
    let b1 = put_alone(remove_from(b, moved_piece, w, to), origin, w, from);
    let b2 = if moved_piece == Piece::King && from == king_home(w) && is_castle_target(w, to) {
        put_alone(remove_from(b1, Piece::Rook, w, rook_landing(to)), Piece::Rook, w, rook_corner(to))
    } else {
        b1
    };
    match undo.captured_piece {
        Some(cp) => {
            let is_ep = origin == Piece::Pawn && undo.previous_en_passant_square == Some(undo.to)
                && 0 <= ep_victim(w, to) < 64;
            let square = if is_ep {
                ep_victim(w, to)
            } else {
                to
            };
            put_alone(b2, cp, !w, square)
        },
        None => b2,
    }
}

/// The hash of `game`'s position computed from scratch.
pub fn compute_zobrist_hash(game: &Game) -> (r: u64)
    requires
        game.wf(),
    ensures
        r == game.full_hash(),
{
    game.compute_zobrist_hash()
}

/// Whether side `white` has its king attacked on board `b`.
pub fn king_in_check(b: &Bitboard, white: bool) -> (r: bool)
    ensures
        r == in_check(*b, white),
{
    let kings = b.get_board(Piece::King, white);
    if kings == 0 {
        return false;
    }
    let k = lowest_square(kings);
    b.possible_check(k, !white)
}

/// The castling right lost when a move starts or ends on `s`.
fn corner_lost(s: usize) -> (r: u8)
    ensures
        r == corner_right(s as int),
{
    match s {
        0 => WHITE_QUEENSIDE,
        7 => WHITE_KINGSIDE,
        56 => BLACK_QUEENSIDE,
        63 => BLACK_KINGSIDE,
        _ => 0,
    }
}

} // verus!
