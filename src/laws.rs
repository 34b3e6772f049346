//! Invariants of the position and what make and unmake keep of them: the piece sets are
//! disjoint, pawns stay off the first and last ranks, unmake restores the position, and
//! the incrementally kept hash equals the hash computed from scratch.
use vstd::prelude::*;
use crate::bits::{group_bits, holds, lemma_bits_ext, rank_of};
use crate::bitboard::{Bitboard, Piece};
use crate::game::{
    board_after, board_before, captured_by, castles, castling_after, ep_after, hash_after, in_check,
    king_sq, position_hash, put_alone, remove_from, square_key, squares_hash, takes_en_passant, Game,
    Undo,
};
use crate::movegen::pseudo_legal;
use crate::movelist::Move;
use crate::moves::{clear_side, ep_victim, moved, place, rook_corner, rook_landing};
use crate::zobrist::{ep_key, ZobristKeys};

verus! {

broadcast use group_bits;

/// Each square holds at most one piece: a set holds `s` exactly when `piece_on(s)` names it.
pub open spec fn disjoint(b: Bitboard) -> bool {
    forall|s: int, p: Piece, w: bool|
        #[trigger] holds(b.bb(p, w), s) <==> b.piece_on(s) == Some((w, p))
}

/// Two disjoint boards with the same piece on every square are equal.
pub proof fn lemma_same_content(b1: Bitboard, b2: Bitboard)
    requires
        disjoint(b1),
        disjoint(b2),
        forall|s: int| 0 <= s < 64 ==> #[trigger] b1.piece_on(s) == b2.piece_on(s),
    ensures
        b1 == b2,
{
    assert forall|p: Piece, w: bool| b1.bb(p, w) == b2.bb(p, w) by {
        assert forall|s: int| 0 <= s < 64 implies holds(b1.bb(p, w), s) == holds(b2.bb(p, w), s) by {
            assert(b1.piece_on(s) == b2.piece_on(s));
        }
        lemma_bits_ext(b1.bb(p, w), b2.bb(p, w));
    }
    assert(b1.bb(Piece::King, true) == b2.bb(Piece::King, true));
    assert(b1.bb(Piece::Queen, true) == b2.bb(Piece::Queen, true));
    assert(b1.bb(Piece::Rook, true) == b2.bb(Piece::Rook, true));
    assert(b1.bb(Piece::Bishop, true) == b2.bb(Piece::Bishop, true));
    assert(b1.bb(Piece::Knight, true) == b2.bb(Piece::Knight, true));
    assert(b1.bb(Piece::Pawn, true) == b2.bb(Piece::Pawn, true));
    assert(b1.bb(Piece::King, false) == b2.bb(Piece::King, false));
    assert(b1.bb(Piece::Queen, false) == b2.bb(Piece::Queen, false));
    assert(b1.bb(Piece::Rook, false) == b2.bb(Piece::Rook, false));
    assert(b1.bb(Piece::Bishop, false) == b2.bb(Piece::Bishop, false));
    assert(b1.bb(Piece::Knight, false) == b2.bb(Piece::Knight, false));
    assert(b1.bb(Piece::Pawn, false) == b2.bb(Piece::Pawn, false));
}

/// Each of the twelve sets holds `s` exactly when `piece_on(s)` names it.
proof fn lemma_exact_at(b: Bitboard, s: int)
    requires
        disjoint(b),
    ensures
        holds(b.bb(Piece::Pawn, true), s) <==> b.piece_on(s) == Some((true, Piece::Pawn)),
        holds(b.bb(Piece::Knight, true), s) <==> b.piece_on(s) == Some((true, Piece::Knight)),
        holds(b.bb(Piece::Bishop, true), s) <==> b.piece_on(s) == Some((true, Piece::Bishop)),
        holds(b.bb(Piece::Rook, true), s) <==> b.piece_on(s) == Some((true, Piece::Rook)),
        holds(b.bb(Piece::Queen, true), s) <==> b.piece_on(s) == Some((true, Piece::Queen)),
        holds(b.bb(Piece::King, true), s) <==> b.piece_on(s) == Some((true, Piece::King)),
        holds(b.bb(Piece::Pawn, false), s) <==> b.piece_on(s) == Some((false, Piece::Pawn)),
        holds(b.bb(Piece::Knight, false), s) <==> b.piece_on(s) == Some((false, Piece::Knight)),
        holds(b.bb(Piece::Bishop, false), s) <==> b.piece_on(s) == Some((false, Piece::Bishop)),
        holds(b.bb(Piece::Rook, false), s) <==> b.piece_on(s) == Some((false, Piece::Rook)),
        holds(b.bb(Piece::Queen, false), s) <==> b.piece_on(s) == Some((false, Piece::Queen)),
        holds(b.bb(Piece::King, false), s) <==> b.piece_on(s) == Some((false, Piece::King)),
{
}

/// The piece on `s` belongs to side `w`.
pub open spec fn side_at(b: Bitboard, w: bool, s: int) -> bool {
    b.piece_on(s) matches Some((w2, _)) && w2 == w
}

pub proof fn lemma_clear_side(b: Bitboard, w: bool, x: int)
    requires
        disjoint(b),
        0 <= x < 64,
    ensures
        disjoint(clear_side(b, w, x)),
        forall|s: int| #[trigger] clear_side(b, w, x).piece_on(s) == if s == x && side_at(b, w, s) {
            None
        } else {
            b.piece_on(s)
        },
{
    let r = clear_side(b, w, x);
    assert forall|s: int, p: Piece, q: bool| #[trigger] holds(r.bb(p, q), s) == (holds(b.bb(p, q), s) && !(q == w && s == x)) by {
    }
    assert forall|s: int| #[trigger] r.piece_on(s) == if s == x && side_at(b, w, s) { None } else { b.piece_on(s) } by {
        lemma_exact_at(b, s);
        assert(holds(r.bb(Piece::Pawn, true), s) == (holds(b.bb(Piece::Pawn, true), s) && !(true == w && s == x)));
        assert(holds(r.bb(Piece::Knight, true), s) == (holds(b.bb(Piece::Knight, true), s) && !(true == w && s == x)));
        assert(holds(r.bb(Piece::Bishop, true), s) == (holds(b.bb(Piece::Bishop, true), s) && !(true == w && s == x)));
        assert(holds(r.bb(Piece::Rook, true), s) == (holds(b.bb(Piece::Rook, true), s) && !(true == w && s == x)));
        assert(holds(r.bb(Piece::Queen, true), s) == (holds(b.bb(Piece::Queen, true), s) && !(true == w && s == x)));
        assert(holds(r.bb(Piece::King, true), s) == (holds(b.bb(Piece::King, true), s) && !(true == w && s == x)));
        assert(holds(r.bb(Piece::Pawn, false), s) == (holds(b.bb(Piece::Pawn, false), s) && !(false == w && s == x)));
        assert(holds(r.bb(Piece::Knight, false), s) == (holds(b.bb(Piece::Knight, false), s) && !(false == w && s == x)));
        assert(holds(r.bb(Piece::Bishop, false), s) == (holds(b.bb(Piece::Bishop, false), s) && !(false == w && s == x)));
        assert(holds(r.bb(Piece::Rook, false), s) == (holds(b.bb(Piece::Rook, false), s) && !(false == w && s == x)));
        assert(holds(r.bb(Piece::Queen, false), s) == (holds(b.bb(Piece::Queen, false), s) && !(false == w && s == x)));
        assert(holds(r.bb(Piece::King, false), s) == (holds(b.bb(Piece::King, false), s) && !(false == w && s == x)));
    }
}


pub proof fn lemma_place(b: Bitboard, p: Piece, w: bool, x: int)
    requires
        disjoint(b),
        0 <= x < 64,
        b.piece_on(x) is None,
    ensures
        disjoint(place(b, p, w, x)),
        forall|s: int| #[trigger] place(b, p, w, x).piece_on(s) == if s == x {
            Some((w, p))
        } else {
            b.piece_on(s)
        },
{
    let r = place(b, p, w, x);
    assert forall|s: int, q: Piece, v: bool| #[trigger] holds(r.bb(q, v), s) == (holds(b.bb(q, v), s) || (q == p && v == w && s == x)) by {
        if w {
            match p { Piece::Pawn => {}, Piece::Knight => {}, Piece::Bishop => {}, Piece::Rook => {}, Piece::Queen => {}, Piece::King => {} }
        } else {
            match p { Piece::Pawn => {}, Piece::Knight => {}, Piece::Bishop => {}, Piece::Rook => {}, Piece::Queen => {}, Piece::King => {} }
        }
    }
    assert forall|s: int| #[trigger] r.piece_on(s) == if s == x { Some((w, p)) } else { b.piece_on(s) } by {
        lemma_exact_at(b, s);
        assert(holds(r.bb(Piece::Pawn, true), s) == (holds(b.bb(Piece::Pawn, true), s) || (Piece::Pawn == p && true == w && s == x)));
        assert(holds(r.bb(Piece::Knight, true), s) == (holds(b.bb(Piece::Knight, true), s) || (Piece::Knight == p && true == w && s == x)));
        assert(holds(r.bb(Piece::Bishop, true), s) == (holds(b.bb(Piece::Bishop, true), s) || (Piece::Bishop == p && true == w && s == x)));
        assert(holds(r.bb(Piece::Rook, true), s) == (holds(b.bb(Piece::Rook, true), s) || (Piece::Rook == p && true == w && s == x)));
        assert(holds(r.bb(Piece::Queen, true), s) == (holds(b.bb(Piece::Queen, true), s) || (Piece::Queen == p && true == w && s == x)));
        assert(holds(r.bb(Piece::King, true), s) == (holds(b.bb(Piece::King, true), s) || (Piece::King == p && true == w && s == x)));
        assert(holds(r.bb(Piece::Pawn, false), s) == (holds(b.bb(Piece::Pawn, false), s) || (Piece::Pawn == p && false == w && s == x)));
        assert(holds(r.bb(Piece::Knight, false), s) == (holds(b.bb(Piece::Knight, false), s) || (Piece::Knight == p && false == w && s == x)));
        assert(holds(r.bb(Piece::Bishop, false), s) == (holds(b.bb(Piece::Bishop, false), s) || (Piece::Bishop == p && false == w && s == x)));
        assert(holds(r.bb(Piece::Rook, false), s) == (holds(b.bb(Piece::Rook, false), s) || (Piece::Rook == p && false == w && s == x)));
        assert(holds(r.bb(Piece::Queen, false), s) == (holds(b.bb(Piece::Queen, false), s) || (Piece::Queen == p && false == w && s == x)));
        assert(holds(r.bb(Piece::King, false), s) == (holds(b.bb(Piece::King, false), s) || (Piece::King == p && false == w && s == x)));
    }
    assert forall|t: int, q: Piece, v: bool| #[trigger] holds(r.bb(q, v), t) <==> r.piece_on(t) == Some((v, q)) by {
        assert(holds(b.bb(q, v), t) <==> b.piece_on(t) == Some((v, q)));
    }
}

pub proof fn lemma_remove_from(b: Bitboard, p: Piece, w: bool, x: int)
    requires
        disjoint(b),
        0 <= x < 64,
    ensures
        disjoint(remove_from(b, p, w, x)),
        forall|s: int| #[trigger] remove_from(b, p, w, x).piece_on(s) == if s == x && b.piece_on(s) == Some((w, p)) {
            None
        } else {
            b.piece_on(s)
        },
{
    let r = remove_from(b, p, w, x);
    assert forall|s: int, q: Piece, v: bool| #[trigger] holds(r.bb(q, v), s) == (holds(b.bb(q, v), s) && !(q == p && v == w && s == x)) by {
        if w {
            match p { Piece::Pawn => {}, Piece::Knight => {}, Piece::Bishop => {}, Piece::Rook => {}, Piece::Queen => {}, Piece::King => {} }
        } else {
            match p { Piece::Pawn => {}, Piece::Knight => {}, Piece::Bishop => {}, Piece::Rook => {}, Piece::Queen => {}, Piece::King => {} }
        }
    }
    assert forall|s: int| #[trigger] r.piece_on(s) == if s == x && b.piece_on(s) == Some((w, p)) { None } else { b.piece_on(s) } by {
        lemma_exact_at(b, s);
        assert(holds(r.bb(Piece::Pawn, true), s) == (holds(b.bb(Piece::Pawn, true), s) && !(Piece::Pawn == p && true == w && s == x)));
        assert(holds(r.bb(Piece::Knight, true), s) == (holds(b.bb(Piece::Knight, true), s) && !(Piece::Knight == p && true == w && s == x)));
        assert(holds(r.bb(Piece::Bishop, true), s) == (holds(b.bb(Piece::Bishop, true), s) && !(Piece::Bishop == p && true == w && s == x)));
        assert(holds(r.bb(Piece::Rook, true), s) == (holds(b.bb(Piece::Rook, true), s) && !(Piece::Rook == p && true == w && s == x)));
        assert(holds(r.bb(Piece::Queen, true), s) == (holds(b.bb(Piece::Queen, true), s) && !(Piece::Queen == p && true == w && s == x)));
        assert(holds(r.bb(Piece::King, true), s) == (holds(b.bb(Piece::King, true), s) && !(Piece::King == p && true == w && s == x)));
        assert(holds(r.bb(Piece::Pawn, false), s) == (holds(b.bb(Piece::Pawn, false), s) && !(Piece::Pawn == p && false == w && s == x)));
        assert(holds(r.bb(Piece::Knight, false), s) == (holds(b.bb(Piece::Knight, false), s) && !(Piece::Knight == p && false == w && s == x)));
        assert(holds(r.bb(Piece::Bishop, false), s) == (holds(b.bb(Piece::Bishop, false), s) && !(Piece::Bishop == p && false == w && s == x)));
        assert(holds(r.bb(Piece::Rook, false), s) == (holds(b.bb(Piece::Rook, false), s) && !(Piece::Rook == p && false == w && s == x)));
        assert(holds(r.bb(Piece::Queen, false), s) == (holds(b.bb(Piece::Queen, false), s) && !(Piece::Queen == p && false == w && s == x)));
        assert(holds(r.bb(Piece::King, false), s) == (holds(b.bb(Piece::King, false), s) && !(Piece::King == p && false == w && s == x)));
    }
    assert forall|t: int, q: Piece, v: bool| #[trigger] holds(r.bb(q, v), t) <==> r.piece_on(t) == Some((v, q)) by {
        assert(holds(b.bb(q, v), t) <==> b.piece_on(t) == Some((v, q)));
    }
}

pub proof fn lemma_put_alone(b: Bitboard, p: Piece, w: bool, x: int)
    requires
        disjoint(b),
        0 <= x < 64,
    ensures
        disjoint(put_alone(b, p, w, x)),
        forall|s: int| #[trigger] put_alone(b, p, w, x).piece_on(s) == if s == x {
            Some((w, p))
        } else {
            b.piece_on(s)
        },
{
    lemma_clear_side(b, true, x);
    let b1 = clear_side(b, true, x);
    lemma_clear_side(b1, false, x);
    let b2 = clear_side(b1, false, x);
    assert(b2.piece_on(x) is None);
    lemma_place(b2, p, w, x);
}

/// Side `w` moves the piece on `from` to `to`, where none of its pieces stands.
pub proof fn lemma_moved(b: Bitboard, placed: Piece, w: bool, from: int, to: int)
    requires
        disjoint(b),
        0 <= from < 64,
        0 <= to < 64,
        from != to,
        side_at(b, w, from),
        !side_at(b, w, to),
    ensures
        disjoint(moved(b, placed, w, from, to)),
        forall|s: int| #[trigger] moved(b, placed, w, from, to).piece_on(s) == if s == to {
            Some((w, placed))
        } else if s == from {
            None
        } else {
            b.piece_on(s)
        },
{
    lemma_clear_side(b, !w, to);
    let b1 = clear_side(b, !w, to);
    lemma_clear_side(b1, w, from);
    let b2 = clear_side(b1, w, from);
    assert(b2.piece_on(to) is None);
    lemma_place(b2, placed, w, to);
}


/// A position as play produces it: one piece at most per square, and an en-passant
/// target is an empty square on the sixth rank of the side to move, with the pawn that
/// passed it one rank beyond.
pub open spec fn valid_position(g: Game) -> bool {
    &&& disjoint(g.board)
    &&& match g.en_passent {
        Some(e) => 0 <= e < 64 && rank_of(e as int) == (if g.is_white_turn { 5int } else { 2int })
            && g.board.piece_on(e as int) is None && 0 <= ep_victim(g.is_white_turn, e as int) < 64
            && g.board.piece_on(ep_victim(g.is_white_turn, e as int)) == Some((!g.is_white_turn, Piece::Pawn)),
        None => true,
    }
}

/// The kind of the piece that moves.
pub open spec fn mover(g: Game, m: Move) -> Piece {
    g.board.piece_on(m.0 as int).unwrap().1
}

pub open spec fn placed_piece(g: Game, m: Move) -> Piece {
    match m.2 {
        Some(q) => q,
        None => mover(g, m),
    }
}

/// What stands on `s` after `m`.
pub open spec fn after_content(g: Game, m: Move, s: int) -> Option<(bool, Piece)> {
    let w = g.is_white_turn;
    let f = m.0 as int;
    let t = m.1 as int;
    if castles(g, f, t) && s == rook_landing(t) {
        Some((w, Piece::Rook))
    } else if castles(g, f, t) && s == rook_corner(t) {
        None
    } else if s == t {
        Some((w, placed_piece(g, m)))
    } else if s == f {
        None
    } else if takes_en_passant(g, f, t) && s == ep_victim(w, t) {
        None
    } else {
        g.board.piece_on(s)
    }
}

/// A pseudo-legal move names squares of the board.
pub proof fn lemma_pseudo_shape_any(g: Game, m: Move)
    requires
        pseudo_legal(g, m),
    ensures
        m.0 < 64,
        m.1 < 64,
{
}

/// A pseudo-legal move starts on a piece of the side to move and ends off its pieces.
pub proof fn lemma_pseudo_shape(g: Game, m: Move)
    requires
        valid_position(g),
        pseudo_legal(g, m),
    ensures
        g.board.piece_on(m.0 as int) matches Some((w, _)) && w == g.is_white_turn,
        !side_at(g.board, g.is_white_turn, m.1 as int),
        m.0 != m.1,
        m.2 is Some ==> mover(g, m) == Piece::Pawn,
{
    let b = g.board;
    let w = g.is_white_turn;
    let f = m.0 as int;
    let t = m.1 as int;
    vstd::std_specs::bits::axiom_u64_trailing_zeros(b.bb(Piece::King, w));
    let k = vstd::std_specs::bits::u64_trailing_zeros(b.bb(Piece::King, w));
    if b.bb(Piece::King, w) != 0 {
        assert((b.bb(Piece::King, w) >> (k as u64)) & 1u64 == 1u64);
        assert(holds(b.bb(Piece::King, w), k as int));
    }
    assert(holds(b.bb(Piece::Pawn, w), f) ==> b.piece_on(f) == Some((w, Piece::Pawn)));
    assert(holds(b.bb(Piece::Knight, w), f) ==> b.piece_on(f) == Some((w, Piece::Knight)));
    assert(holds(b.bb(Piece::Bishop, w), f) ==> b.piece_on(f) == Some((w, Piece::Bishop)));
    assert(holds(b.bb(Piece::Rook, w), f) ==> b.piece_on(f) == Some((w, Piece::Rook)));
    assert(holds(b.bb(Piece::Queen, w), f) ==> b.piece_on(f) == Some((w, Piece::Queen)));
    assert(holds(b.bb(Piece::King, w), f) ==> b.piece_on(f) == Some((w, Piece::King)));
    if side_at(b, w, t) {
        let p = b.piece_on(t).unwrap().1;
        assert(holds(b.bb(p, w), t));
        assert(holds(b.side_occ(w), t));
        assert(holds(b.occ(), t));
        assert(holds(b.bb(Piece::Pawn, !w), t) ==> b.piece_on(t) == Some((!w, Piece::Pawn)));
        assert(holds(b.bb(Piece::Knight, !w), t) ==> b.piece_on(t) == Some((!w, Piece::Knight)));
        assert(holds(b.bb(Piece::Bishop, !w), t) ==> b.piece_on(t) == Some((!w, Piece::Bishop)));
        assert(holds(b.bb(Piece::Rook, !w), t) ==> b.piece_on(t) == Some((!w, Piece::Rook)));
        assert(holds(b.bb(Piece::Queen, !w), t) ==> b.piece_on(t) == Some((!w, Piece::Queen)));
        assert(holds(b.bb(Piece::King, !w), t) ==> b.piece_on(t) == Some((!w, Piece::King)));
    }
}

/// The board after a pseudo-legal move: what stands on each square, and the sets stay
/// disjoint.
pub proof fn lemma_board_after(g: Game, m: Move)
    requires
        valid_position(g),
        pseudo_legal(g, m),
    ensures
        disjoint(board_after(g, m.0 as int, m.1 as int, m.2)),
        forall|s: int| #[trigger] board_after(g, m.0 as int, m.1 as int, m.2).piece_on(s) == after_content(g, m, s),
{
    lemma_pseudo_shape(g, m);
    let b = g.board;
    let w = g.is_white_turn;
    let f = m.0 as int;
    let t = m.1 as int;
    let placed = placed_piece(g, m);
    lemma_moved(b, placed, w, f, t);
    let b1 = moved(b, placed, w, f, t);
    let b2 = if takes_en_passant(g, f, t) {
        clear_side(b1, !w, ep_victim(w, t))
    } else {
        b1
    };
    if takes_en_passant(g, f, t) {
        let v = ep_victim(w, t);
        assert(v != t);
        assert(v != f);
        lemma_clear_side(b1, !w, v);
    }
    if castles(g, f, t) {
        let c = rook_corner(t);
        let l = rook_landing(t);
        assert(holds(b.bb(Piece::Rook, w), c));
        assert(b.piece_on(c) == Some((w, Piece::Rook)));
        assert(!holds(b.occ(), (f + t) / 2));
        assert(l == (f + t) / 2);
        assert(b.piece_on(l) is None) by {
            if b.piece_on(l) is Some {
                let pr = b.piece_on(l).unwrap();
                assert(holds(b.bb(pr.1, pr.0), l));
            }
        }
        assert(!takes_en_passant(g, f, t));
        lemma_moved(b2, Piece::Rook, w, c, l);
    }
}

/// Making a pseudo-legal move keeps the piece sets disjoint.
pub proof fn lemma_make_keeps_disjoint(g: Game, m: Move)
    requires
        valid_position(g),
        pseudo_legal(g, m),
    ensures
        disjoint(board_after(g, m.0 as int, m.1 as int, m.2)),
{
    lemma_board_after(g, m);
}


/// The record that `make_move_unchecked` returns for `m` in `g`.
pub open spec fn undo_of(g: Game, m: Move) -> Undo {
    Undo {
        from: m.0,
        to: m.1,
        captured_piece: captured_by(g, m.0 as int, m.1 as int),
        promotion: m.2,
        previous_castling_rights: g.castling,
        previous_en_passant_square: g.en_passent,
        previous_zobrist_hash: g.zobrist_hash,
    }
}

/// Unmaking a pseudo-legal move restores the board it was made on. (Side to move,
/// castling rights, en-passant square and hash come back from the record itself.)
pub proof fn lemma_unmake_restores(g: Game, m: Move)
    requires
        valid_position(g),
        pseudo_legal(g, m),
    ensures
        board_before(board_after(g, m.0 as int, m.1 as int, m.2), g.is_white_turn, undo_of(g, m)) == g.board,
{
    lemma_pseudo_shape(g, m);
    lemma_board_after(g, m);
    let b = g.board;
    let w = g.is_white_turn;
    let f = m.0 as int;
    let t = m.1 as int;
    let a = board_after(g, f, t, m.2);
    let undo = undo_of(g, m);
    let mv = placed_piece(g, m);
    assert(a.piece_on(t) == Some((w, mv)));
    let origin = mover(g, m);
    lemma_remove_from(a, mv, w, t);
    let r0 = remove_from(a, mv, w, t);
    lemma_put_alone(r0, origin, w, f);
    let b1 = put_alone(r0, origin, w, f);
    let is_castle = mv == Piece::King && f == crate::moves::king_home(w) && crate::moves::is_castle_target(w, t);
    assert(is_castle == castles(g, f, t));
    let b2 = if is_castle {
        put_alone(remove_from(b1, Piece::Rook, w, rook_landing(t)), Piece::Rook, w, rook_corner(t))
    } else {
        b1
    };
    if is_castle {
        lemma_remove_from(b1, Piece::Rook, w, rook_landing(t));
        lemma_put_alone(remove_from(b1, Piece::Rook, w, rook_landing(t)), Piece::Rook, w, rook_corner(t));
        assert(b.piece_on(rook_landing(t)) is None) by {
            if b.piece_on(rook_landing(t)) is Some {
                let pr = b.piece_on(rook_landing(t)).unwrap();
                assert(holds(b.bb(pr.1, pr.0), rook_landing(t)));
            }
        }
        assert(b.piece_on(rook_corner(t)) == Some((w, Piece::Rook))) by {
            assert(holds(b.bb(Piece::Rook, w), rook_corner(t)));
        }
    }
    let result = board_before(a, w, undo);
    match undo.captured_piece {
        Some(cp) => {
            let is_ep = origin == Piece::Pawn && undo.previous_en_passant_square == Some(undo.to)
                && 0 <= ep_victim(w, t) < 64;
            assert(is_ep == takes_en_passant(g, f, t));
            let square = if is_ep { ep_victim(w, t) } else { t };
            lemma_put_alone(b2, cp, !w, square);
            assert(result == put_alone(b2, cp, !w, square));
            if !is_ep {
                assert(b.piece_on(t) == Some((!w, cp)));
            }
            assert forall|s: int| 0 <= s < 64 implies #[trigger] result.piece_on(s) == b.piece_on(s) by {
                if is_ep && s == ep_victim(w, t) {
                    assert(b.piece_on(s) == Some((!w, Piece::Pawn)));
                }
                if is_castle && s == rook_landing(t) {
                    assert(b.piece_on(s) is None) by {
                        if b.piece_on(s) is Some {
                            let pr = b.piece_on(s).unwrap();
                            assert(holds(b.bb(pr.1, pr.0), s));
                        }
                    }
                }
            }
            lemma_same_content(result, b);
        },
        None => {
            assert(result == b2);
            assert(b.piece_on(t) is None);
            assert(!takes_en_passant(g, f, t));
            assert forall|s: int| 0 <= s < 64 implies #[trigger] result.piece_on(s) == b.piece_on(s) by {
                if is_castle && s == rook_landing(t) {
                    assert(b.piece_on(s) is None) by {
                        if b.piece_on(s) is Some {
                            let pr = b.piece_on(s).unwrap();
                            assert(holds(b.bb(pr.1, pr.0), s));
                        }
                    }
                }
            }
            lemma_same_content(result, b);
        },
    }
}


/// No pawn stands on the first or the last rank.
pub open spec fn pawns_inside(b: Bitboard) -> bool {
    forall|s: int|
        #[trigger] b.piece_on(s) is Some && b.piece_on(s).unwrap().1 == Piece::Pawn ==> 1 <= rank_of(s) <= 6
}

/// A pseudo-legal move never leaves a pawn on the first or last rank.
pub proof fn lemma_make_keeps_pawns_inside(g: Game, m: Move)
    requires
        valid_position(g),
        pawns_inside(g.board),
        pseudo_legal(g, m),
    ensures
        pawns_inside(board_after(g, m.0 as int, m.1 as int, m.2)),
{
    lemma_pseudo_shape(g, m);
    lemma_board_after(g, m);
    let a = board_after(g, m.0 as int, m.1 as int, m.2);
    let f = m.0 as int;
    assert(g.board.piece_on(f) == Some((g.is_white_turn, mover(g, m))));
    assert forall|s: int| #[trigger] a.piece_on(s) is Some && a.piece_on(s).unwrap().1 == Piece::Pawn implies 1 <= rank_of(s) <= 6 by {
        if s == m.1 as int && !castles(g, f, m.1 as int) {
            let b = g.board;
            let w = g.is_white_turn;
            assert(placed_piece(g, m) == Piece::Pawn);
            assert(m.2 is None);
            assert(b.piece_on(f) == Some((w, Piece::Pawn)));
            assert(1 <= rank_of(f) <= 6);
            assert(holds(b.bb(Piece::Pawn, w), f));
            assert(!holds(b.bb(Piece::Knight, w), f));
            assert(!holds(b.bb(Piece::Bishop, w), f));
            assert(!holds(b.bb(Piece::Rook, w), f));
            assert(!holds(b.bb(Piece::Queen, w), f));
            assert(!holds(b.bb(Piece::King, w), f));
            vstd::std_specs::bits::axiom_u64_trailing_zeros(b.bb(Piece::King, w));
            let k = vstd::std_specs::bits::u64_trailing_zeros(b.bb(Piece::King, w));
            if b.bb(Piece::King, w) != 0 && k < 64 {
                assert((b.bb(Piece::King, w) >> (k as u64)) & 1u64 == 1u64);
                assert(holds(b.bb(Piece::King, w), k as int));
            }
            assert(crate::movegen::pawn_move_ok(g, f, m.1 as int, m.2));
        }
    }
}

/// Side `w` has exactly one king.
pub open spec fn one_king(b: Bitboard, w: bool) -> bool {
    exists|k: int| 0 <= k < 64 && #[trigger] b.piece_on(k) == Some((w, Piece::King)) && forall|s: int|
        #[trigger] b.piece_on(s) == Some((w, Piece::King)) ==> s == k
}

/// The one king of side `w` stands on `king_sq`.
proof fn lemma_king_square(b: Bitboard, w: bool, k: int)
    requires
        disjoint(b),
        0 <= k < 64,
        b.piece_on(k) == Some((w, Piece::King)),
        forall|s: int| #[trigger] b.piece_on(s) == Some((w, Piece::King)) ==> s == k,
    ensures
        b.bb(Piece::King, w) != 0,
        king_sq(b, w) == k,
{
    let kb = b.bb(Piece::King, w);
    assert(holds(kb, k));
    if kb == 0 {
        assert(!holds(0u64, k));
    }
    vstd::std_specs::bits::axiom_u64_trailing_zeros(kb);
    let z = vstd::std_specs::bits::u64_trailing_zeros(kb);
    if z < 64 {
        assert((kb >> (z as u64)) & 1u64 == 1u64);
        assert(holds(kb, z as int));
        assert(b.piece_on(z as int) == Some((w, Piece::King)));
    }
}

/// A pseudo-legal move that takes a piece attacks the square it takes on.
proof fn lemma_capture_attacks(g: Game, m: Move)
    requires
        valid_position(g),
        pseudo_legal(g, m),
        g.board.piece_on(m.1 as int) is Some,
    ensures
        g.board.attacks_from(g.is_white_turn, m.0 as int, m.1 as int, g.board.occ()),
{
    let b = g.board;
    let w = g.is_white_turn;
    let f = m.0 as int;
    let t = m.1 as int;
    let pr = b.piece_on(t).unwrap();
    assert(holds(b.bb(pr.1, pr.0), t));
    assert(holds(b.occ(), t));
    vstd::std_specs::bits::axiom_u64_trailing_zeros(b.bb(Piece::King, w));
    let k = vstd::std_specs::bits::u64_trailing_zeros(b.bb(Piece::King, w));
    if b.bb(Piece::King, w) != 0 {
        assert((b.bb(Piece::King, w) >> (k as u64)) & 1u64 == 1u64);
        assert(holds(b.bb(Piece::King, w), k as int));
    }
}

/// A legal-looking position (the side that just moved is not in check) keeps one king a
/// side after any pseudo-legal move.
pub proof fn lemma_make_keeps_one_king(g: Game, m: Move)
    requires
        valid_position(g),
        one_king(g.board, true),
        one_king(g.board, false),
        !in_check(g.board, !g.is_white_turn),
        pseudo_legal(g, m),
    ensures
        one_king(board_after(g, m.0 as int, m.1 as int, m.2), true),
        one_king(board_after(g, m.0 as int, m.1 as int, m.2), false),
{
    lemma_pseudo_shape(g, m);
    lemma_board_after(g, m);
    let b = g.board;
    let w = g.is_white_turn;
    let f = m.0 as int;
    let t = m.1 as int;
    let a = board_after(g, f, t, m.2);
    let kw = choose|k: int| 0 <= k < 64 && #[trigger] b.piece_on(k) == Some((w, Piece::King)) && forall|s: int|
        #[trigger] b.piece_on(s) == Some((w, Piece::King)) ==> s == k;
    let ke = choose|k: int| 0 <= k < 64 && #[trigger] b.piece_on(k) == Some((!w, Piece::King)) && forall|s: int|
        #[trigger] b.piece_on(s) == Some((!w, Piece::King)) ==> s == k;
    lemma_king_square(b, !w, ke);
    if t == ke {
        lemma_capture_attacks(g, m);
        assert(b.attacks_from(w, f, ke, b.occ()));
        assert(b.attacked(ke, w));
        assert(false);
    }
    // the enemy king stays where it was
    assert(a.piece_on(ke) == Some((!w, Piece::King)));
    assert forall|s: int| #[trigger] a.piece_on(s) == Some((!w, Piece::King)) implies s == ke by {
        if s != ke {
            assert(b.piece_on(s) != Some((!w, Piece::King)));
        }
    }
    assert(one_king(a, !w));
    // the mover's king either moved or stayed
    let nk = if mover(g, m) == Piece::King { t } else { kw };
    assert(b.piece_on(f) == Some((w, mover(g, m))));
    if mover(g, m) == Piece::King {
        assert(f == kw);
    }
    assert(placed_piece(g, m) == Piece::King ==> mover(g, m) == Piece::King);
    assert(a.piece_on(nk) == Some((w, Piece::King)));
    assert forall|s: int| #[trigger] a.piece_on(s) == Some((w, Piece::King)) implies s == nk by {
        if s != nk && s != t {
            assert(b.piece_on(s) == Some((w, Piece::King)));
        }
    }
    assert(0 <= nk < 64);
    assert(one_king(a, w));
    if w {
        assert(one_king(a, true));
        assert(one_king(a, false));
    } else {
        assert(one_king(a, true));
        assert(one_king(a, false));
    }
}


proof fn lemma_hash_one_square(b1: Bitboard, b2: Bitboard, keys: ZobristKeys, x: int, n: int)
    requires
        0 <= x < 64,
        forall|s: int| s != x ==> #[trigger] b2.piece_on(s) == b1.piece_on(s),
    ensures
        squares_hash(b2, keys, n) == squares_hash(b1, keys, n) ^ (if x < n {
            square_key(b1, keys, x) ^ square_key(b2, keys, x)
        } else {
            0u64
        }),
    decreases n,
{
    if n <= 0 {
        assert(0u64 ^ 0u64 == 0u64) by (bit_vector);
    } else {
        lemma_hash_one_square(b1, b2, keys, x, n - 1);
        let y = squares_hash(b1, keys, n - 1);
        let a = square_key(b1, keys, n - 1);
        let c = square_key(b2, keys, n - 1);
        if n - 1 == x {
            assert(y ^ 0u64 == y) by (bit_vector);
            assert((y ^ c) == (y ^ a) ^ (a ^ c)) by (bit_vector);
        } else {
            assert(b2.piece_on(n - 1) == b1.piece_on(n - 1));
            let d: u64 = if x < n - 1 { square_key(b1, keys, x) ^ square_key(b2, keys, x) } else { 0u64 };
            assert(((y ^ d) ^ a) == ((y ^ a) ^ d)) by (bit_vector);
        }
    }
}

/// A change of the piece on one square `x` changes the board's hash by the keys of
/// what stood there before and after.
pub proof fn lemma_hash_step(b1: Bitboard, b2: Bitboard, keys: ZobristKeys, x: int)
    requires
        0 <= x < 64,
        forall|s: int| s != x ==> #[trigger] b2.piece_on(s) == b1.piece_on(s),
    ensures
        squares_hash(b2, keys, 64) == squares_hash(b1, keys, 64) ^ (square_key(b1, keys, x) ^ square_key(b2, keys, x)),
{
    lemma_hash_one_square(b1, b2, keys, x, 64);
}

/// The hash that make keeps incrementally equals the hash of the new position computed
/// from scratch, when it did so before the move.
pub proof fn lemma_hash_consistent(g: Game, m: Move)
    requires
        valid_position(g),
        pseudo_legal(g, m),
        g.keys.wf(),
        g.zobrist_hash == g.full_hash(),
    ensures
        hash_after(g, m.0 as int, m.1 as int, m.2) == position_hash(
            board_after(g, m.0 as int, m.1 as int, m.2),
            !g.is_white_turn,
            castling_after(g, m.0 as int, m.1 as int),
            ep_after(g, m.0 as int, m.1 as int),
            g.keys,
        ),
{
    lemma_pseudo_shape(g, m);
    lemma_board_after(g, m);
    let b = g.board;
    let w = g.is_white_turn;
    let f = m.0 as int;
    let t = m.1 as int;
    let keys = g.keys;
    let p = mover(g, m);
    let placed = placed_piece(g, m);
    let ep = takes_en_passant(g, f, t);
    let cs = castles(g, f, t);
    // the steps of the move, one square each
    lemma_clear_side(b, !w, t);
    let c1 = clear_side(b, !w, t);
    lemma_clear_side(c1, w, f);
    let c2 = clear_side(c1, w, f);
    lemma_place(c2, placed, w, t);
    let c3 = place(c2, placed, w, t);
    lemma_hash_step(b, c1, keys, t);
    lemma_hash_step(c1, c2, keys, f);
    lemma_hash_step(c2, c3, keys, t);
    let k_t0 = square_key(b, keys, t);
    let k_f = keys.piece_key(w, p, f);
    let k_t = keys.piece_key(w, placed, t);
    assert(square_key(c1, keys, t) == 0u64);
    assert(square_key(c1, keys, f) == k_f);
    assert(square_key(c2, keys, f) == 0u64);
    assert(square_key(c2, keys, t) == 0u64);
    assert(square_key(c3, keys, t) == k_t);
    let h0 = squares_hash(b, keys, 64);
    let x0 = keys.castling_keys@[(g.castling & 15) as int];
    let e0 = ep_key(&keys, g.en_passent);
    let sk = keys.side_to_move_key;
    let s0: u64 = if w { sk } else { 0u64 };
    let s1: u64 = if !w { sk } else { 0u64 };
    assert(s0 ^ sk == s1) by {
        if w {
            assert(sk ^ sk == 0u64) by (bit_vector);
        } else {
            assert(0u64 ^ sk == sk) by (bit_vector);
        }
    }
    let x1 = keys.castling_keys@[(castling_after(g, f, t) & 15) as int];
    let e1 = ep_key(&keys, ep_after(g, f, t));
    let h3 = squares_hash(c3, keys, 64);
    assert(h3 == ((h0 ^ (k_t0 ^ 0u64)) ^ (k_f ^ 0u64)) ^ (0u64 ^ k_t));
    // what was taken
    let k_cap: u64 = match captured_by(g, f, t) {
        Some(cp) => keys.piece_key(!w, cp, if ep { ep_victim(w, t) } else { t }),
        None => 0u64,
    };
    let c4 = if ep { clear_side(c3, !w, ep_victim(w, t)) } else { c3 };
    let h4 = squares_hash(c4, keys, 64);
    if ep {
        let v = ep_victim(w, t);
        lemma_clear_side(c3, !w, v);
        lemma_hash_step(c3, c4, keys, v);
        assert(b.piece_on(t) is None);
        assert(k_t0 == 0u64);
        assert(square_key(c3, keys, v) == keys.piece_key(!w, Piece::Pawn, v));
        assert(square_key(c4, keys, v) == 0u64);
        assert(h4 == h3 ^ (k_cap ^ 0u64));
    } else {
        match b.piece_on(t) {
            Some((q, cp)) => {
                assert(q == !w);
                assert(k_t0 == k_cap);
            },
            None => {
                assert(k_t0 == k_cap);
            },
        }
    }
    // the castling rook
    let l = rook_landing(t);
    let c = rook_corner(t);
    let a = board_after(g, f, t, m.2);
    let ha = squares_hash(a, keys, 64);
    let k_c = keys.piece_key(w, Piece::Rook, c);
    let k_l = keys.piece_key(w, Piece::Rook, l);
    if cs {
        assert(!ep);
        assert(b.piece_on(l) is None) by {
            if b.piece_on(l) is Some {
                let pr = b.piece_on(l).unwrap();
                assert(holds(b.bb(pr.1, pr.0), l));
            }
        }
        assert(b.piece_on(c) == Some((w, Piece::Rook))) by {
            assert(holds(b.bb(Piece::Rook, w), c));
        }
        lemma_clear_side(c4, !w, l);
        let c5 = clear_side(c4, !w, l);
        lemma_clear_side(c5, w, c);
        let c6 = clear_side(c5, w, c);
        lemma_place(c6, Piece::Rook, w, l);
        let c7 = place(c6, Piece::Rook, w, l);
        assert(c7 == a);
        lemma_hash_step(c4, c5, keys, l);
        lemma_hash_step(c5, c6, keys, c);
        lemma_hash_step(c6, c7, keys, l);
        assert(square_key(c4, keys, l) == 0u64);
        assert(square_key(c5, keys, l) == 0u64);
        assert(square_key(c5, keys, c) == k_c);
        assert(square_key(c6, keys, c) == 0u64);
        assert(square_key(c6, keys, l) == 0u64);
        assert(square_key(c7, keys, l) == k_l);
        assert(ha == ((h4 ^ (0u64 ^ 0u64)) ^ (k_c ^ 0u64)) ^ (0u64 ^ k_l));
        assert(b.piece_on(t) is None);
        assert(k_t0 == 0u64);
        assert(k_cap == 0u64);
        assert(h4 == h3);
        let hb = h0 ^ x0 ^ e0 ^ s0;
        let r3 = hb ^ e0 ^ x0 ^ k_f;
        let r4 = if captured_by(g, f, t) is Some { r3 ^ k_cap } else { r3 };
        assert(r4 == r3 ^ k_cap) by {
            assert(r3 ^ 0u64 == r3) by (bit_vector);
        }
        let r10 = r4 ^ k_c ^ k_l ^ e1 ^ x1 ^ k_t ^ sk;
        assert(hash_after(g, f, t, m.2) == r10);
        assert(r10 == ha ^ x1 ^ e1 ^ s1) by (bit_vector)
            requires
                hb == h0 ^ x0 ^ e0 ^ s0,
                r4 == (hb ^ e0 ^ x0 ^ k_f) ^ k_cap,
                r10 == r4 ^ k_c ^ k_l ^ e1 ^ x1 ^ k_t ^ sk,
                k_cap == 0u64,
                h3 == ((h0 ^ (k_t0 ^ 0u64)) ^ (k_f ^ 0u64)) ^ (0u64 ^ k_t),
                k_t0 == 0u64,
                ha == ((h3 ^ (0u64 ^ 0u64)) ^ (k_c ^ 0u64)) ^ (0u64 ^ k_l),
                s0 ^ sk == s1,
        ;
    } else {
        assert(a == c4);
        let hb = h0 ^ x0 ^ e0 ^ s0;
        let r3 = hb ^ e0 ^ x0 ^ k_f;
        let r4 = if captured_by(g, f, t) is Some { r3 ^ k_cap } else { r3 };
        assert(r4 == r3 ^ k_cap) by {
            assert(r3 ^ 0u64 == r3) by (bit_vector);
        }
        let r8 = r4 ^ e1 ^ x1 ^ k_t ^ sk;
        assert(hash_after(g, f, t, m.2) == r8);
        if ep {
            assert(r8 == h4 ^ x1 ^ e1 ^ s1) by (bit_vector)
                requires
                    hb == h0 ^ x0 ^ e0 ^ s0,
                    r4 == (hb ^ e0 ^ x0 ^ k_f) ^ k_cap,
                    r8 == r4 ^ e1 ^ x1 ^ k_t ^ sk,
                    h3 == ((h0 ^ (k_t0 ^ 0u64)) ^ (k_f ^ 0u64)) ^ (0u64 ^ k_t),
                    k_t0 == 0u64,
                    h4 == h3 ^ (k_cap ^ 0u64),
                    s0 ^ sk == s1,
            ;
        } else {
            assert(h4 == h3);
            assert(r8 == h4 ^ x1 ^ e1 ^ s1) by (bit_vector)
                requires
                    hb == h0 ^ x0 ^ e0 ^ s0,
                    r4 == (hb ^ e0 ^ x0 ^ k_f) ^ k_cap,
                    r8 == r4 ^ e1 ^ x1 ^ k_t ^ sk,
                    h3 == ((h0 ^ (k_t0 ^ 0u64)) ^ (k_f ^ 0u64)) ^ (0u64 ^ k_t),
                    k_t0 == k_cap,
                    h4 == h3,
                    s0 ^ sk == s1,
            ;
        }
    }
}


/// Two games stand at the same position with the same hash, keys and history.
pub open spec fn same_position(a: Game, b: Game) -> bool {
    &&& a.board == b.board
    &&& a.is_white_turn == b.is_white_turn
    &&& a.castling == b.castling
    &&& a.en_passent == b.en_passent
    &&& a.zobrist_hash == b.zobrist_hash
    &&& a.keys == b.keys
    &&& a.position_history == b.position_history
}

/// The game after `m`, as `make_move_unchecked` leaves it.
pub open spec fn game_after(g: Game, m: Move) -> Game {
    Game {
        board: board_after(g, m.0 as int, m.1 as int, m.2),
        is_white_turn: !g.is_white_turn,
        castling: castling_after(g, m.0 as int, m.1 as int),
        en_passent: ep_after(g, m.0 as int, m.1 as int),
        zobrist_hash: hash_after(g, m.0 as int, m.1 as int, m.2),
        ..g
    }
}

/// A pseudo-legal move leads from a valid position to a valid position.
pub proof fn lemma_make_keeps_valid(g: Game, m: Move)
    requires
        valid_position(g),
        pseudo_legal(g, m),
    ensures
        valid_position(game_after(g, m)),
{
    lemma_pseudo_shape(g, m);
    lemma_board_after(g, m);
    let b = g.board;
    let w = g.is_white_turn;
    let f = m.0 as int;
    let t = m.1 as int;
    let a = board_after(g, f, t, m.2);
    match ep_after(g, f, t) {
        Some(e) => {
            assert(b.piece_on(f) == Some((w, Piece::Pawn)));
            assert(holds(b.bb(Piece::Pawn, w), f));
            assert(!holds(b.bb(Piece::Knight, w), f));
            assert(!holds(b.bb(Piece::Bishop, w), f));
            assert(!holds(b.bb(Piece::Rook, w), f));
            assert(!holds(b.bb(Piece::Queen, w), f));
            assert(!holds(b.bb(Piece::King, w), f));
            vstd::std_specs::bits::axiom_u64_trailing_zeros(b.bb(Piece::King, w));
            let k = vstd::std_specs::bits::u64_trailing_zeros(b.bb(Piece::King, w));
            if b.bb(Piece::King, w) != 0 && k < 64 {
                assert((b.bb(Piece::King, w) >> (k as u64)) & 1u64 == 1u64);
                assert(holds(b.bb(Piece::King, w), k as int));
            }
            assert(crate::movegen::pawn_move_ok(g, f, t, m.2));
            let mid = (f + t) / 2;
            assert(!holds(b.occ(), mid));
            assert(b.piece_on(mid) is None) by {
                if b.piece_on(mid) is Some {
                    let pr = b.piece_on(mid).unwrap();
                    assert(holds(b.bb(pr.1, pr.0), mid));
                }
            }
            assert(!takes_en_passant(g, f, t)) by {
                if g.en_passent == Some(t as usize) {
                    assert(b.piece_on(t) is None);
                }
            }
            assert(!castles(g, f, t));
            assert(a.piece_on(mid) is None);
            assert(a.piece_on(t) == Some((w, Piece::Pawn)));
        },
        None => {},
    }
}


/// Twelve sets that pairwise share no square are disjoint.
pub proof fn lemma_disjoint_if_pairwise(b: Bitboard)
    requires
        b.white_king & b.white_queen == 0,
        b.white_king & b.white_rook == 0,
        b.white_king & b.white_bishop == 0,
        b.white_king & b.white_knight == 0,
        b.white_king & b.white_pawns == 0,
        b.white_king & b.black_king == 0,
        b.white_king & b.black_queen == 0,
        b.white_king & b.black_rook == 0,
        b.white_king & b.black_bishop == 0,
        b.white_king & b.black_knight == 0,
        b.white_king & b.black_pawns == 0,
        b.white_queen & b.white_rook == 0,
        b.white_queen & b.white_bishop == 0,
        b.white_queen & b.white_knight == 0,
        b.white_queen & b.white_pawns == 0,
        b.white_queen & b.black_king == 0,
        b.white_queen & b.black_queen == 0,
        b.white_queen & b.black_rook == 0,
        b.white_queen & b.black_bishop == 0,
        b.white_queen & b.black_knight == 0,
        b.white_queen & b.black_pawns == 0,
        b.white_rook & b.white_bishop == 0,
        b.white_rook & b.white_knight == 0,
        b.white_rook & b.white_pawns == 0,
        b.white_rook & b.black_king == 0,
        b.white_rook & b.black_queen == 0,
        b.white_rook & b.black_rook == 0,
        b.white_rook & b.black_bishop == 0,
        b.white_rook & b.black_knight == 0,
        b.white_rook & b.black_pawns == 0,
        b.white_bishop & b.white_knight == 0,
        b.white_bishop & b.white_pawns == 0,
        b.white_bishop & b.black_king == 0,
        b.white_bishop & b.black_queen == 0,
        b.white_bishop & b.black_rook == 0,
        b.white_bishop & b.black_bishop == 0,
        b.white_bishop & b.black_knight == 0,
        b.white_bishop & b.black_pawns == 0,
        b.white_knight & b.white_pawns == 0,
        b.white_knight & b.black_king == 0,
        b.white_knight & b.black_queen == 0,
        b.white_knight & b.black_rook == 0,
        b.white_knight & b.black_bishop == 0,
        b.white_knight & b.black_knight == 0,
        b.white_knight & b.black_pawns == 0,
        b.white_pawns & b.black_king == 0,
        b.white_pawns & b.black_queen == 0,
        b.white_pawns & b.black_rook == 0,
        b.white_pawns & b.black_bishop == 0,
        b.white_pawns & b.black_knight == 0,
        b.white_pawns & b.black_pawns == 0,
        b.black_king & b.black_queen == 0,
        b.black_king & b.black_rook == 0,
        b.black_king & b.black_bishop == 0,
        b.black_king & b.black_knight == 0,
        b.black_king & b.black_pawns == 0,
        b.black_queen & b.black_rook == 0,
        b.black_queen & b.black_bishop == 0,
        b.black_queen & b.black_knight == 0,
        b.black_queen & b.black_pawns == 0,
        b.black_rook & b.black_bishop == 0,
        b.black_rook & b.black_knight == 0,
        b.black_rook & b.black_pawns == 0,
        b.black_bishop & b.black_knight == 0,
        b.black_bishop & b.black_pawns == 0,
        b.black_knight & b.black_pawns == 0,
    ensures
        disjoint(b),
{
    assert forall|s: int, p: Piece, w: bool| #[trigger] holds(b.bb(p, w), s) <==> b.piece_on(s) == Some((w, p)) by {
        assert(!holds(0u64, s));
        assert(!holds(b.white_king & b.white_queen, s));
        assert(!holds(b.white_king & b.white_rook, s));
        assert(!holds(b.white_king & b.white_bishop, s));
        assert(!holds(b.white_king & b.white_knight, s));
        assert(!holds(b.white_king & b.white_pawns, s));
        assert(!holds(b.white_king & b.black_king, s));
        assert(!holds(b.white_king & b.black_queen, s));
        assert(!holds(b.white_king & b.black_rook, s));
        assert(!holds(b.white_king & b.black_bishop, s));
        assert(!holds(b.white_king & b.black_knight, s));
        assert(!holds(b.white_king & b.black_pawns, s));
        assert(!holds(b.white_queen & b.white_rook, s));
        assert(!holds(b.white_queen & b.white_bishop, s));
        assert(!holds(b.white_queen & b.white_knight, s));
        assert(!holds(b.white_queen & b.white_pawns, s));
        assert(!holds(b.white_queen & b.black_king, s));
        assert(!holds(b.white_queen & b.black_queen, s));
        assert(!holds(b.white_queen & b.black_rook, s));
        assert(!holds(b.white_queen & b.black_bishop, s));
        assert(!holds(b.white_queen & b.black_knight, s));
        assert(!holds(b.white_queen & b.black_pawns, s));
        assert(!holds(b.white_rook & b.white_bishop, s));
        assert(!holds(b.white_rook & b.white_knight, s));
        assert(!holds(b.white_rook & b.white_pawns, s));
        assert(!holds(b.white_rook & b.black_king, s));
        assert(!holds(b.white_rook & b.black_queen, s));
        assert(!holds(b.white_rook & b.black_rook, s));
        assert(!holds(b.white_rook & b.black_bishop, s));
        assert(!holds(b.white_rook & b.black_knight, s));
        assert(!holds(b.white_rook & b.black_pawns, s));
        assert(!holds(b.white_bishop & b.white_knight, s));
        assert(!holds(b.white_bishop & b.white_pawns, s));
        assert(!holds(b.white_bishop & b.black_king, s));
        assert(!holds(b.white_bishop & b.black_queen, s));
        assert(!holds(b.white_bishop & b.black_rook, s));
        assert(!holds(b.white_bishop & b.black_bishop, s));
        assert(!holds(b.white_bishop & b.black_knight, s));
        assert(!holds(b.white_bishop & b.black_pawns, s));
        assert(!holds(b.white_knight & b.white_pawns, s));
        assert(!holds(b.white_knight & b.black_king, s));
        assert(!holds(b.white_knight & b.black_queen, s));
        assert(!holds(b.white_knight & b.black_rook, s));
        assert(!holds(b.white_knight & b.black_bishop, s));
        assert(!holds(b.white_knight & b.black_knight, s));
        assert(!holds(b.white_knight & b.black_pawns, s));
        assert(!holds(b.white_pawns & b.black_king, s));
        assert(!holds(b.white_pawns & b.black_queen, s));
        assert(!holds(b.white_pawns & b.black_rook, s));
        assert(!holds(b.white_pawns & b.black_bishop, s));
        assert(!holds(b.white_pawns & b.black_knight, s));
        assert(!holds(b.white_pawns & b.black_pawns, s));
        assert(!holds(b.black_king & b.black_queen, s));
        assert(!holds(b.black_king & b.black_rook, s));
        assert(!holds(b.black_king & b.black_bishop, s));
        assert(!holds(b.black_king & b.black_knight, s));
        assert(!holds(b.black_king & b.black_pawns, s));
        assert(!holds(b.black_queen & b.black_rook, s));
        assert(!holds(b.black_queen & b.black_bishop, s));
        assert(!holds(b.black_queen & b.black_knight, s));
        assert(!holds(b.black_queen & b.black_pawns, s));
        assert(!holds(b.black_rook & b.black_bishop, s));
        assert(!holds(b.black_rook & b.black_knight, s));
        assert(!holds(b.black_rook & b.black_pawns, s));
        assert(!holds(b.black_bishop & b.black_knight, s));
        assert(!holds(b.black_bishop & b.black_pawns, s));
        assert(!holds(b.black_knight & b.black_pawns, s));
    }
}

/// In the starting position pawns stand on the second and seventh ranks only, and each
/// side has one king.
pub proof fn lemma_start_shape(b: Bitboard)
    requires
        b == Bitboard::start(),
    ensures
        pawns_inside(b),
        one_king(b, true),
        one_king(b, false),
{
    lemma_start_valid_board(b);
    assert forall|s: int| #[trigger] b.piece_on(s) is Some && b.piece_on(s).unwrap().1 == Piece::Pawn implies 1 <= rank_of(s) <= 6 by {
        let w = b.piece_on(s).unwrap().0;
        assert(holds(b.bb(Piece::Pawn, w), s));
        let u = s as u64;
        assert((((0x000000000000FF00u64 >> u) & 1) == 1 || ((0x00FF000000000000u64 >> u) & 1) == 1) ==> (8 <= u < 16 || 48 <= u < 56)) by (bit_vector);
    }
    assert forall|s: int| #[trigger] b.piece_on(s) == Some((true, Piece::King)) implies s == 4 by {
        assert(holds(b.bb(Piece::King, true), s));
        let u = s as u64;
        assert(((0x10u64 >> u) & 1) == 1 ==> u == 4) by (bit_vector);
    }
    assert forall|s: int| #[trigger] b.piece_on(s) == Some((false, Piece::King)) implies s == 60 by {
        assert(holds(b.bb(Piece::King, false), s));
        let u = s as u64;
        assert(((0x1000000000000000u64 >> u) & 1) == 1 ==> u == 60) by (bit_vector);
    }
    assert(holds(b.white_king, 4)) by {
        assert(((0x10u64 >> 4u64) & 1) == 1) by (bit_vector);
    }
    assert(holds(b.black_king, 60)) by {
        assert(((0x1000000000000000u64 >> 60u64) & 1) == 1) by (bit_vector);
    }
    lemma_exact_at(b, 4);
    lemma_exact_at(b, 60);
    assert(b.piece_on(4) == Some((true, Piece::King)));
    assert(b.piece_on(60) == Some((false, Piece::King)));
}

/// The starting position is valid.
pub proof fn lemma_start_valid(g: Game)
    requires
        g.board == Bitboard::start(),
        g.en_passent is None,
    ensures
        valid_position(g),
{
    lemma_start_valid_board(g.board);
}

proof fn lemma_start_valid_board(b: Bitboard)
    requires
        b == Bitboard::start(),
    ensures
        disjoint(b),
{
    assert((0x0000000000000010u64 & 0x0000000000000008u64) == 0u64 && (0x0000000000000010u64 & 0x0000000000000081u64) == 0u64 && (0x0000000000000010u64 & 0x0000000000000024u64) == 0u64 && (0x0000000000000010u64 & 0x0000000000000042u64) == 0u64 && (0x0000000000000010u64 & 0x000000000000FF00u64) == 0u64 && (0x0000000000000010u64 & 0x1000000000000000u64) == 0u64 && (0x0000000000000010u64 & 0x0800000000000000u64) == 0u64 && (0x0000000000000010u64 & 0x8100000000000000u64) == 0u64 && (0x0000000000000010u64 & 0x2400000000000000u64) == 0u64 && (0x0000000000000010u64 & 0x4200000000000000u64) == 0u64 && (0x0000000000000010u64 & 0x00FF000000000000u64) == 0u64 && (0x0000000000000008u64 & 0x0000000000000081u64) == 0u64 && (0x0000000000000008u64 & 0x0000000000000024u64) == 0u64 && (0x0000000000000008u64 & 0x0000000000000042u64) == 0u64 && (0x0000000000000008u64 & 0x000000000000FF00u64) == 0u64 && (0x0000000000000008u64 & 0x1000000000000000u64) == 0u64 && (0x0000000000000008u64 & 0x0800000000000000u64) == 0u64 && (0x0000000000000008u64 & 0x8100000000000000u64) == 0u64 && (0x0000000000000008u64 & 0x2400000000000000u64) == 0u64 && (0x0000000000000008u64 & 0x4200000000000000u64) == 0u64 && (0x0000000000000008u64 & 0x00FF000000000000u64) == 0u64 && (0x0000000000000081u64 & 0x0000000000000024u64) == 0u64 && (0x0000000000000081u64 & 0x0000000000000042u64) == 0u64 && (0x0000000000000081u64 & 0x000000000000FF00u64) == 0u64 && (0x0000000000000081u64 & 0x1000000000000000u64) == 0u64 && (0x0000000000000081u64 & 0x0800000000000000u64) == 0u64 && (0x0000000000000081u64 & 0x8100000000000000u64) == 0u64 && (0x0000000000000081u64 & 0x2400000000000000u64) == 0u64 && (0x0000000000000081u64 & 0x4200000000000000u64) == 0u64 && (0x0000000000000081u64 & 0x00FF000000000000u64) == 0u64 && (0x0000000000000024u64 & 0x0000000000000042u64) == 0u64 && (0x0000000000000024u64 & 0x000000000000FF00u64) == 0u64 && (0x0000000000000024u64 & 0x1000000000000000u64) == 0u64 && (0x0000000000000024u64 & 0x0800000000000000u64) == 0u64 && (0x0000000000000024u64 & 0x8100000000000000u64) == 0u64 && (0x0000000000000024u64 & 0x2400000000000000u64) == 0u64 && (0x0000000000000024u64 & 0x4200000000000000u64) == 0u64 && (0x0000000000000024u64 & 0x00FF000000000000u64) == 0u64 && (0x0000000000000042u64 & 0x000000000000FF00u64) == 0u64 && (0x0000000000000042u64 & 0x1000000000000000u64) == 0u64 && (0x0000000000000042u64 & 0x0800000000000000u64) == 0u64 && (0x0000000000000042u64 & 0x8100000000000000u64) == 0u64 && (0x0000000000000042u64 & 0x2400000000000000u64) == 0u64 && (0x0000000000000042u64 & 0x4200000000000000u64) == 0u64 && (0x0000000000000042u64 & 0x00FF000000000000u64) == 0u64 && (0x000000000000FF00u64 & 0x1000000000000000u64) == 0u64 && (0x000000000000FF00u64 & 0x0800000000000000u64) == 0u64 && (0x000000000000FF00u64 & 0x8100000000000000u64) == 0u64 && (0x000000000000FF00u64 & 0x2400000000000000u64) == 0u64 && (0x000000000000FF00u64 & 0x4200000000000000u64) == 0u64 && (0x000000000000FF00u64 & 0x00FF000000000000u64) == 0u64 && (0x1000000000000000u64 & 0x0800000000000000u64) == 0u64 && (0x1000000000000000u64 & 0x8100000000000000u64) == 0u64 && (0x1000000000000000u64 & 0x2400000000000000u64) == 0u64 && (0x1000000000000000u64 & 0x4200000000000000u64) == 0u64 && (0x1000000000000000u64 & 0x00FF000000000000u64) == 0u64 && (0x0800000000000000u64 & 0x8100000000000000u64) == 0u64 && (0x0800000000000000u64 & 0x2400000000000000u64) == 0u64 && (0x0800000000000000u64 & 0x4200000000000000u64) == 0u64 && (0x0800000000000000u64 & 0x00FF000000000000u64) == 0u64 && (0x8100000000000000u64 & 0x2400000000000000u64) == 0u64 && (0x8100000000000000u64 & 0x4200000000000000u64) == 0u64 && (0x8100000000000000u64 & 0x00FF000000000000u64) == 0u64 && (0x2400000000000000u64 & 0x4200000000000000u64) == 0u64 && (0x2400000000000000u64 & 0x00FF000000000000u64) == 0u64 && (0x4200000000000000u64 & 0x00FF000000000000u64) == 0u64) by (bit_vector);
    lemma_disjoint_if_pairwise(b);
}

} // verus!
