//! Pseudo-legal move generation: every move that obeys piece geometry and does not take
//! a friendly piece, before the test for leaving the king attacked.
use vstd::prelude::*;
use crate::bits::{group_bits, holds, is_set, lowest_square, without, rank_of};
use crate::bitboard::{Bitboard, Piece};
use crate::game::{king_sq, Game};
use crate::geometry::{dist, king_step, pawn_hit, pawn_push_target};
use crate::movelist::{Move, MoveList};
use crate::laws::valid_position;
use crate::moves::{castle_right, is_castle_target, king_home, last_rank, promotable, rook_corner, step_ok};

verus! {

broadcast use group_bits, vstd::seq_lib::group_seq_properties;

/// `promo` is what a pawn arriving on `t` must name: a piece on the last rank, none elsewhere.
pub open spec fn promo_fits(w: bool, t: int, promo: Option<Piece>) -> bool {
    if rank_of(t) == last_rank(w) {
        promo is Some && promotable(promo.unwrap())
    } else {
        promo is None
    }
}

/// A pawn push, capture or en-passant capture of the side to move.
pub open spec fn pawn_move_ok(g: Game, f: int, t: int, promo: Option<Piece>) -> bool {
    let w = g.is_white_turn;
    let b = g.board;
    let occ = b.occ();
    holds(b.bb(Piece::Pawn, w), f) && ((promo_fits(w, t, promo) && ((pawn_push_target(w, f, t)
        && !holds(occ, t) && (dist(f, t) == 16 ==> !holds(occ, (f + t) / 2))) || (pawn_hit(w, f, t)
        && holds(b.side_occ(!w), t)))) || (g.en_passent == Some(t as usize) && pawn_hit(w, f, t)
        && promo is None))
}

/// A castling move of the side to move: the right is held, king and rook stand at home,
/// the squares between are empty, and neither the king's square nor the one it crosses
/// nor its destination is attacked.
pub open spec fn castle_ok(g: Game, f: int, t: int, promo: Option<Piece>) -> bool {
    let w = g.is_white_turn;
    let b = g.board;
    let occ = b.occ();
    &&& promo is None
    &&& f == king_home(w)
    &&& is_castle_target(w, t)
    &&& g.castling & castle_right(w, t) != 0
    &&& holds(b.bb(Piece::King, w), f)
    &&& holds(b.bb(Piece::Rook, w), rook_corner(t))
    &&& !holds(occ, (f + t) / 2) && !holds(occ, t) && (t == 2 || t == 58 ==> !holds(occ, t - 1))
    &&& !b.attacked(f, !w) && !b.attacked((f + t) / 2, !w) && !b.attacked(t, !w)
}

/// A king step (not castling) of the side to move.
pub open spec fn king_move_ok(g: Game, f: int, t: int, promo: Option<Piece>) -> bool {
    let w = g.is_white_turn;
    let b = g.board;
    promo is None && b.bb(Piece::King, w) != 0 && f == king_sq(b, w) && king_step(f, t) && !holds(
        b.side_occ(w),
        t,
    )
}

/// A knight, bishop, rook or queen move of the side to move.
pub open spec fn stepper_ok(g: Game, f: int, t: int, promo: Option<Piece>) -> bool {
    let w = g.is_white_turn;
    promo is None && (step_ok(g.board, Piece::Knight, w, f, t) || step_ok(
        g.board,
        Piece::Bishop,
        w,
        f,
        t,
    ) || step_ok(g.board, Piece::Rook, w, f, t) || step_ok(g.board, Piece::Queen, w, f, t))
}

/// `m` is a pseudo-legal move in `g`.
pub open spec fn pseudo_legal(g: Game, m: Move) -> bool {
    let f = m.0 as int;
    let t = m.1 as int;
    m.0 < 64 && m.1 < 64 && (stepper_ok(g, f, t, m.2) || king_move_ok(g, f, t, m.2)
        || pawn_move_ok(g, f, t, m.2) || castle_ok(g, f, t, m.2))
}

pub open spec fn promo_choice(promote: bool, p: Option<Piece>) -> bool {
    if promote {
        p is Some && promotable(p.unwrap())
    } else {
        p is None
    }
}

/// Adds a move from `from` to each square of `targets`: four, one per promotion piece,
/// when `promote`.
fn add_targets(moves: &mut MoveList, from: usize, targets: u64, promote: bool, Ghost(strict): Ghost<bool>)
    requires
        strict ==> old(moves)@.no_duplicates(),
        strict ==> forall|m: Move| #[trigger] old(moves)@.contains(m) ==> !(m.0 == from && holds(targets, m.1 as int)),
    ensures
        strict ==> final(moves)@.no_duplicates(),
        forall|m: Move| #[trigger]
            final(moves)@.contains(m) <==> (old(moves)@.contains(m) || (m.0 == from && holds(
                targets,
                m.1 as int,
            ) && promo_choice(promote, m.2))),
{
    let mut rem = targets;
    while rem != 0
        invariant
            forall|t: int| #[trigger] holds(rem, t) ==> holds(targets, t),
            forall|m: Move| #[trigger]
                moves@.contains(m) <==> (old(moves)@.contains(m) || (m.0 == from && holds(
                    targets,
                    m.1 as int,
                ) && !holds(rem, m.1 as int) && promo_choice(promote, m.2))),
            strict ==> moves@.no_duplicates(),
            strict ==> forall|m: Move| #[trigger] old(moves)@.contains(m) ==> !(m.0 == from && holds(targets, m.1 as int)),
        decreases rem,
    {
        let to = lowest_square(rem);
        proof {
            if strict {
                assert(forall|m: Move| #[trigger] moves@.contains(m) && m.0 == from ==> m.1 != to);
            }
        }
        if promote {
            let ghost s0 = moves@;
            moves.add(from, to, Some(Piece::Queen));
            let ghost s1 = moves@;
            moves.add(from, to, Some(Piece::Rook));
            let ghost s2 = moves@;
            moves.add(from, to, Some(Piece::Bishop));
            let ghost s3 = moves@;
            moves.add(from, to, Some(Piece::Knight));
            proof {
                if strict {
                    lemma_push_distinct(s0, (from, to, Some(Piece::Queen)));
                    assert(!s1.contains((from, to, Some(Piece::Rook))));
                    lemma_push_distinct(s1, (from, to, Some(Piece::Rook)));
                    assert(!s2.contains((from, to, Some(Piece::Bishop))));
                    lemma_push_distinct(s2, (from, to, Some(Piece::Bishop)));
                    assert(!s3.contains((from, to, Some(Piece::Knight))));
                    lemma_push_distinct(s3, (from, to, Some(Piece::Knight)));
                }
            }
        } else {
            let ghost s0 = moves@;
            moves.add(from, to, None);
            proof {
                if strict {
                    lemma_push_distinct(s0, (from, to, None));
                }
            }
        }
        rem = without(rem, to);
    }
    proof {
        assert forall|m: Move| #[trigger]
            moves@.contains(m) <==> (old(moves)@.contains(m) || (m.0 == from && holds(targets, m.1 as int)
                && promo_choice(promote, m.2))) by {
            assert(!holds(0u64, m.1 as int));
        }
    }
}

/// Appending an element not yet present keeps a sequence free of duplicates.
proof fn lemma_push_distinct(s: Seq<Move>, x: Move)
    requires
        s.no_duplicates(),
        !s.contains(x),
    ensures
        s.push(x).no_duplicates(),
{
    assert forall|i: int, j: int| 0 <= i < s.push(x).len() && 0 <= j < s.push(x).len() && i != j implies s.push(x)[i] != s.push(x)[j] by {
        if i == s.len() {
            assert(s[j] == s.push(x)[j]);
        } else if j == s.len() {
            assert(s[i] == s.push(x)[i]);
        }
    }
}

/// Adds the moves of the pieces of kind `kind` (knight, bishop, rook or queen).
fn gen_steppers(g: &Game, moves: &mut MoveList, kind: Piece, Ghost(strict): Ghost<bool>)
    requires
        kind == Piece::Knight || kind == Piece::Bishop || kind == Piece::Rook || kind == Piece::Queen,
        strict ==> old(moves)@.no_duplicates(),
        strict ==> forall|m: Move| #[trigger] old(moves)@.contains(m) ==> !holds(g.board.bb(kind, g.is_white_turn), m.0 as int),
    ensures
        strict ==> final(moves)@.no_duplicates(),
        forall|m: Move| #[trigger]
            final(moves)@.contains(m) <==> (old(moves)@.contains(m) || (m.0 < 64 && m.1 < 64 && m.2
                is None && step_ok(g.board, kind, g.is_white_turn, m.0 as int, m.1 as int))),
{
    let w = g.is_white_turn;
    let pieces = g.board.get_board(kind, w);
    let mine = g.board.side_pieces(w);
    let occ = g.board.all_pieces();
    let mut rem = pieces;
    while rem != 0
        invariant
            pieces == g.board.bb(kind, w),
            mine == g.board.side_occ(w),
            occ == g.board.occ(),
            w == g.is_white_turn,
            kind == Piece::Knight || kind == Piece::Bishop || kind == Piece::Rook || kind == Piece::Queen,
            forall|t: int| #[trigger] holds(rem, t) ==> holds(pieces, t),
            forall|m: Move| #[trigger]
                moves@.contains(m) <==> (old(moves)@.contains(m) || (m.0 < 64 && m.1 < 64 && m.2
                    is None && step_ok(g.board, kind, w, m.0 as int, m.1 as int) && !holds(rem, m.0 as int))),
            strict ==> moves@.no_duplicates(),
            strict ==> forall|m: Move| #[trigger] moves@.contains(m) && holds(pieces, m.0 as int) ==> !holds(rem, m.0 as int),
            strict ==> forall|m: Move| #[trigger] old(moves)@.contains(m) ==> !holds(g.board.bb(kind, g.is_white_turn), m.0 as int),
        decreases rem,
    {
        let from = lowest_square(rem);
        let reach = match kind {
            Piece::Knight => g.board.get_knight_attacks(from),
            Piece::Bishop => Bitboard::get_bishop_attacks(from, occ),
            Piece::Rook => Bitboard::get_rook_attacks(from, occ),
            _ => Bitboard::get_rook_attacks(from, occ) | Bitboard::get_bishop_attacks(from, occ),
        };
        let targets = reach & !mine;
        add_targets(moves, from, targets, false, Ghost(strict));
        rem = without(rem, from);
    }
}

/// Adds the king's single steps.
fn gen_king_steps(g: &Game, moves: &mut MoveList, Ghost(strict): Ghost<bool>)
    requires
        strict ==> old(moves)@.no_duplicates(),
        strict ==> forall|m: Move| #[trigger] old(moves)@.contains(m) ==> !holds(g.board.bb(Piece::King, g.is_white_turn), m.0 as int),
    ensures
        strict ==> final(moves)@.no_duplicates(),
        forall|m: Move| #[trigger]
            final(moves)@.contains(m) <==> (old(moves)@.contains(m) || (m.0 < 64 && m.1 < 64
                && king_move_ok(*g, m.0 as int, m.1 as int, m.2))),
{
    let w = g.is_white_turn;
    let kings = g.board.get_board(Piece::King, w);
    if kings == 0 {
        return;
    }
    let from = lowest_square(kings);
    let mine = g.board.side_pieces(w);
    let targets = g.board.get_king_attacks(from) & !mine;
    add_targets(moves, from, targets, false, Ghost(strict));
}

/// Adds the castling moves of the side to move.
fn gen_castles(g: &Game, moves: &mut MoveList, Ghost(strict): Ghost<bool>)
    requires
        strict ==> old(moves)@.no_duplicates(),
        strict ==> forall|m: Move| #[trigger] old(moves)@.contains(m) ==> !(m.2 is None && m.0 == king_home(g.is_white_turn)
            && is_castle_target(g.is_white_turn, m.1 as int) && holds(g.board.bb(Piece::King, g.is_white_turn), m.0 as int)),
    ensures
        strict ==> final(moves)@.no_duplicates(),
        forall|m: Move| #[trigger]
            final(moves)@.contains(m) <==> (old(moves)@.contains(m) || (m.0 < 64 && m.1 < 64
                && castle_ok(*g, m.0 as int, m.1 as int, m.2))),
{
    let w = g.is_white_turn;
    if w {
        try_castle(g, moves, 4, 6, 7, Ghost(strict));
        try_castle(g, moves, 4, 2, 0, Ghost(strict));
    } else {
        try_castle(g, moves, 60, 62, 63, Ghost(strict));
        try_castle(g, moves, 60, 58, 56, Ghost(strict));
    }
}

fn try_castle(g: &Game, moves: &mut MoveList, home: usize, to: usize, corner: usize, Ghost(strict): Ghost<bool>)
    requires
        home == king_home(g.is_white_turn),
        is_castle_target(g.is_white_turn, to as int),
        corner == rook_corner(to as int),
        strict ==> old(moves)@.no_duplicates(),
        strict ==> forall|m: Move| #[trigger] old(moves)@.contains(m) ==> !(m.2 is None && m.0 == home
            && m.1 == to && holds(g.board.bb(Piece::King, g.is_white_turn), m.0 as int)),
    ensures
        strict ==> final(moves)@.no_duplicates(),
        forall|m: Move| #[trigger]
            final(moves)@.contains(m) <==> (old(moves)@.contains(m) || (m == (home, to, None::<Piece>)
                && castle_ok(*g, home as int, to as int, None))),
{
    let w = g.is_white_turn;
    let right: u8 = if to == 6 {
        8
    } else if to == 2 {
        4
    } else if to == 62 {
        2
    } else {
        1
    };
    let occ = g.board.all_pieces();
    let mid = (home + to) / 2;
    let long_side = to == 2 || to == 58;
    let ok = g.castling & right != 0
        && is_set(g.board.get_board(Piece::King, w), home)
        && is_set(g.board.get_board(Piece::Rook, w), corner)
        && !is_set(occ, mid) && !is_set(occ, to)
        && (!long_side || !is_set(occ, to - 1))
        && !g.board.possible_check(home, !w)
        && !g.board.possible_check(mid, !w)
        && !g.board.possible_check(to, !w);
    if ok {
        let ghost s0 = moves@;
        moves.add(home, to, None);
        proof {
            if strict {
                lemma_push_distinct(s0, (home, to, None));
            }
        }
    }
}

/// Adds the pawn moves of the side to move.
fn gen_pawns(g: &Game, moves: &mut MoveList, Ghost(strict): Ghost<bool>)
    requires
        strict ==> old(moves)@.len() == 0,
        strict ==> match g.en_passent {
            Some(e) => !holds(g.board.occ(), e as int),
            None => true,
        },
    ensures
        strict ==> final(moves)@.no_duplicates(),
        forall|m: Move| #[trigger]
            final(moves)@.contains(m) <==> (old(moves)@.contains(m) || (m.0 < 64 && m.1 < 64
                && pawn_move_ok(*g, m.0 as int, m.1 as int, m.2))),
{
    let w = g.is_white_turn;
    let colour: usize = if w { 0 } else { 1 };
    let pawns = g.board.get_board(Piece::Pawn, w);
    let enemies = g.board.side_pieces(!w);
    let occ = g.board.all_pieces();
    let seventh: usize = if w { 6 } else { 1 };
    let start: usize = if w { 1 } else { 6 };
    let mut rem = pawns;
    while rem != 0
        invariant
            pawns == g.board.bb(Piece::Pawn, w),
            enemies == g.board.side_occ(!w),
            occ == g.board.occ(),
            w == g.is_white_turn,
            colour == (if w { 0usize } else { 1usize }),
            seventh == (if w { 6usize } else { 1usize }),
            start == (if w { 1usize } else { 6usize }),
            forall|t: int| #[trigger] holds(rem, t) ==> holds(pawns, t),
            forall|m: Move| #[trigger]
                moves@.contains(m) <==> (old(moves)@.contains(m) || (m.0 < 64 && m.1 < 64
                    && pawn_move_ok(*g, m.0 as int, m.1 as int, m.2) && !(g.en_passent == Some(m.1)
                    && pawn_hit(w, m.0 as int, m.1 as int) && m.2 is None && !(promo_fits(w, m.1 as int, m.2) && holds(enemies, m.1 as int)))
                    && !holds(rem, m.0 as int))),
            strict ==> old(moves)@.len() == 0,
            strict ==> moves@.no_duplicates(),
            strict ==> match g.en_passent {
                Some(e) => !holds(g.board.occ(), e as int),
                None => true,
            },
        decreases rem,
    {
        let from = lowest_square(rem);
        let promote = from / 8 == seventh;
        let mut pushes = Bitboard::get_pawn_pushes(colour, from) & !occ;
        if from / 8 == start {
            let mid = if w { from + 8 } else { from - 8 };
            let far = if w { from + 16 } else { from - 16 };
            if is_set(occ, mid) {
                pushes = without(pushes, far);
            }
        }
        proof {
            if strict {
                assert forall|m: Move| #[trigger] moves@.contains(m) implies !(m.0 == from && holds(pushes, m.1 as int)) by {
                    if m.0 == from {
                        assert(holds(rem, from as int));
                    }
                }
            }
        }
        let ghost before = moves@;
        add_targets(moves, from, pushes, promote, Ghost(strict));
        let hits = Bitboard::get_pawn_attacks(colour, from) & enemies;
        proof {
            if strict {
                assert forall|m: Move| #[trigger] moves@.contains(m) implies !(m.0 == from && holds(hits, m.1 as int)) by {
                    if m.0 == from && before.contains(m) {
                        assert(holds(rem, from as int));
                    }
                }
            }
        }
        add_targets(moves, from, hits, promote, Ghost(strict));
        rem = without(rem, from);
    }
    match g.en_passent {
        Some(e) => {
            if e < 64 {
                let attackers = Bitboard::get_pawn_attacks(1 - colour, e) & pawns;
                proof {
                    if strict {
                        assert forall|m: Move| #[trigger] moves@.contains(m) implies !(m.1 == e && holds(attackers, m.0 as int) && m.2 is None) by {
                            if m.1 == e && holds(attackers, m.0 as int) && m.2 is None {
                                assert(!holds(enemies, e as int));
                            }
                        }
                    }
                }
                add_sources(moves, attackers, e, Ghost(strict));
            }
        },
        None => {},
    }
}

/// Adds a move from each square of `sources` to `to`.
fn add_sources(moves: &mut MoveList, sources: u64, to: usize, Ghost(strict): Ghost<bool>)
    requires
        strict ==> old(moves)@.no_duplicates(),
        strict ==> forall|m: Move| #[trigger] old(moves)@.contains(m) ==> !(m.1 == to && holds(sources, m.0 as int) && m.2 is None),
    ensures
        strict ==> final(moves)@.no_duplicates(),
        forall|m: Move| #[trigger]
            final(moves)@.contains(m) <==> (old(moves)@.contains(m) || (m.1 == to && holds(
                sources,
                m.0 as int,
            ) && m.2 is None)),
{
    let mut rem = sources;
    while rem != 0
        invariant
            forall|t: int| #[trigger] holds(rem, t) ==> holds(sources, t),
            forall|m: Move| #[trigger]
                moves@.contains(m) <==> (old(moves)@.contains(m) || (m.1 == to && holds(sources, m.0 as int)
                    && !holds(rem, m.0 as int) && m.2 is None)),
            strict ==> moves@.no_duplicates(),
            strict ==> forall|m: Move| #[trigger] old(moves)@.contains(m) ==> !(m.1 == to && holds(sources, m.0 as int) && m.2 is None),
        decreases rem,
    {
        let from = lowest_square(rem);
        let ghost s0 = moves@;
        moves.add(from, to, None);
        proof {
            if strict {
                lemma_push_distinct(s0, (from, to, None));
            }
        }
        rem = without(rem, from);
    }
}

/// Every pseudo-legal move of the side to move, each at least once.
pub fn generate_pseudo_legal_moves(game: &Game) -> (r: MoveList)
    ensures
        forall|m: Move| #[trigger] r@.contains(m) <==> pseudo_legal(*game, m),
        valid_position(*game) ==> r@.no_duplicates(),
{
    let ghost strict = valid_position(*game);
    let ghost b = game.board;
    let ghost w = game.is_white_turn;
    proof {
        if strict {
            match game.en_passent {
                Some(e) => {
                    if holds(b.occ(), e as int) {
                        let pr = choose|p: Piece, q: bool| holds(b.bb(p, q), e as int);
                        assert(b.piece_on(e as int) == Some((pr.1, pr.0)));
                    }
                },
                None => {},
            }
        }
    }
    let mut moves = MoveList::new();
    gen_pawns(game, &mut moves, Ghost(strict));
    proof { lemma_sources_apart(*game, moves@, Piece::Knight, strict); }
    gen_steppers(game, &mut moves, Piece::Knight, Ghost(strict));
    proof { lemma_sources_apart(*game, moves@, Piece::Bishop, strict); }
    gen_steppers(game, &mut moves, Piece::Bishop, Ghost(strict));
    proof { lemma_sources_apart(*game, moves@, Piece::Rook, strict); }
    gen_steppers(game, &mut moves, Piece::Rook, Ghost(strict));
    proof { lemma_sources_apart(*game, moves@, Piece::Queen, strict); }
    gen_steppers(game, &mut moves, Piece::Queen, Ghost(strict));
    proof { lemma_sources_apart(*game, moves@, Piece::King, strict); }
    gen_king_steps(game, &mut moves, Ghost(strict));
    proof {
        if strict {
            assert forall|m: Move| #[trigger] moves@.contains(m) implies !(m.2 is None && m.0 == king_home(w)
                && is_castle_target(w, m.1 as int) && holds(b.bb(Piece::King, w), m.0 as int)) by {
                if m.2 is None && m.0 == king_home(w) && is_castle_target(w, m.1 as int) && holds(b.bb(Piece::King, w), m.0 as int) {
                    lemma_from_kind(*game, m, Piece::King);
                }
            }
        }
    }
    gen_castles(game, &mut moves, Ghost(strict));
    moves
}

/// In a valid position a square holds one piece kind of a side.
proof fn lemma_one_kind(g: Game, s: int, p: Piece, q: Piece)
    requires
        valid_position(g),
        holds(g.board.bb(p, g.is_white_turn), s),
        holds(g.board.bb(q, g.is_white_turn), s),
    ensures
        p == q,
{
    assert(g.board.piece_on(s) == Some((g.is_white_turn, p)));
    assert(g.board.piece_on(s) == Some((g.is_white_turn, q)));
}

/// A generated move of kind earlier than `k` does not start on a `k` piece.
proof fn lemma_from_kind(g: Game, m: Move, k: Piece)
    requires
        valid_position(g),
        pseudo_legal(g, m),
        holds(g.board.bb(k, g.is_white_turn), m.0 as int),
        k == Piece::King,
        m.2 is None,
        m.0 == king_home(g.is_white_turn),
        is_castle_target(g.is_white_turn, m.1 as int),
    ensures
        castle_ok(g, m.0 as int, m.1 as int, m.2),
{
    let b = g.board;
    let w = g.is_white_turn;
    let f = m.0 as int;
    assert(!holds(b.bb(Piece::Pawn, w), f)) by { if holds(b.bb(Piece::Pawn, w), f) { lemma_one_kind(g, f, Piece::Pawn, Piece::King); } }
    assert(!holds(b.bb(Piece::Knight, w), f)) by { if holds(b.bb(Piece::Knight, w), f) { lemma_one_kind(g, f, Piece::Knight, Piece::King); } }
    assert(!holds(b.bb(Piece::Bishop, w), f)) by { if holds(b.bb(Piece::Bishop, w), f) { lemma_one_kind(g, f, Piece::Bishop, Piece::King); } }
    assert(!holds(b.bb(Piece::Rook, w), f)) by { if holds(b.bb(Piece::Rook, w), f) { lemma_one_kind(g, f, Piece::Rook, Piece::King); } }
    assert(!holds(b.bb(Piece::Queen, w), f)) by { if holds(b.bb(Piece::Queen, w), f) { lemma_one_kind(g, f, Piece::Queen, Piece::King); } }
}

/// Moves of earlier kinds start on squares that do not hold a piece of kind `k`.
proof fn lemma_sources_apart(g: Game, s: Seq<Move>, k: Piece, strict: bool)
    requires
        strict == valid_position(g),
        k != Piece::Pawn,
        forall|m: Move| #[trigger] s.contains(m) ==> pseudo_legal(g, m) && kind_before(g, m, k),
    ensures
        strict ==> forall|m: Move| #[trigger] s.contains(m) ==> !holds(g.board.bb(k, g.is_white_turn), m.0 as int),
{
    if strict {
        assert forall|m: Move| #[trigger] s.contains(m) implies !holds(g.board.bb(k, g.is_white_turn), m.0 as int) by {
            let w = g.is_white_turn;
            let f = m.0 as int;
            if holds(g.board.bb(k, w), f) {
                if holds(g.board.bb(Piece::Pawn, w), f) { lemma_one_kind(g, f, Piece::Pawn, k); }
                if holds(g.board.bb(Piece::Knight, w), f) { lemma_one_kind(g, f, Piece::Knight, k); }
                if holds(g.board.bb(Piece::Bishop, w), f) { lemma_one_kind(g, f, Piece::Bishop, k); }
                if holds(g.board.bb(Piece::Rook, w), f) { lemma_one_kind(g, f, Piece::Rook, k); }
                if holds(g.board.bb(Piece::Queen, w), f) { lemma_one_kind(g, f, Piece::Queen, k); }
            }
        }
    }
}

/// `m` is a move of a piece kind generated before kind `k`.
pub open spec fn kind_before(g: Game, m: Move, k: Piece) -> bool {
    let w = g.is_white_turn;
    let f = m.0 as int;
    let t = m.1 as int;
    pawn_move_ok(g, f, t, m.2) || (k != Piece::Knight && m.2 is None && step_ok(g.board, Piece::Knight, w, f, t))
        || ((k == Piece::Rook || k == Piece::Queen || k == Piece::King) && m.2 is None && step_ok(g.board, Piece::Bishop, w, f, t))
        || ((k == Piece::Queen || k == Piece::King) && m.2 is None && step_ok(g.board, Piece::Rook, w, f, t))
        || (k == Piece::King && m.2 is None && step_ok(g.board, Piece::Queen, w, f, t))
}

impl Game {
    /// Every pseudo-legal move of the side to move, each at least once.
    pub fn generate_pseudo_legal_moves(&self) -> (r: MoveList)
        ensures
            forall|m: Move| #[trigger] r@.contains(m) <==> pseudo_legal(*self, m),
            valid_position(*self) ==> r@.no_duplicates(),
    {
        generate_pseudo_legal_moves(self)
    }
}

} // verus!
