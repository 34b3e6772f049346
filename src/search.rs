//! Alpha-beta search: static exchange evaluation, move ordering with killer and history
//! heuristics, quiescence search, negamax with a transposition table and late-move
//! reductions, and iterative deepening.
use vstd::prelude::*;
use std::sync::atomic::{AtomicBool, Ordering};
use crate::bits::{group_bits, holds, is_set, lemma_bits_ext, lowest_square};
use crate::bitboard::{Bitboard, Piece, piece_index};
use crate::eval::{eval, get_piece_value, piece_value};
use crate::game::{in_check, Game, Undo};
use crate::laws::{lemma_make_keeps_valid, lemma_unmake_restores, same_position, undo_of, valid_position};
use crate::legal::{has_legal_move, legal};
use crate::movegen::{generate_pseudo_legal_moves, pseudo_legal};
use crate::movelist::{Move, MoveList};
use crate::tt::{Flag, TTEntry, TranspositionTable};
use crate::eval::evaluation;
use crate::laws::game_after;
use crate::perft_count::{in_space, index_of, dmax, lemma_dmax_add, lemma_dmax_base, lemma_dmax_bounds, lemma_dmax_ext, lemma_index_in_space, move_at, move_space};

verus! {

broadcast use group_bits;

/// Score of giving mate at the root; a mate `n` plies away scores `MATE_SCORE - n`.
pub const MATE_SCORE: i32 = 100_000_000;
/// Scores at least this far from zero announce a mate.
pub const MATE_THRESHOLD: i32 = 50_000_000;
/// Deepest ply the search reaches.
pub const MAX_PLY: usize = 64;
/// Ordering score of the first killer move; the second scores one less.
pub const KILLER_MOVE_SCORE: i32 = 700_000;

pub struct Search {
    pub nodes_searched: u64,
    /// Two killer slots per ply: `killer_moves[2 * ply]` is the most recent.
    pub killer_moves: Vec<Option<Move>>,
    /// Indexed by `piece * 64 + to`.
    pub history: Vec<i32>,
    pub tt: TranspositionTable,
}

/// What one completed iteration of the search found.
#[derive(Clone, Debug)]
pub struct DepthReport {
    pub depth: u8,
    pub score: i32,
    pub nodes: u64,
    pub pv: Vec<Move>,
}

/// The outcome of `find_best_move`.
#[derive(Clone, Debug)]
pub struct SearchOutcome {
    pub best_move: Option<Move>,
    pub score: i32,
    pub reports: Vec<DepthReport>,
}

/// The value of a move's promotion piece, of its capture by most valuable victim and
/// least valuable attacker, of its killer slot, or else its history.
pub open spec fn promo_score(p: Piece) -> int {
    match p {
        Piece::Queen => 20000 + piece_value(p),
        Piece::Knight => 15000 + piece_value(p),
        _ => 10000 + piece_value(p),
    }
}

/// The heuristic state a search reads and writes: the table's slots and capacity, the
/// killer slots, and the history scores.
pub type Heur = (Seq<Option<TTEntry>>, u64, Seq<Option<Move>>, Seq<i32>);

pub open spec fn heur_of(s: Search) -> Heur {
    (s.tt.table@, s.tt.capacity, s.killer_moves@, s.history@)
}

/// The ordering score `score_move` gives.
pub open spec fn move_score(g: Game, m: Move, ply: usize, h: Heur) -> int {
    let w = g.is_white_turn;
    match m.2 {
        Some(p) => promo_score(p),
        None => if !(m.0 < 64 && m.1 < 64) {
            0
        } else if holds(g.board.side_occ(!w), m.1 as int) {
            let attacker = match g.board.piece_on(m.0 as int) {
                Some((_, p)) => p,
                None => Piece::Pawn,
            };
            let victim = match g.board.piece_on(m.1 as int) {
                Some((_, p)) => p,
                None => Piece::Pawn,
            };
            10000 + piece_value(victim) - piece_value(attacker)
        } else if ply < MAX_PLY && h.2[2 * ply as int] == Some(m) {
            KILLER_MOVE_SCORE + 2
        } else if ply < MAX_PLY && h.2[2 * ply + 1] == Some(m) {
            KILLER_MOVE_SCORE + 1
        } else {
            match g.board.piece_on(m.0 as int) {
                Some((_, p)) => h.3[piece_index(p) * 64 + m.1] as int,
                None => 0,
            }
        },
    }
}

impl Search {
    pub open spec fn wf(&self) -> bool {
        &&& self.killer_moves@.len() == 2 * MAX_PLY
        &&& self.history@.len() == 6 * 64
        &&& self.tt.wf()
    }

    pub fn new() -> (r: Self)
        ensures
            r.wf(),
            r.nodes_searched == 0,
            forall|i: int| 0 <= i < r.killer_moves@.len() ==> r.killer_moves@[i] is None,
            forall|i: int| 0 <= i < r.history@.len() ==> r.history@[i] == 0,
    {
        Search {
            nodes_searched: 0,
            killer_moves: vec![None; 2 * MAX_PLY],
            history: vec![0; 6 * 64],
            tt: TranspositionTable::new(),
        }
    }

    /// Makes `mv` the first killer of `ply`, the former first becoming the second.
    pub fn add_killer_move(&mut self, ply: usize, mv: Move)
        requires
            old(self).wf(),
        ensures
            final(self).wf(),
            ply < MAX_PLY ==> final(self).killer_moves@ == old(self).killer_moves@.update(
                2 * ply + 1,
                old(self).killer_moves@[2 * ply as int],
            ).update(2 * ply as int, Some(mv)),
            ply >= MAX_PLY ==> final(self).killer_moves@ == old(self).killer_moves@,
            final(self).history@ == old(self).history@,
            final(self).tt == old(self).tt,
    {
        if ply < MAX_PLY {
            let first = self.killer_moves[2 * ply];
            self.killer_moves.set(2 * ply + 1, first);
            self.killer_moves.set(2 * ply, Some(mv));
        }
    }

    /// Adds `depth * depth` to the history of `piece` moving to `to`, saturating.
    pub fn update_history_score(&mut self, piece: Piece, to: usize, depth: u8)
        requires
            old(self).wf(),
            to < 64,
        ensures
            final(self).wf(),
            final(self).killer_moves@ == old(self).killer_moves@,
            final(self).tt == old(self).tt,
            final(self).history@ == old(self).history@.update(
                piece_index(piece) * 64 + to,
                if old(self).history@[piece_index(piece) * 64 + to] + depth * depth > i32::MAX {
                    i32::MAX
                } else {
                    (old(self).history@[piece_index(piece) * 64 + to] + depth * depth) as i32
                },
            ),
    {
        let i = piece.to_index() * 64 + to;
        let d = depth as i64;
        proof {
            assert(0 <= d * d <= 255 * 255) by (nonlinear_arith)
                requires
                    0 <= d <= 255,
            ;
        }
        let v = self.history[i] as i64 + d * d;
        let nv: i32 = if v > i32::MAX as i64 { i32::MAX } else { v as i32 };
        self.history.set(i, nv);
    }
}

/// Material value of the piece on `s`, zero for an empty square.
pub open spec fn value_on(b: Bitboard, s: int) -> int {
    match b.piece_on(s) {
        Some((_, p)) => piece_value(p),
        None => 0,
    }
}

fn value_at(b: &Bitboard, s: usize) -> (r: i32)
    requires
        s < 64,
    ensures
        r == value_on(*b, s as int),
{
    match b.piece_on_square(s) {
        Some((_, p)) => get_piece_value(p),
        None => 0,
    }
}

/// The pieces of side `side` still in `occ` that attack `to`, sliders seeing through `occ`.
pub open spec fn live_attackers(b: Bitboard, to: int, side: bool, occ: u64) -> u64 {
    choose|x: u64| #[trigger] is_attacker_set(x, b, to, side, occ)
}

/// `x` holds exactly the pieces of side `side` in `occ` that attack `to`.
pub open spec fn is_attacker_set(x: u64, b: Bitboard, to: int, side: bool, occ: u64) -> bool {
    forall|t: int| #[trigger] holds(x, t) <==> (holds(occ, t) && b.attacks_from(side, t, to, occ))
}

/// The lowest square of the least valuable kind among `atk` (kings are not used).
pub open spec fn least_valuable(b: Bitboard, atk: u64, side: bool) -> Option<int> {
    if atk & b.bb(Piece::Pawn, side) != 0 {
        Some(vstd::std_specs::bits::u64_trailing_zeros(atk & b.bb(Piece::Pawn, side)) as int)
    } else if atk & b.bb(Piece::Knight, side) != 0 {
        Some(vstd::std_specs::bits::u64_trailing_zeros(atk & b.bb(Piece::Knight, side)) as int)
    } else if atk & b.bb(Piece::Bishop, side) != 0 {
        Some(vstd::std_specs::bits::u64_trailing_zeros(atk & b.bb(Piece::Bishop, side)) as int)
    } else if atk & b.bb(Piece::Rook, side) != 0 {
        Some(vstd::std_specs::bits::u64_trailing_zeros(atk & b.bb(Piece::Rook, side)) as int)
    } else if atk & b.bb(Piece::Queen, side) != 0 {
        Some(vstd::std_specs::bits::u64_trailing_zeros(atk & b.bb(Piece::Queen, side)) as int)
    } else {
        None
    }
}

/// What side `side` gains by going on capturing on `to`, where a piece worth `on_square`
/// stands, with the pieces of `occ` left; each side may stop, and at most `n` more
/// captures are looked at.
pub open spec fn exchange(b: Bitboard, to: int, occ: u64, side: bool, on_square: int, n: nat) -> int
    decreases n,
{
    if n == 0 {
        0
    } else {
        match least_valuable(b, live_attackers(b, to, side, occ), side) {
            Some(sq) => {
                let g = on_square - exchange(b, to, occ & !(1u64 << (sq as u64)), !side, value_on(b, sq), (n - 1) as nat);
                if g > 0 {
                    g
                } else {
                    0
                }
            },
            None => 0,
        }
    }
}

/// Captures that the exchange looks at beyond the first.
pub const EXCHANGE_DEPTH: u32 = 31;

fn lowest_of(x: u64) -> (r: usize)
    requires
        x != 0,
    ensures
        r == vstd::std_specs::bits::u64_trailing_zeros(x),
        r < 64,
        holds(x, r as int),
{
    lowest_square(x)
}

/// The square of the least valuable of `attackers`.
fn least_valuable_piece(b: &Bitboard, attackers: u64, is_white: bool) -> (r: Option<usize>)
    ensures
        r == match least_valuable(*b, attackers, is_white) {
            Some(s) => Some(s as usize),
            None => None::<usize>,
        },
        r matches Some(s) ==> s < 64 && holds(attackers, s as int),
{
    let p = attackers & b.get_board(Piece::Pawn, is_white);
    if p != 0 {
        return Some(lowest_of(p));
    }
    let n = attackers & b.get_board(Piece::Knight, is_white);
    if n != 0 {
        return Some(lowest_of(n));
    }
    let bi = attackers & b.get_board(Piece::Bishop, is_white);
    if bi != 0 {
        return Some(lowest_of(bi));
    }
    let r = attackers & b.get_board(Piece::Rook, is_white);
    if r != 0 {
        return Some(lowest_of(r));
    }
    let q = attackers & b.get_board(Piece::Queen, is_white);
    if q != 0 {
        return Some(lowest_of(q));
    }
    None
}

fn exchange_from(b: &Bitboard, to: usize, occ: u64, side: bool, on_square: i32, n: u32) -> (r: i32)
    requires
        to < 64,
        0 <= on_square <= 20000,
    ensures
        r == exchange(*b, to as int, occ, side, on_square as int, n as nat),
        0 <= r <= on_square,
    decreases n,
{
    if n == 0 {
        return 0;
    }
    let atk = b.attackers_to_occ(to, side, occ) & occ;
    proof {
        assert(is_attacker_set(atk, *b, to as int, side, occ));
        let live = live_attackers(*b, to as int, side, occ);
        assert(is_attacker_set(live, *b, to as int, side, occ));
        assert forall|t: int| 0 <= t < 64 implies holds(atk, t) == holds(live, t) by {
            assert(holds(atk, t) <==> (holds(occ, t) && b.attacks_from(side, t, to as int, occ)));
            assert(holds(live, t) <==> (holds(occ, t) && b.attacks_from(side, t, to as int, occ)));
        }
        lemma_bits_ext(atk, live);
    }
    match least_valuable_piece(b, atk, side) {
        Some(sq) => {
            let v = value_at(b, sq);
            let m = !crate::bits::bit(sq);
            let sub = exchange_from(b, to, occ & m, !side, v, n - 1);
            let g = on_square - sub;
            if g > 0 {
                g
            } else {
                0
            }
        },
        None => 0,
    }
}

/// Static exchange evaluation of the capture `from` -> `to`: after it, the sides go on
/// capturing on `to` with their least valuable attacker, seeing through the pieces that
/// have left, each free to stop; the result is the material the side to move gains.
/// Zero when `to` is empty.
pub fn static_exchange_exchange(game: &Game, from: usize, to: usize) -> (r: i32)
    requires
        from < 64,
        to < 64,
    ensures
        r == if game.board.piece_on(to as int) is None {
            0
        } else {
            value_on(game.board, to as int) - exchange(
                game.board,
                to as int,
                game.board.occ() & !(1u64 << (from as u64)),
                !game.is_white_turn,
                value_on(game.board, from as int),
                EXCHANGE_DEPTH as nat,
            )
        },
{
    let b = &game.board;
    match b.piece_on_square(to) {
        None => 0,
        Some(_) => {
            let victim = value_at(b, to);
            let attacker = value_at(b, from);
            let occ = b.all_pieces() & !crate::bits::bit(from);
            let reply = exchange_from(b, to, occ, !game.is_white_turn, attacker, EXCHANGE_DEPTH);
            victim - reply
        },
    }
}

/// Ordering score of a move: promotions first (queen, then knight, then the others),
/// then captures by most valuable victim and least valuable attacker, then the two
/// killers of `ply`, then the history of the moving piece and destination.
pub fn score_move(game: &Game, mov: Move, ply: usize, search_helper: &Search) -> (r: i32)
    requires
        search_helper.wf(),
    ensures
        r == move_score(*game, mov, ply, heur_of(*search_helper)),
{
    let (from, to, promo) = mov;
    match promo {
        Some(p) => {
            return match p {
                Piece::Queen => 20000 + get_piece_value(p),
                Piece::Knight => 15000 + get_piece_value(p),
                _ => 10000 + get_piece_value(p),
            };
        },
        None => {},
    }
    if from >= 64 || to >= 64 {
        return 0;
    }
    let enemies = game.board.side_pieces(!game.is_white_turn);
    if is_set(enemies, to) {
        let attacker = match game.board.piece_on_square(from) {
            Some((_, p)) => p,
            None => Piece::Pawn,
        };
        let victim = match game.board.piece_on_square(to) {
            Some((_, p)) => p,
            None => Piece::Pawn,
        };
        return 10000 + get_piece_value(victim) - get_piece_value(attacker);
    }
    if ply < MAX_PLY {
        if same_killer(search_helper.killer_moves[2 * ply], mov) {
            return KILLER_MOVE_SCORE + 2;
        }
        if same_killer(search_helper.killer_moves[2 * ply + 1], mov) {
            return KILLER_MOVE_SCORE + 1;
        }
    }
    match game.board.piece_on_square(from) {
        Some((_, p)) => search_helper.history[p.to_index() * 64 + to],
        None => 0,
    }
}

fn same_killer(k: Option<Move>, m: Move) -> (r: bool)
    ensures
        r == (k == Some(m)),
{
    match k {
        Some(x) => {
            let promo_same = match (x.2, m.2) {
                (Some(p), Some(q)) => p == q,
                (None, None) => true,
                _ => false,
            };
            x.0 == m.0 && x.1 == m.1 && promo_same
        },
        None => false,
    }
}

/// Depth reduction for a late quiet move: none before the third move or below depth 3.
pub open spec fn lmr_reduction(depth: int, index: int) -> int {
    if depth < 3 || index < 2 {
        0
    } else if index < 8 {
        1
    } else if depth < 8 {
        2
    } else {
        3
    }
}

fn lmr(depth: u8, index: usize) -> (r: u8)
    ensures
        r == lmr_reduction(depth as int, index as int),
{
    if depth < 3 || index < 2 {
        0
    } else if index < 8 {
        1
    } else if depth < 8 {
        2
    } else {
        3
    }
}

/// The move starts on a square of the side to move, so that it can be played.
fn playable(game: &Game, m: Move) -> (r: bool)
    ensures
        r ==> m.0 < 64 && m.1 < 64 && game.board.piece_on(m.0 as int).is_some(),
        r == (m.0 < 64 && m.1 < 64 && game.board.piece_on(m.0 as int) is Some
            && game.board.piece_on(m.0 as int).unwrap().0 == game.is_white_turn),
{
    m.0 < 64 && m.1 < 64 && match game.board.piece_on_square(m.0) {
        Some((w, _)) => w == game.is_white_turn,
        None => false,
    }
}

/// The ordering key of `m`: higher scores first, ties broken by the enumeration index.
pub open spec fn order_key(g: Game, m: Move, ply: usize, h: Heur) -> int {
    -move_score(g, m, ply, h) * 28672 + index_of(m)
}

/// `s` holds the moves `inc` admits, once each, in increasing order of their key.
pub open spec fn in_key_order(s: Seq<Move>, inc: spec_fn(Move) -> bool, key: spec_fn(Move) -> int) -> bool {
    &&& s.no_duplicates()
    &&& forall|m: Move| #[trigger] s.contains(m) <==> inc(m)
    &&& forall|i: int, j: int| 0 <= i < j < s.len() ==> #[trigger] key(s[i]) < #[trigger] key(s[j])
}

/// The pseudo-legal moves of `g` in the order the search tries them.
pub open spec fn ordered(g: Game, ply: usize, h: Heur) -> Seq<Move> {
    choose|s: Seq<Move>| #[trigger] is_ordered(g, ply, h, s)
}

/// `s` lists the pseudo-legal moves of `g` once each, in increasing order of their key.
pub open spec fn is_ordered(g: Game, ply: usize, h: Heur, s: Seq<Move>) -> bool {
    in_key_order(s, |m: Move| pseudo_legal(g, m), |m: Move| order_key(g, m, ply, h))
}

/// Two sequences of the same moves in the same strict key order are equal.
pub proof fn lemma_key_order_unique(a: Seq<Move>, b: Seq<Move>, inc: spec_fn(Move) -> bool, key: spec_fn(Move) -> int)
    requires
        in_key_order(a, inc, key),
        in_key_order(b, inc, key),
    ensures
        a == b,
    decreases a.len(),
{
    if a.len() == 0 {
        if b.len() > 0 {
            assert(b.contains(b[0]));
            assert(inc(b[0]));
            assert(a.contains(b[0]));
        }
        assert(a =~= b);
    } else {
        assert(a.contains(a[0]));
        assert(inc(a[0]));
        assert(b.contains(a[0]));
        let j = choose|j: int| 0 <= j < b.len() && b[j] == a[0];
        assert(b.len() > 0);
        assert(b.contains(b[0]));
        assert(inc(b[0]));
        assert(a.contains(b[0]));
        let k = choose|k: int| 0 <= k < a.len() && a[k] == b[0];
        if j > 0 {
            assert(key(b[0]) < key(b[j]));
            if k > 0 {
                assert(key(a[0]) < key(a[k]));
            }
        }
        assert(a[0] == b[0]);
        let a1 = a.drop_first();
        let b1 = b.drop_first();
        let inc1 = |m: Move| inc(m) && m != a[0];
        assert forall|m: Move| #[trigger] a1.contains(m) <==> inc1(m) by {
            if a1.contains(m) {
                let t = choose|t: int| 0 <= t < a1.len() && a1[t] == m;
                assert(a[t + 1] == m);
                assert(a.contains(m));
            }
            if inc1(m) {
                assert(a.contains(m));
                let t = choose|t: int| 0 <= t < a.len() && a[t] == m;
                assert(t != 0);
                assert(a1[t - 1] == m);
            }
        }
        assert forall|m: Move| #[trigger] b1.contains(m) <==> inc1(m) by {
            if b1.contains(m) {
                let t = choose|t: int| 0 <= t < b1.len() && b1[t] == m;
                assert(b[t + 1] == m);
                assert(b.contains(m));
            }
            if inc1(m) {
                assert(b.contains(m));
                let t = choose|t: int| 0 <= t < b.len() && b[t] == m;
                assert(t != 0);
                assert(b1[t - 1] == m);
            }
        }
        assert forall|x: int, y: int| 0 <= x < y < a1.len() implies #[trigger] key(a1[x]) < #[trigger] key(a1[y]) by {
            assert(a1[x] == a[x + 1] && a1[y] == a[y + 1]);
        }
        assert forall|x: int, y: int| 0 <= x < y < b1.len() implies #[trigger] key(b1[x]) < #[trigger] key(b1[y]) by {
            assert(b1[x] == b[x + 1] && b1[y] == b[y + 1]);
        }
        lemma_key_order_unique(a1, b1, inc1, key);
        assert(a =~= seq![a[0]] + a1);
        assert(b =~= seq![b[0]] + b1);
        assert(a =~= b);
    }
}

/// The ordering key is different for different moves of the board.
proof fn lemma_order_key_injective(g: Game, ply: usize, h: Heur, x: Move, y: Move)
    requires
        in_space(x),
        in_space(y),
        x != y,
    ensures
        order_key(g, x, ply, h) != order_key(g, y, ply, h),
{
    lemma_index_in_space(x);
    lemma_index_in_space(y);
    let a = move_score(g, x, ply, h);
    let b = move_score(g, y, ply, h);
    let i = index_of(x);
    let j = index_of(y);
    if index_of(x) == index_of(y) {
        assert(move_at(index_of(x)) == move_at(index_of(y)));
    }
    assert(-a * 28672 + i != -b * 28672 + j) by (nonlinear_arith)
        requires
            0 <= i < 28672,
            0 <= j < 28672,
            i != j,
    ;
}

/// Sorts `moves` best first by `score_move`, ties by the enumeration index.
fn order_moves(game: &Game, moves: &mut MoveList, ply: usize, search_helper: &Search)
    requires
        search_helper.wf(),
    ensures
        final(moves)@.to_multiset() == old(moves)@.to_multiset(),
        final(moves)@.len() == old(moves)@.len(),
        old(moves)@.no_duplicates() && (forall|m: Move| #[trigger] old(moves)@.contains(m) ==> in_space(m)) ==> in_key_order(
            final(moves)@,
            |m: Move| old(moves)@.contains(m),
            |m: Move| order_key(*game, m, ply, heur_of(*search_helper)),
        ),
{
    let ghost h = heur_of(*search_helper);
    let key = |m: &Move| -> (k: i64)
        ensures
            in_space(*m) ==> k == order_key(*game, *m, ply, heur_of(*search_helper)),
        {
            let s = score_move(game, *m, ply, search_helper);
            if m.0 < 64 && m.1 < 64 {
                let pi: i64 = match m.2 {
                    None => 0,
                    Some(Piece::Queen) => 1,
                    Some(Piece::Rook) => 2,
                    Some(Piece::Bishop) => 3,
                    Some(Piece::Knight) => 4,
                    Some(Piece::Pawn) => 5,
                    Some(Piece::King) => 6,
                };
                -(s as i64) * 28672 + (m.0 as i64) * 448 + (m.1 as i64) * 7 + pi
            } else {
                0
            }
        };
    let ghost before = moves@;
    moves.sort_by_cached_key(key);
    proof {
        if before.no_duplicates() && (forall|m: Move| #[trigger] before.contains(m) ==> in_space(m)) {
            broadcast use vstd::seq_lib::group_to_multiset_ensures;
            let after = moves@;
            assert forall|m: Move| #[trigger] after.contains(m) <==> before.contains(m) by {
                assert(after.to_multiset().count(m) == before.to_multiset().count(m));
            }
            let ks = choose|keys: Seq<i64>, perm: Seq<int>|
                #![trigger keys.len(), perm.len()]
                crate::movelist::sorted_stably(before, after, keys, perm) && (forall|i: int|
                    0 <= i < keys.len() ==> key.ensures((&after[i],), #[trigger] keys[i]));
            let kk = ks.0;
            let pp = ks.1;
            assert forall|i: int| 0 <= i < after.len() implies in_space(#[trigger] after[i]) && kk[i] == order_key(*game, after[i], ply, h) by {
                assert(after[i] == before[pp[i]]);
                assert(before.contains(before[pp[i]]));
            }
            assert forall|i: int, j: int| 0 <= i < j < after.len() implies #[trigger] order_key(*game, after[i], ply, h) < #[trigger] order_key(*game, after[j], ply, h) by {
                assert(pp[i] != pp[j]);
                assert(after[i] == before[pp[i]] && after[j] == before[pp[j]]);
                assert(after[i] != after[j]);
                lemma_order_key_injective(*game, ply, h, after[i], after[j]);
                assert(kk[i] <= kk[j]);
            }
            assert forall|i: int, j: int| 0 <= i < after.len() && 0 <= j < after.len() && i != j implies after[i] != after[j] by {
                if i < j {
                    assert(order_key(*game, after[i], ply, h) < order_key(*game, after[j], ply, h));
                } else {
                    assert(order_key(*game, after[j], ply, h) < order_key(*game, after[i], ply, h));
                }
            }
        }
    }
}

/// `m` takes a piece, takes en passant, or promotes.
pub open spec fn noisy(g: Game, m: Move) -> bool {
    let w = g.is_white_turn;
    m.2 is Some || holds(g.board.side_occ(!w), m.1 as int) || (g.en_passent == Some(m.1) && holds(
        g.board.bb(Piece::Pawn, w),
        m.0 as int,
    ))
}

/// The static exchange value of `m`, as `static_exchange_exchange` computes it.
pub open spec fn see_of(g: Game, m: Move) -> int {
    if g.board.piece_on(m.1 as int) is None {
        0
    } else {
        value_on(g.board, m.1 as int) - exchange(
            g.board,
            m.1 as int,
            g.board.occ() & !(1u64 << (m.0 as u64)),
            !g.is_white_turn,
            value_on(g.board, m.0 as int),
            EXCHANGE_DEPTH as nat,
        )
    }
}

/// A move quiescence looks at: legal, noisy, and not losing material by exchange.
pub open spec fn q_move(g: Game, m: Move) -> bool {
    legal(g, m) && noisy(g, m) && see_of(g, m) >= 0
}

/// The quiescence value of `g`, `ply` plies below the root: the static evaluation, or
/// the best of the negated values after the moves quiescence looks at, whichever is
/// larger; the static evaluation alone at the deepest ply.
pub open spec fn q_value(g: Game, ply: int) -> int
    decreases MAX_PLY - ply, move_space() + 1,
{
    if ply >= MAX_PLY || ply < 0 {
        evaluation(g.board, g.is_white_turn)
    } else {
        q_fold(g, ply, move_space())
    }
}

/// The quiescence value taken over the enumerated moves below index `k`.
pub open spec fn q_fold(g: Game, ply: int, k: int) -> int
    decreases MAX_PLY - ply, k,
{
    if k <= 0 || ply >= MAX_PLY || ply < 0 || k > move_space() {
        evaluation(g.board, g.is_white_turn)
    } else {
        let p = q_fold(g, ply, k - 1);
        let m = move_at(k - 1);
        if q_move(g, m) && -q_value(game_after(g, m), ply + 1) > p {
            -q_value(game_after(g, m), ply + 1)
        } else {
            p
        }
    }
}

proof fn lemma_q_fold_is_dmax(g: Game, ply: int, k: int)
    requires
        0 <= ply < MAX_PLY,
        0 <= k <= move_space(),
    ensures
        q_fold(g, ply, k) == dmax(
            |m: Move| -q_value(game_after(g, m), ply + 1),
            |m: Move| q_move(g, m),
            evaluation(g.board, g.is_white_turn),
            k,
        ),
    decreases k,
{
    if k > 0 {
        lemma_q_fold_is_dmax(g, ply, k - 1);
    }
}

/// `x` kept within `[lo, hi]`.
pub open spec fn clamp(x: int, lo: int, hi: int) -> int {
    if x < lo {
        lo
    } else if x > hi {
        hi
    } else {
        x
    }
}

/// Searches captures, en-passant captures and promotions until the position is quiet;
/// stands pat on the static evaluation. Fails hard: from a valid position the result is
/// the quiescence value kept within `[alpha_in, beta]`.
#[verifier::rlimit(60)]
pub fn quiescence_search(game: &mut Game, alpha_in: i32, beta: i32, ply: usize, search_helper: &mut Search) -> (r: i32)
    requires
        old(game).wf(),
        old(search_helper).wf(),
        -MATE_SCORE <= alpha_in < beta <= MATE_SCORE,
        ply <= MAX_PLY,
    ensures
        final(game).wf(),
        final(search_helper).wf(),
        alpha_in <= r <= beta,
        valid_position(*old(game)) ==> same_position(*final(game), *old(game)),
        valid_position(*old(game)) ==> r == clamp(q_value(*old(game), ply as int), alpha_in as int, beta as int),
        heur_of(*final(search_helper)) == heur_of(*old(search_helper)),
    decreases MAX_PLY - ply,
{
    let ghost g0 = *game;
    let ghost fv = |m: Move| -q_value(game_after(g0, m), ply + 1);
    let ghost qset = |m: Move| q_move(g0, m);
    search_helper.nodes_searched = search_helper.nodes_searched.saturating_add(1);
    let mut alpha = alpha_in;
    let stand_pat = eval(game);
    let ghost sp = stand_pat as int;
    proof {
        if ply < MAX_PLY {
            lemma_q_fold_is_dmax(g0, ply as int, move_space());
            lemma_dmax_bounds(fv, qset, sp, move_space(), (0usize, 0usize, None));
        }
    }
    if stand_pat >= beta {
        return beta;
    }
    if alpha < stand_pat {
        alpha = stand_pat;
    }
    if ply >= MAX_PLY {
        return alpha;
    }
    let w = game.is_white_turn;
    let enemies = game.board.side_pieces(!w);
    let pawns = game.board.get_board(Piece::Pawn, w);
    let ep = game.en_passent;
    let mut moves = game.generate_legal_moves();
    let ghost all = moves@;
    moves.retain(|m: &Move| -> (k: bool)
        ensures
            k == (m.2 is Some || (m.1 < 64 && holds(enemies, m.1 as int)) || (ep == Some(m.1) && m.0 < 64 && holds(pawns, m.0 as int))),
        {
            m.2.is_some() || (m.1 < 64 && is_set(enemies, m.1)) || (match ep {
                Some(e) => e == m.1,
                None => false,
            } && m.0 < 64 && is_set(pawns, m.0))
        });
    let ghost kept = moves@;
    order_moves(game, &mut moves, ply, search_helper);
    proof {
        assert forall|x: Move| #[trigger] moves@.contains(x) <==> (legal(g0, x) && noisy(g0, x)) by {
            if moves@.contains(x) {
                let k = choose|k: int| 0 <= k < moves@.len() && moves@[k] == x;
                lemma_member_of_permutation(kept, moves@, k);
                let w2 = choose|w2: int| 0 <= w2 < kept.len() && kept[w2] == x;
                assert(all.contains(x));
                assert(legal(g0, x));
                crate::laws::lemma_pseudo_shape_any(g0, x);
            }
            if legal(g0, x) && noisy(g0, x) {
                assert(all.contains(x));
                crate::laws::lemma_pseudo_shape_any(g0, x);
                let k = choose|k: int| 0 <= k < all.len() && all[k] == x;
                if !kept.contains(x) {
                    assert(kept.contains(all[k]) || false);
                }
                let k2 = choose|k2: int| 0 <= k2 < kept.len() && kept[k2] == x;
                lemma_member_of_permutation(moves@, kept, k2);
            }
        }
        assert forall|k: int| 0 <= k < moves@.len() implies pseudo_legal(g0, #[trigger] moves@[k]) by {
            assert(moves@.contains(moves@[k]));
        }
        lemma_dmax_ext(fv, |x: Move| moves@.subrange(0, 0).contains(x) && see_of(g0, x) >= 0, |x: Move| false, sp, move_space());
        lemma_dmax_base(fv, sp, move_space());
    }
    let n = moves.len();
    let mut i: usize = 0;
    while i < n
        invariant
            game.wf(),
            search_helper.wf(),
            n == moves@.len(),
            i <= n,
            -MATE_SCORE <= alpha < beta <= MATE_SCORE,
            alpha_in <= alpha,
            ply < MAX_PLY,
            forall|k: int| 0 <= k < n ==> pseudo_legal(g0, #[trigger] moves@[k]),
            forall|x: Move| #[trigger] moves@.contains(x) <==> (legal(g0, x) && noisy(g0, x)),
            valid_position(g0) ==> same_position(*game, g0),
            g0 == *old(game),
            fv == (|m: Move| -q_value(game_after(g0, m), ply + 1)),
            qset == (|m: Move| q_move(g0, m)),
            sp == evaluation(g0.board, g0.is_white_turn),
            q_value(g0, ply as int) == dmax(fv, qset, sp, move_space()),
            heur_of(*search_helper) == heur_of(*old(search_helper)),
            valid_position(g0) ==> {
                let x = dmax(fv, |y: Move| moves@.subrange(0, i as int).contains(y) && see_of(g0, y) >= 0, sp, move_space());
                x < beta && alpha == (if x > alpha_in { x } else { alpha_in as int })
            },
        decreases n - i,
    {
        let m = moves.get(i);
        let ghost pre = |y: Move| moves@.subrange(0, i as int).contains(y) && see_of(g0, y) >= 0;
        let ghost post = |y: Move| moves@.subrange(0, i + 1).contains(y) && see_of(g0, y) >= 0;
        let ghost ii = i as int;
        proof {
            assert(moves@.subrange(0, i + 1) == moves@.subrange(0, i as int).push(m));
            assert(moves@.contains(m));
            if valid_position(g0) {
                crate::laws::lemma_pseudo_shape(g0, m);
            }
        }
        i = i + 1;
        if !playable(game, m) {
            proof {
                assert(!valid_position(g0));
            }
            continue;
        }
        if static_exchange_exchange(game, m.0, m.1) < 0 {
            proof {
                if valid_position(g0) {
                    assert(*game == g0);
                    assert(see_of(g0, m) < 0);
                    assert forall|y: Move| #[trigger] post(y) == pre(y) by {
                        broadcast use vstd::seq_lib::group_seq_properties;
                        assert(moves@.subrange(0, ii + 1) == moves@.subrange(0, ii).push(m));
                    }
                    lemma_dmax_ext(fv, post, pre, sp, move_space());
                }
            }
            continue;
        }
        proof {
            if valid_position(g0) {
                assert(*game == g0);
                assert(see_of(g0, m) >= 0);
                lemma_make_keeps_valid(g0, m);
                lemma_unmake_restores(g0, m);
                assert forall|y: Move| #[trigger] post(y) == (pre(y) || y == m) by {
                    broadcast use vstd::seq_lib::group_seq_properties;
                    assert(moves@.subrange(0, ii + 1) == moves@.subrange(0, ii).push(m));
                }
                lemma_dmax_add(fv, pre, post, sp, m, move_space());
                lemma_index_in_space(m);
                assert(qset(m));
                lemma_dmax_bounds(fv, qset, sp, move_space(), m);
            }
        }
        let undo = game.make_move_unchecked(m.0, m.1, m.2);
        proof {
            if valid_position(g0) {
                assert(*game == game_after(g0, m));
            }
        }
        let score = -quiescence_search(game, -beta, -alpha, ply + 1, search_helper);
        game.unmake_move(undo);
        if score >= beta {
            return beta;
        }
        if score > alpha {
            alpha = score;
        }
    }
    proof {
        if valid_position(g0) {
            assert(moves@.subrange(0, n as int) == moves@);
            lemma_dmax_ext(fv, |y: Move| moves@.subrange(0, n as int).contains(y) && see_of(g0, y) >= 0, qset, sp, move_space());
        }
    }
    alpha
}


/// The table entry for `key` in the heuristic state.
pub open spec fn tt_lookup(h: Heur, key: u64) -> Option<TTEntry> {
    match h.0[(key % h.1) as int] {
        Some(e) => if e.key == key {
            Some(e)
        } else {
            None
        },
        None => None,
    }
}

pub open spec fn tt_store_h(h: Heur, key: u64, depth: int, score: int, flag: Flag, best: Option<Move>) -> Heur {
    (
        h.0.update(
            (key % h.1) as int,
            Some(TTEntry { key, depth: depth as u8, score: score as i32, flag, best_move: best }),
        ),
        h.1,
        h.2,
        h.3,
    )
}

pub open spec fn killer_h(h: Heur, ply: int, m: Move) -> Heur {
    if 0 <= ply < MAX_PLY {
        (h.0, h.1, h.2.update(2 * ply + 1, h.2[2 * ply]).update(2 * ply, Some(m)), h.3)
    } else {
        h
    }
}

pub open spec fn history_h(h: Heur, p: Piece, to: int, depth: int) -> Heur {
    let i = piece_index(p) * 64 + to;
    (h.0, h.1, h.2, h.3.update(i, if h.3[i] + depth * depth > i32::MAX { i32::MAX } else { (h.3[i] + depth * depth) as i32 }))
}

/// The value `search` returns when the stop flag does not interrupt it, and the heuristic
/// state it leaves: the table cut rule, then a check extension, then the moves in order
/// with late-move reductions, fail-hard, table store, killers and history on a cutoff.
pub open spec fn ab_node(g: Game, depth: int, alpha: int, beta: int, ply: int, h: Heur) -> (int, Heur)
    decreases MAX_PLY - ply, ordered(g, ply as usize, h).len() + 1,
{
    if depth <= 0 || ply >= MAX_PLY || ply < 0 {
        (clamp(q_value(g, ply), alpha, beta), h)
    } else {
        let e = tt_lookup(h, g.zobrist_hash);
        if e is Some && e.unwrap().depth >= depth && e.unwrap().flag == Flag::Exact {
            (clamp(e.unwrap().score as int, alpha, beta), h)
        } else if e is Some && e.unwrap().depth >= depth && e.unwrap().flag == Flag::LowerBound
            && e.unwrap().score >= beta {
            (beta, h)
        } else if e is Some && e.unwrap().depth >= depth && e.unwrap().flag == Flag::UpperBound
            && e.unwrap().score <= alpha {
            (alpha, h)
        } else {
            let chk = in_check(g.board, g.is_white_turn);
            let d = if chk && depth < 255 { depth + 1 } else { depth };
            ab_loop(g, d, chk, beta, ply, ordered(g, ply as usize, h), 0, alpha, Flag::UpperBound, None, 0, h)
        }
    }
}

/// The reduction `search` applies to a move.
pub open spec fn reduction(g: Game, m: Move, d: int, chk: bool, count: int) -> int {
    let quiet = m.2 is None && !holds(g.board.side_occ(!g.is_white_turn), m.1 as int);
    if quiet && !chk && d > 2 && count >= 1 {
        if lmr_reduction(d, count) >= d {
            d - 1
        } else {
            lmr_reduction(d, count)
        }
    } else {
        0
    }
}

/// The move loop of `ab_node` from the `i`-th move on.
pub open spec fn ab_loop(
    g: Game,
    d: int,
    chk: bool,
    beta: int,
    ply: int,
    moves: Seq<Move>,
    i: int,
    alpha: int,
    flag: Flag,
    best: Option<Move>,
    count: int,
    h: Heur,
) -> (int, Heur)
    decreases MAX_PLY - ply, moves.len() - i,
{
    if ply >= MAX_PLY || ply < 0 || i < 0 {
        (alpha, h)
    } else if i >= moves.len() {
        if count == 0 {
            (clamp(if chk { -MATE_SCORE + ply } else { 0 }, alpha, beta), h)
        } else {
            (alpha, tt_store_h(h, g.zobrist_hash, d, alpha, flag, best))
        }
    } else {
        let m = moves[i];
        let w = g.is_white_turn;
        let g2 = game_after(g, m);
        if in_check(g2.board, w) {
            ab_loop(g, d, chk, beta, ply, moves, i + 1, alpha, flag, best, count, h)
        } else {
            let quiet = m.2 is None && !holds(g.board.side_occ(!w), m.1 as int);
            let red = reduction(g, m, d, chk, count);
            let first = if red > 0 {
                ab_node(g2, d - 1 - red, -alpha - 1, -alpha, ply + 1, h)
            } else {
                ab_node(g2, d - 1, -beta, -alpha, ply + 1, h)
            };
            let second = ab_node(g2, d - 1, -beta, -alpha, ply + 1, first.1);
            let research = red > 0 && -first.0 > alpha && -first.0 < beta;
            let score = if research { -second.0 } else { -first.0 };
            let h2 = if research { second.1 } else { first.1 };
            if score >= beta {
                let h3 = tt_store_h(h2, g.zobrist_hash, d, beta, Flag::LowerBound, Some(m));
                let h4 = if quiet && g.board.piece_on(m.0 as int) is Some {
                    history_h(killer_h(h3, ply, m), g.board.piece_on(m.0 as int).unwrap().1, m.1 as int, d)
                } else {
                    h3
                };
                (beta, h4)
            } else if score > alpha {
                ab_loop(g, d, chk, beta, ply, moves, i + 1, score, Flag::Exact, Some(m), count + 1, h2)
            } else {
                ab_loop(g, d, chk, beta, ply, moves, i + 1, alpha, flag, best, count + 1, h2)
            }
        }
    }
}

/// Every element of a permutation of `a` is an element of `a`.
proof fn lemma_member_of_permutation(a: Seq<Move>, b: Seq<Move>, k: int)
    requires
        b.to_multiset() == a.to_multiset(),
        0 <= k < b.len(),
    ensures
        a.contains(b[k]),
{
    broadcast use vstd::seq_lib::group_to_multiset_ensures;
    assert(b.contains(b[k]));
    assert(b.to_multiset().count(b[k]) > 0);
    assert(a.to_multiset().count(b[k]) > 0);
}

/// Negamax alpha-beta search to `depth_in` plies, `ply` plies below the root. The flag
/// says whether the search completed: when `stop` is seen set it gives up at once,
/// returning `(0, false)`, and the caller discards the score. Fails hard: a completed
/// search from a valid position returns `ab_node`'s value, within `[alpha_in, beta]`.
#[verifier::rlimit(80)]
pub fn search(
    game: &mut Game,
    depth_in: u8,
    alpha_in: i32,
    beta: i32,
    ply: usize,
    stop: &AtomicBool,
    search_helper: &mut Search,
) -> (r: (i32, bool))
    requires
        old(game).wf(),
        old(search_helper).wf(),
        -MATE_SCORE <= alpha_in < beta <= MATE_SCORE,
        ply <= MAX_PLY,
    ensures
        final(game).wf(),
        final(search_helper).wf(),
        r.1 ==> alpha_in <= r.0 <= beta,
        !r.1 ==> r.0 == 0,
        valid_position(*old(game)) ==> same_position(*final(game), *old(game)),
        valid_position(*old(game)) && (depth_in == 0 || ply >= MAX_PLY) ==> r.1,
        valid_position(*old(game)) && r.1 ==> r.0 == ab_node(
            *old(game),
            depth_in as int,
            alpha_in as int,
            beta as int,
            ply as int,
            heur_of(*old(search_helper)),
        ).0 && heur_of(*final(search_helper)) == ab_node(
            *old(game),
            depth_in as int,
            alpha_in as int,
            beta as int,
            ply as int,
            heur_of(*old(search_helper)),
        ).1,
    decreases MAX_PLY - ply, 1u8,
{
    let ghost g0 = *game;
    let ghost h0 = heur_of(*search_helper);
    search_helper.nodes_searched = search_helper.nodes_searched.saturating_add(1);
    if depth_in == 0 || ply >= MAX_PLY {
        let q = quiescence_search(game, alpha_in, beta, ply, search_helper);
        return (q, true);
    }
    if stop.load(Ordering::Relaxed) {
        return (0, false);
    }
    let mut alpha = alpha_in;
    let key = game.zobrist_hash;
    match search_helper.tt.probe(key) {
        Some(entry) => {
            if entry.depth >= depth_in {
                match entry.flag {
                    Flag::Exact => {
                        let v = if entry.score < alpha {
                            alpha
                        } else if entry.score > beta {
                            beta
                        } else {
                            entry.score
                        };
                        return (v, true);
                    },
                    Flag::LowerBound => {
                        if entry.score >= beta {
                            return (beta, true);
                        }
                    },
                    Flag::UpperBound => {
                        if entry.score <= alpha {
                            return (alpha, true);
                        }
                    },
                }
            }
        },
        None => {},
    }
    let side = game.is_white_turn;
    let in_check = game.is_in_check();
    let depth: u8 = if in_check && depth_in < 255 { depth_in + 1 } else { depth_in };
    let mut moves = generate_pseudo_legal_moves(game);
    let ghost all = moves@;
    order_moves(game, &mut moves, ply, search_helper);
    proof {
        assert forall|k: int| 0 <= k < moves@.len() implies pseudo_legal(g0, #[trigger] moves@[k]) by {
            lemma_member_of_permutation(all, moves@, k);
        }
        if valid_position(g0) {
            assert forall|m: Move| #[trigger] all.contains(m) implies in_space(m) by {}
            assert(is_ordered(g0, ply, h0, moves@)) by {
                assert forall|m: Move| #[trigger] moves@.contains(m) <==> pseudo_legal(g0, m) by {}
            }
            lemma_key_order_unique(moves@, ordered(g0, ply, h0), |m: Move| pseudo_legal(g0, m), |m: Move| order_key(g0, m, ply, h0));
        }
    }
    let enemies = game.board.side_pieces(!side);
    let mut best_move: Option<Move> = None;
    let mut flag = Flag::UpperBound;
    let mut legal_count: usize = 0;
    let n = moves.len();
    let mut i: usize = 0;
    while i < n
        invariant
            game.wf(),
            search_helper.wf(),
            n == moves@.len(),
            i <= n,
            legal_count <= i,
            -MATE_SCORE <= alpha < beta <= MATE_SCORE,
            alpha_in <= alpha,
            ply < MAX_PLY,
            depth >= 1,
            depth_in >= 1,
            depth as int == (if in_check && depth_in < 255 { depth_in as int + 1 } else { depth_in as int }),
            in_check == crate::game::in_check(g0.board, g0.is_white_turn),
            enemies == g0.board.side_occ(!g0.is_white_turn),
            key == g0.zobrist_hash,
            forall|k: int| 0 <= k < n ==> pseudo_legal(g0, #[trigger] moves@[k]),
            valid_position(g0) ==> same_position(*game, g0),
            valid_position(g0) ==> moves@ == ordered(g0, ply, h0),
            valid_position(g0) ==> ab_node(g0, depth_in as int, alpha_in as int, beta as int, ply as int, h0)
                == ab_loop(g0, depth as int, in_check, beta as int, ply as int, moves@, i as int, alpha as int, flag, best_move, legal_count as int, heur_of(*search_helper)),
            g0 == *old(game),
            h0 == heur_of(*old(search_helper)),
            side == g0.is_white_turn,
        decreases n - i,
    {
        let m = moves.get(i);
        let ghost hi = heur_of(*search_helper);
        proof {
            if valid_position(g0) {
                crate::laws::lemma_pseudo_shape(g0, m);
            }
        }
        i = i + 1;
        if !playable(game, m) {
            proof {
                assert(!valid_position(g0));
            }
            continue;
        }
        let is_quiet = m.2.is_none() && !is_set(enemies, m.1);
        let piece = game.get_piece_at(m.0);
        proof {
            if valid_position(g0) {
                lemma_make_keeps_valid(g0, m);
                lemma_unmake_restores(g0, m);
            }
        }
        let undo = game.make_move_unchecked(m.0, m.1, m.2);
        proof {
            if valid_position(g0) {
                assert(*game == game_after(g0, m));
            }
        }
        if game.side_in_check(side) {
            game.unmake_move(undo);
            continue;
        }
        let reduce: u8 = if is_quiet && !in_check && depth > 2 && legal_count >= 1 {
            let r = lmr(depth, legal_count);
            if r >= depth { depth - 1 } else { r }
        } else {
            0
        };
        proof {
            assert(reduce as int == reduction(g0, m, depth as int, in_check, legal_count as int));
        }
        legal_count = legal_count + 1;
        let mut done = true;
        let score: i32 = if reduce > 0 {
            let (rv, c1) = search(game, depth - 1 - reduce, -alpha - 1, -alpha, ply + 1, stop, search_helper);
            let reduced = -rv;
            if !c1 {
                done = false;
                0
            } else if reduced > alpha && reduced < beta {
                let (fv, c2) = search(game, depth - 1, -beta, -alpha, ply + 1, stop, search_helper);
                if !c2 {
                    done = false;
                }
                -fv
            } else {
                reduced
            }
        } else {
            let (fv, c1) = search(game, depth - 1, -beta, -alpha, ply + 1, stop, search_helper);
            if !c1 {
                done = false;
            }
            -fv
        };
        game.unmake_move(undo);
        if !done || stop.load(Ordering::Relaxed) {
            return (0, false);
        }
        if score >= beta {
            search_helper.tt.store(key, depth, beta, Flag::LowerBound, Some(m));
            if is_quiet {
                match piece {
                    Some(p) => {
                        search_helper.add_killer_move(ply, m);
                        search_helper.update_history_score(p, m.1, depth);
                    },
                    None => {},
                }
            }
            return (beta, true);
        }
        if score > alpha {
            alpha = score;
            best_move = Some(m);
            flag = Flag::Exact;
        }
    }
    if legal_count == 0 {
        let mated = -MATE_SCORE + ply as i32;
        let v = if in_check { mated } else { 0 };
        if v < alpha {
            return (alpha, true);
        }
        if v > beta {
            return (beta, true);
        }
        return (v, true);
    }
    search_helper.tt.store(key, depth, alpha, flag, best_move);
    (alpha, true)
}

/// The principal variation: best moves read from the table, at most `depth` of them,
/// each pseudo-legal where it is played; the game is walked along it and back.
fn principal_variation(game: &mut Game, search_helper: &Search, depth: u8) -> (pv: Vec<Move>)
    requires
        old(game).wf(),
        search_helper.wf(),
    ensures
        final(game).wf(),
        valid_position(*old(game)) ==> same_position(*final(game), *old(game)),
{
    let ghost g0 = *game;
    let mut pv: Vec<Move> = Vec::new();
    let mut undos: Vec<Undo> = Vec::new();
    let ghost mut states: Seq<Game> = Seq::empty();
    let mut k: u8 = 0;
    while k < depth
        invariant
            game.wf(),
            search_helper.wf(),
            g0 == *old(game),
            undos@.len() == pv@.len(),
            states.len() == pv@.len(),
            records_in_range(undos@),
            valid_position(g0) ==> chain_holds(g0, states, pv@, undos@, *game),
        decreases depth - k,
    {
        let mv = match search_helper.tt.probe(game.zobrist_hash) {
            Some(e) => e.best_move,
            None => None,
        };
        let m = match mv {
            Some(m) => m,
            None => {
                break;
            },
        };
        if !game.is_pseudo_legal(m) {
            break;
        }
        proof {
            crate::legal::lemma_pseudo_has_piece(*game, m);
            if valid_position(g0) {
                lemma_make_keeps_valid(*game, m);
            }
        }
        let ghost before = *game;
        let ghost old_states = states;
        let ghost old_pv = pv@;
        let ghost old_undos = undos@;
        let u = game.make_move_unchecked(m.0, m.1, m.2);
        proof {
            states = states.push(before);
        }
        pv.push(m);
        undos.push(u);
        proof {
            let n = old_states.len();
            assert(forall|j: int| 0 <= j < n ==> undos@[j] == old_undos[j]);
            if valid_position(g0) {
                assert forall|j: int| 0 <= j < states.len() implies #[trigger] link(states, pv@, undos@, *game, j) by {
                    if j < n {
                        assert(link(old_states, old_pv, old_undos, before, j));
                        assert(states[j] == old_states[j]);
                        assert(pv@[j] == old_pv[j]);
                        if j + 1 < n {
                            assert(states[j + 1] == old_states[j + 1]);
                        }
                    }
                }
                if n > 0 {
                    assert(states[0] == old_states[0]);
                }
            }
        }
        k = k + 1;
    }
    proof {
        assert(pv@.subrange(0, undos@.len() as int) =~= pv@);
    }
    while undos.len() > 0
        invariant
            game.wf(),
            g0 == *old(game),
            undos@.len() == states.len(),
            undos@.len() <= pv@.len(),
            records_in_range(undos@),
            valid_position(g0) ==> chain_holds(g0, states, pv@.subrange(0, undos@.len() as int), undos@, *game),
        decreases undos@.len(),
    {
        let ghost n = states.len() - 1;
        let ghost s = states[n];
        let ghost old_states = states;
        let ghost old_undos = undos@;
        let ghost pvs = pv@.subrange(0, n + 1);
        let ghost mv = pvs[n];
        proof {
            if valid_position(g0) {
                assert(link(old_states, pvs, old_undos, *game, n));
                lemma_unmake_restores(s, mv);
            }
        }
        let u = undos.pop().unwrap();
        proof {
            assert(u == old_undos[n]);
        }
        let ghost gbefore = *game;
        game.unmake_move(u);
        proof {
            states = states.drop_last();
            if valid_position(g0) {
                assert(same_position(*game, s));
                assert forall|j: int| 0 <= j < states.len() implies #[trigger] link(states, pv@.subrange(0, n), undos@, *game, j) by {
                    assert(link(old_states, pvs, old_undos, gbefore, j));
                    assert(states[j] == old_states[j]);
                    assert(undos@[j] == old_undos[j]);
                    assert(pv@.subrange(0, n)[j] == pvs[j]);
                    if j + 1 < n {
                        assert(states[j + 1] == old_states[j + 1]);
                    }
                }
                if n > 0 {
                    assert(states[0] == old_states[0]);
                }
            }
        }
    }
    pv
}

/// The game after `m` from `g`, as make leaves it.
pub open spec fn game_after_pos(g: Game, m: Move) -> Game {
    crate::laws::game_after(g, m)
}

/// Step `j` of a walk: from `states[j]` the move `pv[j]` is pseudo-legal, its record is
/// `undos[j]`, and it leads to the next state (or to `now` after the last one).
pub open spec fn link(states: Seq<Game>, pv: Seq<Move>, undos: Seq<Undo>, now: Game, j: int) -> bool {
    &&& valid_position(states[j])
    &&& pseudo_legal(states[j], pv[j])
    &&& undos[j] == undo_of(states[j], pv[j])
    &&& same_position(if j + 1 < states.len() { states[j + 1] } else { now }, game_after_pos(states[j], pv[j]))
}

/// Every record can be handed to `unmake_move`.
pub open spec fn records_in_range(undos: Seq<Undo>) -> bool {
    forall|j: int|
        0 <= j < undos.len() ==> (#[trigger] undos[j]).from < 64 && undos[j].to < 64
            && match undos[j].previous_en_passant_square {
            Some(e) => e < 64,
            None => true,
        }
}

/// A walk from `g0` along `pv` that stands at `now`.
pub open spec fn chain_holds(g0: Game, states: Seq<Game>, pv: Seq<Move>, undos: Seq<Undo>, now: Game) -> bool {
    &&& states.len() == pv.len() && undos.len() == pv.len()
    &&& valid_position(now)
    &&& (states.len() == 0 ==> same_position(now, g0))
    &&& (states.len() > 0 ==> same_position(states[0], g0))
    &&& forall|j: int| 0 <= j < states.len() ==> #[trigger] link(states, pv, undos, now, j)
}

/// The heuristic state with every table slot emptied.
pub open spec fn cleared(h: Heur) -> Heur {
    (Seq::new(h.0.len(), |i: int| None::<TTEntry>), h.1, h.2, h.3)
}

/// The heuristic state before iteration `k` of iterative deepening from `h`.
pub open spec fn iter_heur(g: Game, h: Heur, k: int) -> Heur
    decreases k,
{
    if k <= 1 {
        h
    } else {
        iteration(g, h, k - 1).1
    }
}

/// Iteration `k`: the full-window search to depth `k` from the root.
pub open spec fn iteration(g: Game, h: Heur, k: int) -> (int, Heur)
    decreases k, 0int,
{
    if k <= 1 {
        ab_node(g, k, -MATE_SCORE as int, MATE_SCORE as int, 0, h)
    } else {
        ab_node(g, k, -MATE_SCORE as int, MATE_SCORE as int, 0, iteration(g, h, k - 1).1)
    }
}

/// Iterative deepening from depth 1 to `max_depth`, with the table emptied first. Each
/// report holds the value of one completed iteration; the search stops at the first
/// interrupted one, or once a mate is found. The best move is the root's best move in
/// the table after the last completed iteration, when that move is legal; otherwise a
/// legal move, or none when there is none. `on_depth` is handed each report as its
/// iteration completes.
pub fn find_best_move<F: Fn(&DepthReport)>(
    game: &mut Game,
    search_helper: &mut Search,
    max_depth: u8,
    stop: &AtomicBool,
    on_depth: F,
) -> (r: SearchOutcome)
    requires
        old(game).wf(),
        old(search_helper).wf(),
        forall|d: DepthReport| on_depth.requires((&d,)),
    ensures
        final(game).wf(),
        final(search_helper).wf(),
        valid_position(*old(game)) ==> same_position(*final(game), *old(game)),
        valid_position(*old(game)) ==> (r.best_move matches Some(m) ==> legal(*old(game), m)),
        valid_position(*old(game)) ==> (r.best_move is None ==> !has_legal_move(*old(game))),
        r.reports@.len() > 0 ==> r.score == r.reports@.last().score,
        r.reports@.len() == 0 ==> r.score == -MATE_SCORE,
        valid_position(*old(game)) ==> forall|k: int| 0 <= k < r.reports@.len() ==> (#[trigger] r.reports@[k]).depth == k + 1
            && r.reports@[k].score == iteration(*old(game), cleared(heur_of(*old(search_helper))), k + 1).0,
        valid_position(*old(game)) && r.reports@.len() > 0 ==> ({
            let e = tt_lookup(
                iteration(*old(game), cleared(heur_of(*old(search_helper))), r.reports@.len() as int).1,
                old(game).zobrist_hash,
            );
            e is Some && e.unwrap().best_move is Some && legal(*old(game), e.unwrap().best_move.unwrap())
                ==> r.best_move == e.unwrap().best_move
        }),
{
    let ghost g0 = *game;
    let ghost hc = cleared(heur_of(*search_helper));
    search_helper.tt.clear();
    proof {
        assert(search_helper.tt.table@ =~= hc.0);
        assert(heur_of(*search_helper) == hc);
    }
    let mut best_move: Option<Move> = None;
    let mut best_score: i32 = -MATE_SCORE;
    let mut reports: Vec<DepthReport> = Vec::new();
    let mut depth: u8 = 1;
    while depth <= max_depth
        invariant_except_break
            valid_position(g0) ==> heur_of(*search_helper) == iter_heur(g0, hc, depth as int),
            reports@.len() == depth - 1,
        invariant
            game.wf(),
            search_helper.wf(),
            1 <= depth,
            g0 == *old(game),
            hc == cleared(heur_of(*old(search_helper))),
            forall|d: DepthReport| on_depth.requires((&d,)),
            valid_position(g0) ==> same_position(*game, g0),
            reports@.len() > 0 ==> best_score == reports@.last().score,
            reports@.len() == 0 ==> best_score == -MATE_SCORE,
            reports@.len() <= depth,
            valid_position(g0) ==> forall|k: int| 0 <= k < reports@.len() ==> (#[trigger] reports@[k]).depth == k + 1
                && reports@[k].score == iteration(g0, hc, k + 1).0,
            valid_position(g0) && reports@.len() > 0 ==> ({
                let e = tt_lookup(iteration(g0, hc, reports@.len() as int).1, g0.zobrist_hash);
                e is Some && e.unwrap().best_move is Some ==> best_move == e.unwrap().best_move
            }),
        decreases 256 - depth,
    {
        let (score, completed) = search(game, depth, -MATE_SCORE, MATE_SCORE, 0, stop, search_helper);
        if !completed {
            break;
        }
        proof {
            if valid_position(g0) {
                assert(iteration(g0, hc, depth as int) == ab_node(g0, depth as int, -MATE_SCORE as int, MATE_SCORE as int, 0, iter_heur(g0, hc, depth as int)));
            }
        }
        best_score = score;
        match search_helper.tt.probe(game.zobrist_hash) {
            Some(e) => {
                match e.best_move {
                    Some(bm) => {
                        best_move = Some(bm);
                    },
                    None => {},
                }
            },
            None => {},
        }
        let pv = principal_variation(game, search_helper, depth);
        let ghost old_reports = reports@;
        let report = DepthReport { depth, score, nodes: search_helper.nodes_searched, pv };
        on_depth(&report);
        reports.push(report);
        proof {
            if valid_position(g0) {
                assert forall|k: int| 0 <= k < reports@.len() implies (#[trigger] reports@[k]).depth == k + 1
                    && reports@[k].score == iteration(g0, hc, k + 1).0 by {
                    if k < old_reports.len() {
                        assert(reports@[k] == old_reports[k]);
                    }
                }
                assert(iter_heur(g0, hc, depth + 1) == iteration(g0, hc, depth as int).1);
            }
        }
        if score >= MATE_SCORE - max_depth as i32 || depth == 255 {
            break;
        }
        depth = depth + 1;
    }
    let ghost before_filter = best_move;
    match best_move {
        Some(m) => {
            if !game.is_legal(m) {
                best_move = None;
            }
        },
        None => {},
    }
    if best_move.is_none() {
        let legal_moves = game.generate_legal_moves();
        if legal_moves.len() > 0 {
            let m = legal_moves.get(0);
            proof {
                assert(legal_moves@.contains(m));
            }
            best_move = Some(m);
        } else {
            proof {
                assert forall|m: Move| !legal(*game, m) by {
                    if legal(*game, m) {
                        assert(legal_moves@.contains(m));
                    }
                }
            }
        }
    }
    SearchOutcome { best_move, score: best_score, reports }
}

/// Moves left until mate for a mate score, signed as the score: positive when the side
/// to move mates.
pub fn mate_distance(score: i32) -> (r: Option<i32>)
    requires
        -MATE_SCORE <= score <= MATE_SCORE,
    ensures
        r.is_some() <==> (score >= MATE_THRESHOLD || score <= -MATE_THRESHOLD),
        r matches Some(n) ==> n == (if score > 0 {
            (MATE_SCORE - score + 1) / 2
        } else {
            -((MATE_SCORE + score + 1) / 2)
        }),
{
    if score >= MATE_THRESHOLD {
        Some((MATE_SCORE - score + 1) / 2)
    } else if score <= -MATE_THRESHOLD {
        Some(-((MATE_SCORE + score + 1) / 2))
    } else {
        None
    }
}

} // verus!
