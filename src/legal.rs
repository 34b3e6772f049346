//! Legal moves: pseudo-legal moves that leave the mover's king unattacked; checked
//! play, game status, repetition bookkeeping and move-path counting.
use vstd::prelude::*;
use crate::bitboard::Piece;
use crate::game::{board_after, in_check, king_in_check, Game, GameState};
use crate::movegen::{generate_pseudo_legal_moves, pseudo_legal};
use crate::movelist::{Move, MoveList};
use crate::perft_count::{dsum, lemma_dsum_ext, lemma_perft_nonneg, move_at, move_space, perft_count};
use crate::laws::{one_king, pawns_inside, game_after, lemma_hash_consistent, lemma_make_keeps_valid, lemma_unmake_restores, same_position, valid_position};

verus! {

broadcast use vstd::seq_lib::group_seq_properties;

/// `m` is legal in `g`: pseudo-legal, and the mover's king is not attacked afterwards.
pub open spec fn legal(g: Game, m: Move) -> bool {
    pseudo_legal(g, m) && !in_check(board_after(g, m.0 as int, m.1 as int, m.2), g.is_white_turn)
}

pub open spec fn has_legal_move(g: Game) -> bool {
    exists|m: Move| legal(g, m)
}

/// Number of times `h` occurs in `s`.
pub open spec fn occurrences(s: Seq<u64>, h: u64) -> nat
    decreases s.len(),
{
    if s.len() == 0 {
        0
    } else {
        occurrences(s.drop_last(), h) + if s.last() == h {
            1nat
        } else {
            0nat
        }
    }
}

/// A pseudo-legal move starts on an occupied square.
pub proof fn lemma_pseudo_has_piece(g: Game, m: Move)
    requires
        pseudo_legal(g, m),
    ensures
        g.board.piece_on(m.0 as int).is_some(),
{
    vstd::std_specs::bits::axiom_u64_trailing_zeros(g.board.bb(Piece::King, g.is_white_turn));
    let k = vstd::std_specs::bits::u64_trailing_zeros(g.board.bb(Piece::King, g.is_white_turn));
    if g.board.bb(Piece::King, g.is_white_turn) != 0 {
        assert((g.board.bb(Piece::King, g.is_white_turn) >> (k as u64)) & 1u64 == 1u64);
    }
}

fn same_move(a: Move, b: Move) -> (r: bool)
    ensures
        r == (a == b),
{
    let promo_same = match (a.2, b.2) {
        (Some(p), Some(q)) => p == q,
        (None, None) => true,
        _ => false,
    };
    a.0 == b.0 && a.1 == b.1 && promo_same
}

impl Game {
    /// Whether the pseudo-legal move `m` leaves the mover's king unattacked.
    fn keeps_king_safe(&self, m: Move) -> (r: bool)
        requires
            pseudo_legal(*self, m),
        ensures
            r == legal(*self, m),
    {
        proof {
            lemma_pseudo_has_piece(*self, m);
        }
        let b = self.board_after_move(m.0, m.1, m.2);
        !king_in_check(&b, self.is_white_turn)
    }

    /// Every legal move of the side to move, each at least once.
    pub fn generate_legal_moves(&self) -> (r: MoveList)
        ensures
            forall|m: Move| #[trigger] r@.contains(m) <==> legal(*self, m),
            valid_position(*self) ==> r@.no_duplicates(),
    {
        let pseudo = generate_pseudo_legal_moves(self);
        let mut out = MoveList::new();
        let n = pseudo.len();
        let mut i: usize = 0;
        while i < n
            invariant
                n == pseudo@.len(),
                i <= n,
                forall|m: Move| #[trigger] pseudo@.contains(m) <==> pseudo_legal(*self, m),
                forall|m: Move| #[trigger]
                    out@.contains(m) <==> (legal(*self, m) && exists|k: int| 0 <= k < i && pseudo@[k] == m),
                valid_position(*self) ==> pseudo@.no_duplicates(),
                valid_position(*self) ==> out@.no_duplicates(),
            decreases n - i,
        {
            let m = pseudo.get(i);
            proof {
                assert(pseudo@.contains(m));
            }
            if self.keeps_king_safe(m) {
                let ghost s0 = out@;
                proof {
                    if valid_position(*self) && s0.contains(m) {
                        let k = choose|k: int| 0 <= k < i && pseudo@[k] == m;
                        assert(pseudo@[k] == pseudo@[i as int]);
                    }
                }
                out.add(m.0, m.1, m.2);
                proof {
                    if valid_position(*self) {
                        assert forall|a: int, c: int| 0 <= a < out@.len() && 0 <= c < out@.len() && a != c implies out@[a] != out@[c] by {
                            if a == s0.len() {
                                assert(s0.contains(out@[c]) || c == s0.len());
                                if c < s0.len() { assert(s0[c] == out@[c]); }
                            } else if c == s0.len() {
                                assert(s0[a] == out@[a]);
                            } else {
                                assert(s0[a] == out@[a] && s0[c] == out@[c]);
                            }
                        }
                    }
                }
            }
            proof {
                assert forall|x: Move| #[trigger]
                    out@.contains(x) <==> (legal(*self, x) && exists|k: int| 0 <= k < i + 1 && pseudo@[k] == x) by {
                    if legal(*self, x) && exists|k: int| 0 <= k < i + 1 && pseudo@[k] == x {
                        let k = choose|k: int| 0 <= k < i + 1 && pseudo@[k] == x;
                        if k < i {
                            assert(exists|k: int| 0 <= k < i && pseudo@[k] == x);
                        }
                    }
                    if out@.contains(x) && x == m {
                        assert(pseudo@[i as int] == x);
                    }
                }
            }
            i = i + 1;
        }
        proof {
            assert forall|m: Move| #[trigger] out@.contains(m) <==> legal(*self, m) by {
                if legal(*self, m) {
                    assert(pseudo@.contains(m));
                    let k = choose|k: int| 0 <= k < pseudo@.len() && pseudo@[k] == m;
                    assert(exists|k: int| 0 <= k < n && pseudo@[k] == m);
                }
            }
        }
        out
    }

    /// Whether `m` is a pseudo-legal move here.
    pub fn is_pseudo_legal(&self, m: Move) -> (r: bool)
        ensures
            r == pseudo_legal(*self, m),
    {
        let pseudo = generate_pseudo_legal_moves(self);
        let n = pseudo.len();
        let mut i: usize = 0;
        while i < n
            invariant
                n == pseudo@.len(),
                i <= n,
                forall|x: Move| #[trigger] pseudo@.contains(x) <==> pseudo_legal(*self, x),
                forall|k: int| 0 <= k < i ==> pseudo@[k] != m,
            decreases n - i,
        {
            let x = pseudo.get(i);
            if same_move(x, m) {
                proof {
                    assert(pseudo@.contains(x));
                }
                return true;
            }
            i = i + 1;
        }
        proof {
            if pseudo_legal(*self, m) {
                assert(pseudo@.contains(m));
            }
        }
        false
    }

    /// Whether `m` is a legal move here.
    pub fn is_legal(&self, m: Move) -> (r: bool)
        ensures
            r == legal(*self, m),
    {
        if !self.is_pseudo_legal(m) {
            return false;
        }
        self.keeps_king_safe(m)
    }

    /// Plays `(from, to, promo)` when it is legal and returns true; otherwise leaves the
    /// game as it is and returns false.
    pub fn make_move(&mut self, from: usize, to: usize, promo: Option<Piece>) -> (r: bool)
        requires
            old(self).wf(),
        ensures
            final(self).wf(),
            r == legal(*old(self), (from, to, promo)),
            r ==> final(self).board == board_after(*old(self), from as int, to as int, promo),
            r ==> final(self).is_white_turn == !old(self).is_white_turn,
            r ==> !in_check(final(self).board, old(self).is_white_turn),
            r ==> *final(self) == game_after(*old(self), (from, to, promo)),
            r && valid_position(*old(self)) ==> valid_position(*final(self)),
            r && valid_position(*old(self)) && pawns_inside(old(self).board) ==> pawns_inside(final(self).board),
            r && valid_position(*old(self)) && one_king(old(self).board, true) && one_king(old(self).board, false)
                && !in_check(old(self).board, !old(self).is_white_turn)
                ==> one_king(final(self).board, true) && one_king(final(self).board, false)
                && !in_check(final(self).board, !final(self).is_white_turn),
            r && valid_position(*old(self)) && old(self).zobrist_hash == old(self).full_hash()
                ==> final(self).zobrist_hash == final(self).full_hash(),
            !r ==> *final(self) == *old(self),
    {
        let ghost g0 = *self;
        let m: Move = (from, to, promo);
        if !self.is_pseudo_legal(m) {
            return false;
        }
        if !self.keeps_king_safe(m) {
            return false;
        }
        proof {
            lemma_pseudo_has_piece(*self, m);
        }
        proof {
            if valid_position(g0) {
                lemma_make_keeps_valid(g0, m);
                if g0.zobrist_hash == g0.full_hash() {
                    lemma_hash_consistent(g0, m);
                }
                if pawns_inside(g0.board) {
                    crate::laws::lemma_make_keeps_pawns_inside(g0, m);
                }
                if one_king(g0.board, true) && one_king(g0.board, false) && !in_check(g0.board, !g0.is_white_turn) {
                    crate::laws::lemma_make_keeps_one_king(g0, m);
                }
            }
        }
        let _undo = self.make_move_unchecked(from, to, promo);
        proof {
            assert(*self == game_after(g0, m));
        }
        true
    }

    /// Whether the side to move is in check, mated, stalemated, or neither.
    pub fn game_state(&mut self) -> (r: GameState)
        ensures
            *final(self) == *old(self),
            r == if in_check(old(self).board, old(self).is_white_turn) {
                if has_legal_move(*old(self)) {
                    GameState::Check
                } else {
                    GameState::Checkmate
                }
            } else if has_legal_move(*old(self)) {
                GameState::Normal
            } else {
                GameState::Stalemate
            },
    {
        let check = self.is_in_check();
        let moves = self.generate_legal_moves();
        let any = !moves.is_empty();
        proof {
            if any {
                assert(moves@.contains(moves@[0]));
            } else {
                assert forall|m: Move| !legal(*self, m) by {
                    if legal(*self, m) {
                        assert(moves@.contains(m));
                    }
                }
            }
        }
        if check {
            if any {
                GameState::Check
            } else {
                GameState::Checkmate
            }
        } else if any {
            GameState::Normal
        } else {
            GameState::Stalemate
        }
    }

    /// The key that identifies this position for repetition: its Zobrist hash.
    pub fn hash_position(&self) -> (r: u64)
        ensures
            r == self.zobrist_hash,
    {
        self.zobrist_hash
    }

    /// How many times the position hashed `h` is in the history.
    pub fn repetition_count(&self, h: u64) -> (r: usize)
        ensures
            r == occurrences(self.position_history@, h),
    {
        let s = &self.position_history;
        let n = s.len();
        let mut c: usize = 0;
        let mut i: usize = 0;
        while i < n
            invariant
                n == s@.len(),
                i <= n,
                c == occurrences(s@.subrange(0, i as int), h),
                c <= i,
            decreases n - i,
        {
            proof {
                assert(s@.subrange(0, i + 1).drop_last() == s@.subrange(0, i as int));
            }
            if s[i] == h {
                c = c + 1;
            }
            i = i + 1;
        }
        proof {
            assert(s@.subrange(0, n as int) == s@);
        }
        c
    }

    /// Adds the current position to the history and returns how often it has now occurred.
    pub fn record_position(&mut self) -> (r: usize)
        requires
            old(self).position_history@.len() < usize::MAX,
        ensures
            final(self).position_history@ == old(self).position_history@.push(old(self).zobrist_hash),
            r == occurrences(final(self).position_history@, old(self).zobrist_hash),
            final(self).board == old(self).board,
            final(self).zobrist_hash == old(self).zobrist_hash,
    {
        let h = self.zobrist_hash;
        self.position_history.push(h);
        self.repetition_count(h)
    }

    /// Number of move paths of length `depth` through legal moves (1 at depth 0),
    /// saturating at `u64::MAX`.
    pub fn perft(&mut self, depth: u32) -> (r: u64)
        requires
            old(self).wf(),
        ensures
            final(self).wf(),
            depth == 0 ==> r == 1,
            valid_position(*old(self)) ==> same_position(*final(self), *old(self)),
            valid_position(*old(self)) ==> r == if perft_count(*old(self), depth as nat) > u64::MAX {
                u64::MAX as int
            } else {
                perft_count(*old(self), depth as nat)
            },
        decreases depth,
    {
        let ghost g0 = *self;
        if depth == 0 {
            return 1;
        }
        let moves = self.generate_legal_moves();
        let n = moves.len();
        let mut nodes: u64 = 0;
        let mut i: usize = 0;
        let ghost f = |m: Move| perft_count(game_after(g0, m), (depth - 1) as nat);
        proof {
            lemma_dsum_ext(f, |m: Move| moves@.subrange(0, 0).contains(m), |m: Move| false, move_space());
            lemma_dsum_zero(f, move_space());
        }
        while i < n
            invariant
                self.wf(),
                depth > 0,
                n == moves@.len(),
                i <= n,
                forall|m: Move| #[trigger] moves@.contains(m) <==> legal(g0, m),
                valid_position(g0) ==> same_position(*self, g0),
                g0 == *old(self),
                f == (|m: Move| perft_count(game_after(g0, m), (depth - 1) as nat)),
                valid_position(g0) ==> nodes == min_max(dsum(f, |m: Move| moves@.subrange(0, i as int).contains(m), move_space())),
            decreases n - i,
        {
            let (from, to, promo) = moves.get(i);
            let m: Move = (from, to, promo);
            let ghost pre = |x: Move| moves@.subrange(0, i as int).contains(x);
            let ghost post = |x: Move| moves@.subrange(0, i + 1).contains(x);
            proof {
                assert(moves@.contains(moves@[i as int]));
                assert forall|x: Move| #[trigger] post(x) == (pre(x) || x == m) by {
                    assert(moves@.subrange(0, i + 1) == moves@.subrange(0, i as int).push(m));
                }
            }
            let seen = appears_before(&moves, i, m);
            if seen {
                proof {
                    assert forall|x: Move| #[trigger] post(x) == pre(x) by {
                        assert(moves@.subrange(0, i + 1) == moves@.subrange(0, i as int).push(m));
                    }
                    lemma_dsum_ext(f, post, pre, move_space());
                }
                i = i + 1;
                continue;
            }
            let ok = from < 64 && to < 64 && match self.board.piece_on_square(from) {
                Some((w, _)) => w == self.is_white_turn,
                None => false,
            };
            proof {
                if valid_position(g0) {
                    crate::laws::lemma_pseudo_shape(g0, m);
                    lemma_make_keeps_valid(g0, m);
                    lemma_unmake_restores(g0, m);
                    lemma_perft_nonneg(game_after(g0, m), (depth - 1) as nat);
                    crate::perft_count::lemma_dsum_add(f, pre, post, m, move_space());
                    crate::perft_count::lemma_index_in_space(m);
                    lemma_dsum_nonneg(f, pre, move_space(), g0, depth);
                }
            }
            if ok {
                let undo = self.make_move_unchecked(from, to, promo);
                proof {
                    if valid_position(g0) {
                        assert(*self == game_after(g0, m));
                    }
                }
                let sub = self.perft(depth - 1);
                nodes = nodes.saturating_add(sub);
                self.unmake_move(undo);
            }
            i = i + 1;
        }
        proof {
            if valid_position(g0) {
                assert(moves@.subrange(0, n as int) == moves@);
                lemma_dsum_ext(f, |m: Move| moves@.subrange(0, n as int).contains(m), |m: Move| legal(g0, m), move_space());
                crate::perft_count::lemma_perft_sum_is_dsum(g0, depth as nat, move_space());
            }
        }
        nodes
    }
}

/// `x` clipped to `u64::MAX`.
pub open spec fn min_max(x: int) -> int {
    if x > u64::MAX {
        u64::MAX as int
    } else {
        x
    }
}

proof fn lemma_dsum_zero(f: spec_fn(Move) -> int, k: int)
    ensures
        dsum(f, |m: Move| false, k) == 0,
    decreases k,
{
    if k > 0 {
        lemma_dsum_zero(f, k - 1);
    }
}

proof fn lemma_dsum_nonneg(f: spec_fn(Move) -> int, inc: spec_fn(Move) -> bool, k: int, g0: Game, depth: u32)
    requires
        depth > 0,
        f == (|m: Move| perft_count(game_after(g0, m), (depth - 1) as nat)),
    ensures
        dsum(f, inc, k) >= 0,
    decreases k,
{
    if k > 0 {
        lemma_dsum_nonneg(f, inc, k - 1, g0, depth);
        lemma_perft_nonneg(game_after(g0, move_at(k - 1)), (depth - 1) as nat);
    }
}

/// Whether `m` stands among the first `i` moves of `moves`.
fn appears_before(moves: &MoveList, i: usize, m: Move) -> (r: bool)
    requires
        i <= moves@.len(),
    ensures
        r == moves@.subrange(0, i as int).contains(m),
{
    let mut j: usize = 0;
    while j < i
        invariant
            i <= moves@.len(),
            j <= i,
            forall|k: int| 0 <= k < j ==> moves@[k] != m,
        decreases i - j,
    {
        if same_move(moves.get(j), m) {
            proof {
                assert(moves@.subrange(0, i as int)[j as int] == m);
            }
            return true;
        }
        j = j + 1;
    }
    proof {
        if moves@.subrange(0, i as int).contains(m) {
            let k = choose|k: int| 0 <= k < i && moves@.subrange(0, i as int)[k] == m;
            assert(moves@[k] == m);
        }
    }
    false
}

} // verus!
