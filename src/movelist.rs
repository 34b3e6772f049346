//! An ordered list of moves `(from, to, promotion)`.
use vstd::prelude::*;
use crate::bitboard::Piece;

verus! {

/// A move: origin square, destination square, and the promotion piece if any.
pub type Move = (usize, usize, Option<Piece>);

/// Capacity reserved for a position's moves.
pub const MOVE_CAPACITY: usize = 256;

#[derive(Clone, Debug)]
pub struct MoveList {
    pub moves: Vec<Move>,
}

impl View for MoveList {
    type V = Seq<Move>;

    open spec fn view(&self) -> Seq<Move> {
        self.moves@
    }
}

impl MoveList {
    /// An empty list with room for a position's moves.
    pub fn new() -> (r: Self)
        ensures
            r@ == Seq::<Move>::empty(),
    {
        MoveList { moves: Vec::with_capacity(MOVE_CAPACITY) }
    }

    /// Appends a move.
    pub fn add(&mut self, from: usize, to: usize, promo: Option<Piece>)
        ensures
            final(self)@ == old(self)@.push((from, to, promo)),
    {
        self.moves.push((from, to, promo));
    }

    /// Removes every move.
    pub fn clear(&mut self)
        ensures
            final(self)@ == Seq::<Move>::empty(),
    {
        self.moves.clear();
    }

    pub fn len(&self) -> (r: usize)
        ensures
            r == self@.len(),
    {
        self.moves.len()
    }

    pub fn is_empty(&self) -> (r: bool)
        ensures
            r == (self@.len() == 0),
    {
        self.moves.len() == 0
    }

    /// The move at position `i`.
    pub fn get(&self, i: usize) -> (r: Move)
        requires
            i < self@.len(),
        ensures
            r == self@[i as int],
    {
        self.moves[i]
    }

    /// Iterates over the moves in order.
    pub fn iter(&self) -> std::slice::Iter<'_, Move> {
        self.moves.as_slice().iter()
    }

    /// Puts the moves in increasing order of `f`'s value, each value computed once;
    /// moves with equal values keep their order.
    pub fn sort_by_cached_key<F: Fn(&Move) -> i64>(&mut self, f: F)
        requires
            forall|m: Move| f.requires((&m,)),
        ensures
            final(self)@.to_multiset() == old(self)@.to_multiset(),
            final(self)@.len() == old(self)@.len(),
            exists|keys: Seq<i64>, perm: Seq<int>|
                #![trigger keys.len(), perm.len()]
                sorted_stably(old(self)@, final(self)@, keys, perm) && (forall|i: int|
                    0 <= i < keys.len() ==> f.ensures((&final(self)@[i],), #[trigger] keys[i])),
    {
        let n = self.moves.len();
        let mut keyed: Vec<(i64, usize, Move)> = Vec::with_capacity(n);
        let mut i: usize = 0;
        while i < n
            invariant
                n == self.moves@.len(),
                i <= n,
                keyed@.len() == i,
                forall|j: int| 0 <= j < i ==> (#[trigger] keyed@[j]).2 == self.moves@[j] && keyed@[j].1 == j,
                forall|j: int| 0 <= j < i ==> f.ensures((&(#[trigger] keyed@[j]).2,), keyed@[j].0),
                forall|m: Move| f.requires((&m,)),
            decreases n - i,
        {
            let m = self.moves[i];
            let k = f(&m);
            keyed.push((k, i, m));
            i = i + 1;
        }
        proof {
            assert(keyed@.map_values(|p: (i64, usize, Move)| p.2) =~= self.moves@);
        }
        let mut i: usize = 1;
        while i < n
            invariant
                keyed@.len() == n,
                n == self.moves@.len(),
                1 <= i || n == 0,
                keyed@.map_values(|p: (i64, usize, Move)| p.2).to_multiset() == self.moves@.to_multiset(),
                forall|j: int| 0 <= j < n ==> f.ensures((&(#[trigger] keyed@[j]).2,), keyed@[j].0),
                forall|j: int| 0 <= j < n ==> (#[trigger] keyed@[j]).1 < n && keyed@[j].2 == self.moves@[keyed@[j].1 as int],
                forall|a: int, c: int| 0 <= a < n && 0 <= c < n && a != c ==> (#[trigger] keyed@[a]).1 != (#[trigger] keyed@[c]).1,
                forall|j: int| i <= j < n ==> (#[trigger] keyed@[j]).1 == j,
                forall|j: int| 0 <= j < i && i <= n ==> (#[trigger] keyed@[j]).1 < i,
                forall|a: int, c: int| 0 <= a < c < i && c < n ==> lex_lt(#[trigger] keyed@[a], #[trigger] keyed@[c]),
            decreases n - i,
        {
            let mut j = i;
            while j > 0 && keyed[j - 1].0 > keyed[j].0
                invariant
                    keyed@.len() == n,
                    n == self.moves@.len(),
                    i < n,
                    j <= i,
                    keyed@.map_values(|p: (i64, usize, Move)| p.2).to_multiset() == self.moves@.to_multiset(),
                    forall|k: int| 0 <= k < n ==> f.ensures((&(#[trigger] keyed@[k]).2,), keyed@[k].0),
                    forall|k: int| 0 <= k < n ==> (#[trigger] keyed@[k]).1 < n && keyed@[k].2 == self.moves@[keyed@[k].1 as int],
                    forall|a: int, c: int| 0 <= a < n && 0 <= c < n && a != c ==> (#[trigger] keyed@[a]).1 != (#[trigger] keyed@[c]).1,
                    forall|k: int| i < k < n ==> (#[trigger] keyed@[k]).1 == k,
                    keyed@[j as int].1 == i,
                    forall|k: int| 0 <= k <= i && k != j ==> (#[trigger] keyed@[k]).1 < i,
                    forall|a: int, c: int| 0 <= a < c < j ==> lex_lt(#[trigger] keyed@[a], #[trigger] keyed@[c]),
                    forall|a: int, c: int| j < a < c <= i ==> lex_lt(#[trigger] keyed@[a], #[trigger] keyed@[c]),
                    forall|a: int, c: int| 0 <= a < j && j < c <= i ==> lex_lt(#[trigger] keyed@[a], #[trigger] keyed@[c]),
                    forall|c: int| j < c <= i ==> keyed@[j as int].0 < (#[trigger] keyed@[c]).0,
                decreases j,
            {
                let a = keyed[j - 1];
                let b = keyed[j];
                proof {
                    let s = keyed@;
                    lemma_swap_multiset(s, j - 1, j as int);
                    assert(s.update(j - 1, b).update(j as int, a) == s.update(j - 1, s[j as int]).update(j as int, s[j - 1]));
                }
                keyed.set(j - 1, b);
                keyed.set(j, a);
                j = j - 1;
            }
            i = i + 1;
        }
        proof {
            assert forall|a: int, c: int| 0 <= a < c < n implies lex_lt(#[trigger] keyed@[a], #[trigger] keyed@[c]) by {
                assert(i >= n);
            }
        }
        let mut out: Vec<Move> = Vec::with_capacity(n);
        let mut i: usize = 0;
        while i < n
            invariant
                keyed@.len() == n,
                n == self.moves@.len(),
                i <= n,
                out@ == keyed@.map_values(|p: (i64, usize, Move)| p.2).subrange(0, i as int),
                forall|a: int, c: int| 0 <= a < c < n ==> lex_lt(#[trigger] keyed@[a], #[trigger] keyed@[c]),
                forall|j: int| 0 <= j < n ==> f.ensures((&(#[trigger] keyed@[j]).2,), keyed@[j].0),
                forall|j: int| 0 <= j < n ==> (#[trigger] keyed@[j]).1 < n && keyed@[j].2 == self.moves@[keyed@[j].1 as int],
                forall|a: int, c: int| 0 <= a < n && 0 <= c < n && a != c ==> (#[trigger] keyed@[a]).1 != (#[trigger] keyed@[c]).1,
                keyed@.map_values(|p: (i64, usize, Move)| p.2).to_multiset() == self.moves@.to_multiset(),
            decreases n - i,
        {
            out.push(keyed[i].2);
            i = i + 1;
            proof {
                assert(out@ == keyed@.map_values(|p: (i64, usize, Move)| p.2).subrange(0, i as int));
            }
        }
        proof {
            assert(out@ == keyed@.map_values(|p: (i64, usize, Move)| p.2));
            let keys = keyed@.map_values(|p: (i64, usize, Move)| p.0);
            let perm = keyed@.map_values(|p: (i64, usize, Move)| p.1 as int);
            assert forall|a: int, c: int| 0 <= a < c < n implies keys[a] <= keys[c] && (keys[a] == keys[c] ==> perm[a] < perm[c]) && perm[a] != perm[c] by {
                assert(lex_lt(keyed@[a], keyed@[c]));
                assert(keyed@[a].1 != keyed@[c].1);
                assert(keys[a] == keyed@[a].0 && keys[c] == keyed@[c].0);
                assert(perm[a] == keyed@[a].1 as int && perm[c] == keyed@[c].1 as int);
            }
            assert(sorted_stably(self.moves@, out@, keys, perm));
            assert(forall|k: int| 0 <= k < keys.len() ==> f.ensures((&out@[k],), #[trigger] keys[k]));
        }
        self.moves = out;
    }

    /// Keeps the moves for which `f` returns true, in their order.
    pub fn retain<F: Fn(&Move) -> bool>(&mut self, f: F)
        requires
            forall|m: Move| f.requires((&m,)),
        ensures
            forall|i: int| 0 <= i < final(self)@.len() ==> f.ensures((&final(self)@[i],), true),
            forall|i: int| 0 <= i < final(self)@.len() ==> old(self)@.contains(#[trigger] final(self)@[i]),
            forall|i: int| 0 <= i < old(self)@.len() ==> final(self)@.contains(#[trigger] old(self)@[i])
                || f.ensures((&old(self)@[i],), false),
            exists|keep: Seq<bool>|
                #![trigger keep.len()]
                keep.len() == old(self)@.len() && (forall|i: int|
                    0 <= i < keep.len() ==> f.ensures((&old(self)@[i],), #[trigger] keep[i]))
                    && final(self)@ == select(old(self)@, keep),
    {
        let n = self.moves.len();
        let mut kept: Vec<Move> = Vec::with_capacity(n);
        let mut i: usize = 0;
        let ghost mut keeps: Seq<bool> = Seq::empty();
        while i < n
            invariant
                n == self.moves@.len(),
                i <= n,
                keeps.len() == i,
                forall|k: int| 0 <= k < i ==> f.ensures((&self.moves@[k],), #[trigger] keeps[k]),
                kept@ == select(self.moves@.subrange(0, i as int), keeps),
                forall|m: Move| f.requires((&m,)),
                forall|k: int| 0 <= k < kept@.len() ==> f.ensures((&kept@[k],), true),
                forall|k: int| 0 <= k < kept@.len() ==> self.moves@.contains(#[trigger] kept@[k]),
                forall|k: int| 0 <= k < i ==> kept@.contains(#[trigger] self.moves@[k]) || f.ensures((&self.moves@[k],), false),
            decreases n - i,
        {
            let m = self.moves[i];
            let keep = f(&m);
            proof {
                let ks = keeps.push(keep);
                assert(self.moves@.subrange(0, i + 1).drop_last() == self.moves@.subrange(0, i as int));
                assert(ks.drop_last() == keeps);
                keeps = ks;
            }
            if keep {
                let ghost prev = kept@;
                kept.push(m);
                proof {
                    assert forall|k: int| 0 <= k < i implies kept@.contains(#[trigger] self.moves@[k]) || f.ensures((&self.moves@[k],), false) by {
                        if prev.contains(self.moves@[k]) {
                            let w = choose|w: int| 0 <= w < prev.len() && prev[w] == self.moves@[k];
                            assert(kept@[w] == self.moves@[k]);
                        }
                    }
                    assert(kept@[kept@.len() - 1] == m);
                }
            }
            i = i + 1;
        }
        proof {
            assert(self.moves@.subrange(0, n as int) == self.moves@);
        }
        self.moves = kept;
    }
}

/// The elements of `s` whose flag in `keep` is set, in order.
pub open spec fn select(s: Seq<Move>, keep: Seq<bool>) -> Seq<Move>
    decreases s.len(),
{
    if s.len() == 0 || keep.len() != s.len() {
        Seq::empty()
    } else {
        let rest = select(s.drop_last(), keep.drop_last());
        if keep.last() {
            rest.push(s.last())
        } else {
            rest
        }
    }
}

/// `(key, index)` order.
pub open spec fn lex_lt(a: (i64, usize, Move), b: (i64, usize, Move)) -> bool {
    a.0 < b.0 || (a.0 == b.0 && a.1 < b.1)
}

/// `after` is `before` reordered by `perm` (position `i` holds `before[perm[i]]`), in
/// non-decreasing order of `keys`, with equal keys in their order in `before`.
pub open spec fn sorted_stably(before: Seq<Move>, after: Seq<Move>, keys: Seq<i64>, perm: Seq<int>) -> bool {
    &&& after.len() == before.len() && keys.len() == after.len() && perm.len() == after.len()
    &&& forall|i: int| 0 <= i < after.len() ==> 0 <= #[trigger] perm[i] < before.len() && after[i] == before[perm[i]]
    &&& forall|a: int, c: int| 0 <= a < c < after.len() ==> #[trigger] keys[a] <= #[trigger] keys[c]
    &&& forall|a: int, c: int| 0 <= a < c < after.len() ==> #[trigger] perm[a] != #[trigger] perm[c]
    &&& forall|a: int, c: int| 0 <= a < c < after.len() && keys[a] == keys[c] ==> #[trigger] perm[a] < #[trigger] perm[c]
}

proof fn lemma_swap_multiset(s: Seq<(i64, usize, Move)>, i: int, j: int)
    requires
        0 <= i < s.len(),
        0 <= j < s.len(),
    ensures
        s.update(i, s[j]).update(j, s[i]).map_values(|p: (i64, usize, Move)| p.2).to_multiset()
            == s.map_values(|p: (i64, usize, Move)| p.2).to_multiset(),
{
    broadcast use vstd::seq_lib::group_to_multiset_ensures;
    let m = s.map_values(|p: (i64, usize, Move)| p.2);
    let t = s.update(i, s[j]).update(j, s[i]);
    assert(t.map_values(|p: (i64, usize, Move)| p.2) =~= m.update(i, m[j]).update(j, m[i]));
    let u = m.update(i, m[j]);
    assert(u[j] == m[j]);
    assert(u.to_multiset() == m.to_multiset().insert(m[j]).remove(m[i]));
    assert(u.update(j, m[i]).to_multiset() == u.to_multiset().insert(m[i]).remove(m[j]));
    assert(m.to_multiset().insert(m[j]).remove(m[i]).insert(m[i]).remove(m[j]) =~= m.to_multiset());
}

} // verus!
