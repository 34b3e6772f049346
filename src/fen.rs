//! Reading a position from Forsyth-Edwards Notation.
use vstd::prelude::*;
use crate::bitboard::{Bitboard, Piece};
use crate::game::Game;
use crate::moves::{BLACK_KINGSIDE, BLACK_QUEENSIDE, WHITE_KINGSIDE, WHITE_QUEENSIDE};
use crate::zobrist::ZobristKeys;
use vstd::string::StringSliceAdditionalSpecFns;
use crate::bits::{file_of, rank_of};
use crate::laws::{disjoint, lemma_place};

verus! {

broadcast use crate::bits::group_bits, vstd::seq_lib::group_seq_properties;

/// The piece a FEN letter names.
pub open spec fn fen_piece(c: u8) -> Option<(bool, Piece)> {
    if c == 80 {
        Some((true, Piece::Pawn))
    } else if c == 78 {
        Some((true, Piece::Knight))
    } else if c == 66 {
        Some((true, Piece::Bishop))
    } else if c == 82 {
        Some((true, Piece::Rook))
    } else if c == 81 {
        Some((true, Piece::Queen))
    } else if c == 75 {
        Some((true, Piece::King))
    } else if c == 112 {
        Some((false, Piece::Pawn))
    } else if c == 110 {
        Some((false, Piece::Knight))
    } else if c == 98 {
        Some((false, Piece::Bishop))
    } else if c == 114 {
        Some((false, Piece::Rook))
    } else if c == 113 {
        Some((false, Piece::Queen))
    } else if c == 107 {
        Some((false, Piece::King))
    } else {
        None
    }
}

fn piece_of_letter(c: u8) -> (r: Option<(bool, Piece)>)
    ensures
        r == fen_piece(c),
{
    if c == 80 {
        Some((true, Piece::Pawn))
    } else if c == 78 {
        Some((true, Piece::Knight))
    } else if c == 66 {
        Some((true, Piece::Bishop))
    } else if c == 82 {
        Some((true, Piece::Rook))
    } else if c == 81 {
        Some((true, Piece::Queen))
    } else if c == 75 {
        Some((true, Piece::King))
    } else if c == 112 {
        Some((false, Piece::Pawn))
    } else if c == 110 {
        Some((false, Piece::Knight))
    } else if c == 98 {
        Some((false, Piece::Bishop))
    } else if c == 114 {
        Some((false, Piece::Rook))
    } else if c == 113 {
        Some((false, Piece::Queen))
    } else if c == 107 {
        Some((false, Piece::King))
    } else {
        None
    }
}

pub open spec fn is_space(c: u8) -> bool {
    c == 32 || c == 9 || c == 10 || c == 13
}

/// The whitespace-separated tokens of `b` from `i` on, as byte ranges; `start` is where
/// the token under way began, if one is.
pub open spec fn tokens_from(b: Seq<u8>, i: int, start: Option<int>) -> Seq<(int, int)>
    decreases b.len() - i,
{
    if i >= b.len() || i < 0 {
        match start {
            Some(s) => seq![(s, b.len() as int)],
            None => Seq::empty(),
        }
    } else if is_space(b[i]) {
        match start {
            Some(s) => seq![(s, i)] + tokens_from(b, i + 1, None),
            None => tokens_from(b, i + 1, None),
        }
    } else {
        match start {
            Some(s) => tokens_from(b, i + 1, Some(s)),
            None => tokens_from(b, i + 1, Some(i)),
        }
    }
}

/// The whitespace-separated tokens of `b`, as byte ranges.
pub open spec fn tokens(b: Seq<u8>, i: int) -> Seq<(int, int)> {
    tokens_from(b, i, None)
}

/// The whitespace-separated fields of `b`, as byte ranges.
fn split_fields(b: &[u8]) -> (r: Vec<(usize, usize)>)
    ensures
        r@.len() == tokens(b@, 0).len(),
        forall|i: int| 0 <= i < r@.len() ==> (#[trigger] r@[i]).0 == tokens(b@, 0)[i].0 && r@[i].1 == tokens(b@, 0)[i].1,
        forall|i: int| 0 <= i < r@.len() ==> (#[trigger] r@[i]).0 < r@[i].1 <= b@.len(),
{
    let mut fields: Vec<(usize, usize)> = Vec::new();
    let n = b.len();
    let mut i: usize = 0;
    let mut start: Option<usize> = None;
    while i < n
        invariant
            n == b@.len(),
            i <= n,
            start matches Some(s) ==> s < i,
            fields@.map_values(|f: (usize, usize)| (f.0 as int, f.1 as int)) + tokens_from(b@, i as int, match start {
                Some(s) => Some(s as int),
                None => None,
            }) == tokens(b@, 0),
            forall|k: int| 0 <= k < fields@.len() ==> (#[trigger] fields@[k]).0 < fields@[k].1 <= i,
        decreases n - i,
    {
        let ghost old_fields = fields@;
        if b[i] == 32 || b[i] == 9 || b[i] == 10 || b[i] == 13 {
            match start {
                Some(s) => {
                    fields.push((s, i));
                    proof {
                        assert(fields@.map_values(|f: (usize, usize)| (f.0 as int, f.1 as int)) =~= old_fields.map_values(|f: (usize, usize)| (f.0 as int, f.1 as int)) + seq![(s as int, i as int)]);
                    }
                },
                None => {},
            }
            start = None;
        } else {
            match start {
                Some(_) => {},
                None => {
                    start = Some(i);
                },
            }
        }
        i = i + 1;
    }
    match start {
        Some(s) => {
            let ghost old_fields = fields@;
            fields.push((s, n));
            proof {
                assert(fields@.map_values(|f: (usize, usize)| (f.0 as int, f.1 as int)) =~= old_fields.map_values(|f: (usize, usize)| (f.0 as int, f.1 as int)) + seq![(s as int, n as int)]);
            }
        },
        None => {},
    }
    proof {
        let m = fields@.map_values(|f: (usize, usize)| (f.0 as int, f.1 as int));
        assert(m + tokens_from(b@, n as int, None) == tokens(b@, 0)) by {
            if start is Some {
            }
        }
        assert(m =~= tokens(b@, 0));
        assert forall|k: int| 0 <= k < fields@.len() implies (#[trigger] fields@[k]).0 == tokens(b@, 0)[k].0 && fields@[k].1 == tokens(b@, 0)[k].1 by {
            assert(m[k] == (fields@[k].0 as int, fields@[k].1 as int));
        }
    }
    fields
}

/// The bytes of token `k` of `b`.
pub open spec fn field(b: Seq<u8>, k: int) -> Seq<u8> {
    b.subrange(tokens(b, 0)[k].0, tokens(b, 0)[k].1)
}

/// Castling rights named by the letters of `f` (K, Q, k, q; others ignored).
pub open spec fn rights_of(f: Seq<u8>) -> u8 {
    (if f.contains(75u8) { WHITE_KINGSIDE } else { 0u8 }) | (if f.contains(81u8) { WHITE_QUEENSIDE } else { 0u8 }) | (if f.contains(107u8) { BLACK_KINGSIDE } else { 0u8 }) | (if f.contains(113u8) { BLACK_QUEENSIDE } else { 0u8 })
}

/// The en-passant field: `Some(None)` for "-", `Some(Some(square))` for a square name,
/// `None` when it is neither.
pub open spec fn ep_field(f: Seq<u8>) -> Option<Option<usize>> {
    if f.len() == 1 && f[0] == 45 {
        Some(None)
    } else if f.len() == 2 && 97 <= f[0] <= 104 && 49 <= f[1] <= 56 {
        Some(Some(((f[1] - 49) * 8 + (f[0] - 97)) as usize))
    } else {
        None
    }
}

/// The placement field `f`, read from byte `i` with `rank` and `file` the square the
/// next letter fills, is well formed: ranks from the eighth down, each of exactly eight
/// squares, separated by `/`, made of piece letters and the digits 1 to 8.
pub open spec fn placement_ok(f: Seq<u8>, i: int, rank: int, file: int) -> bool
    decreases f.len() - i,
{
    if i >= f.len() || i < 0 {
        rank == 0 && file == 8
    } else {
        let c = f[i];
        if c == 47 {
            file == 8 && rank > 0 && placement_ok(f, i + 1, rank - 1, 0)
        } else if 49 <= c <= 56 {
            file + (c - 48) <= 8 && placement_ok(f, i + 1, rank, file + (c - 48))
        } else if fen_piece(c) is Some {
            file < 8 && placement_ok(f, i + 1, rank, file + 1)
        } else {
            false
        }
    }
}

/// The piece the placement field `f`, read from byte `i` in that state, puts on `s`.
pub open spec fn placement_at(f: Seq<u8>, i: int, rank: int, file: int, s: int) -> Option<(bool, Piece)>
    decreases f.len() - i,
{
    if i >= f.len() || i < 0 {
        None
    } else {
        let c = f[i];
        if c == 47 {
            placement_at(f, i + 1, rank - 1, 0, s)
        } else if 49 <= c <= 56 {
            placement_at(f, i + 1, rank, file + (c - 48), s)
        } else if fen_piece(c) is Some {
            if s == rank * 8 + file {
                fen_piece(c)
            } else {
                placement_at(f, i + 1, rank, file + 1, s)
            }
        } else {
            None
        }
    }
}

/// Reads the piece-placement field `b[start..end]`.
fn read_placement(b: &[u8], start: usize, end: usize) -> (r: Result<Bitboard, &'static str>)
    requires
        start <= end <= b@.len(),
    ensures
        r is Ok <==> placement_ok(b@.subrange(start as int, end as int), 0, 7, 0),
        r matches Ok(board) ==> disjoint(board) && forall|s: int| 0 <= s < 64 ==> #[trigger] board.piece_on(s)
            == placement_at(b@.subrange(start as int, end as int), 0, 7, 0, s),
{
    let ghost f = b@.subrange(start as int, end as int);
    let mut board = Bitboard::empty();
    proof {
        assert forall|s: int, p: Piece, w: bool| #[trigger] crate::bits::holds(board.bb(p, w), s) <==> board.piece_on(s) == Some((w, p)) by {
            assert(board.bb(p, w) == 0);
            assert(!crate::bits::holds(0u64, s));
        }
        assert forall|s: int| #[trigger] board.piece_on(s) is None by {
            assert(!crate::bits::holds(0u64, s));
        }
    }
    let mut rank: usize = 7;
    let mut file: usize = 0;
    let mut i = start;
    while i < end
        invariant
            start <= i <= end <= b@.len(),
            f == b@.subrange(start as int, end as int),
            rank < 8,
            file <= 8,
            disjoint(board),
            forall|s: int| #[trigger] board.piece_on(s) is Some ==> (rank_of(s) > rank || (rank_of(s) == rank && file_of(s) < file)),
            placement_ok(f, 0, 7, 0) == placement_ok(f, i - start, rank as int, file as int),
            forall|s: int| 0 <= s < 64 ==> #[trigger] placement_at(f, 0, 7, 0, s) == if board.piece_on(s) is Some {
                board.piece_on(s)
            } else {
                placement_at(f, i - start, rank as int, file as int, s)
            },
        decreases end - i,
    {
        let c = b[i];
        proof {
            assert(f[i - start] == c);
        }
        if c == 47 {
            if rank == 0 || file != 8 {
                return Err("Invalid FEN: malformed rank");
            }
            rank = rank - 1;
            file = 0;
        } else if 49 <= c && c <= 56 {
            let d = (c - 48) as usize;
            if file + d > 8 {
                return Err("Invalid FEN: file out of bounds");
            }
            file = file + d;
        } else {
            match piece_of_letter(c) {
                Some((w, p)) => {
                    if file > 7 {
                        return Err("Invalid FEN: file out of bounds");
                    }
                    let ghost old_board = board;
                    proof {
                        let sq = (rank * 8 + file) as int;
                        assert(rank_of(sq) == rank && file_of(sq) == file);
                        if board.piece_on(sq) is Some {
                            assert(false);
                        }
                        lemma_place(board, p, w, sq);
                    }
                    board.put_piece(rank * 8 + file, p, w);
                    file = file + 1;
                    proof {
                        let sq = (rank * 8 + file - 1) as int;
                        assert forall|s: int| #[trigger] board.piece_on(s) is Some implies (rank_of(s) > rank || (rank_of(s) == rank && file_of(s) < file)) by {
                            if s != sq {
                                assert(old_board.piece_on(s) is Some);
                            }
                        }
                    }
                },
                None => {
                    return Err("Invalid character in FEN piece placement.");
                },
            }
        }
        i = i + 1;
    }
    if rank != 0 || file != 8 {
        return Err("Invalid FEN: missing squares");
    }
    proof {
        assert forall|s: int| 0 <= s < 64 implies #[trigger] board.piece_on(s) == placement_at(f, 0, 7, 0, s) by {
            assert(placement_at(f, i - start, rank as int, file as int, s) is None);
        }
    }
    Ok(board)
}

/// The en-passant square `e` fits the position: empty, on the sixth rank of the side to
/// move, with the pawn that passed it one rank beyond.
pub open spec fn ep_fits(board: Bitboard, white: bool, e: Option<usize>) -> bool {
    match e {
        Some(sq) => {
            let v = crate::moves::ep_victim(white, sq as int);
            sq < 64 && rank_of(sq as int) == (if white { 5int } else { 2int }) && board.piece_on(sq as int) is None
                && 0 <= v < 64 && board.piece_on(v) == Some((!white, Piece::Pawn))
        },
        None => true,
    }
}

/// The text is a position this reader accepts.
pub open spec fn fen_ok(b: Seq<u8>) -> bool {
    &&& tokens(b, 0).len() >= 4
    &&& placement_ok(field(b, 0), 0, 7, 0)
    &&& (field(b, 1) == seq![119u8] || field(b, 1) == seq![98u8])
    &&& ep_field(field(b, 3)) is Some
    &&& ep_fits(
        placement_board(b),
        field(b, 1) == seq![119u8],
        ep_field(field(b, 3)).unwrap(),
    )
}

/// The board the placement field describes, any board with exactly its pieces.
pub open spec fn placement_board(b: Seq<u8>) -> Bitboard {
    choose|x: Bitboard| disjoint(x) && forall|s: int| 0 <= s < 64 ==> #[trigger] x.piece_on(s) == placement_at(field(b, 0), 0, 7, 0, s)
}

fn ep_check(board: &Bitboard, white: bool, e: Option<usize>) -> (r: bool)
    ensures
        r == ep_fits(*board, white, e),
{
    match e {
        Some(sq) => {
            if sq >= 64 {
                return false;
            }
            let want: usize = if white { 5 } else { 2 };
            if sq / 8 != want || board.piece_on_square(sq).is_some() {
                return false;
            }
            let v: usize = if white { sq - 8 } else { sq + 8 };
            match board.piece_on_square(v) {
                Some((w, p)) => w == !white && p == Piece::Pawn,
                None => false,
            }
        },
        None => true,
    }
}

impl Game {
    /// Reads a position: piece placement, side to move, castling rights and en-passant
    /// square; the move counters, if present, are ignored.
    pub fn from_fen(fen: &str) -> (r: Result<Self, &'static str>)
        ensures
            r is Ok <==> fen_ok(fen.spec_bytes()),
            r matches Ok(g) ==> crate::laws::valid_position(g) && forall|s: int| 0 <= s < 64 ==> #[trigger] g.board.piece_on(s)
                == placement_at(field(fen.spec_bytes(), 0), 0, 7, 0, s),
            tokens(fen.spec_bytes(), 0).len() < 4 ==> r is Err,
            tokens(fen.spec_bytes(), 0).len() >= 4 && field(fen.spec_bytes(), 1) != seq![119u8] && field(fen.spec_bytes(), 1) != seq![98u8] ==> r is Err,
            tokens(fen.spec_bytes(), 0).len() >= 4 && ep_field(field(fen.spec_bytes(), 3)) is None ==> r is Err,
            r matches Ok(g) ==> {
                &&& g.wf() && g.zobrist_hash == g.full_hash() && g.position_history@.len() == 0
                &&& disjoint(g.board)
                &&& g.is_white_turn == (field(fen.spec_bytes(), 1) == seq![119u8])
                &&& g.castling == rights_of(field(fen.spec_bytes(), 2))
                &&& g.castling < 16
                &&& Some(g.en_passent) == ep_field(field(fen.spec_bytes(), 3))
            },
    {
        let b = fen.as_bytes();
        let fields = split_fields(b);
        if fields.len() < 4 {
            return Err("Invalid FEN string: not enough parts.");
        }
        let (ps, pe) = fields[0];
        proof {
            assert(field(b@, 0) == b@.subrange(ps as int, pe as int));
        }
        let board = match read_placement(b, ps, pe) {
            Ok(board) => board,
            Err(e) => {
                return Err(e);
            },
        };
        proof {
            let x = placement_board(b@);
            assert(disjoint(board) && forall|s: int| 0 <= s < 64 ==> #[trigger] board.piece_on(s) == placement_at(field(b@, 0), 0, 7, 0, s));
            assert(disjoint(x) && forall|s: int| 0 <= s < 64 ==> #[trigger] x.piece_on(s) == placement_at(field(b@, 0), 0, 7, 0, s));
            assert forall|s: int| 0 <= s < 64 implies #[trigger] x.piece_on(s) == board.piece_on(s) by {
                assert(x.piece_on(s) == placement_at(field(b@, 0), 0, 7, 0, s));
                assert(board.piece_on(s) == placement_at(field(b@, 0), 0, 7, 0, s));
            }
            crate::laws::lemma_same_content(x, board);
        }
        let (ss, se) = fields[1];
        proof {
            assert(field(b@, 1) == b@.subrange(ss as int, se as int));
            assert(field(b@, 2) == b@.subrange(fields@[2].0 as int, fields@[2].1 as int));
        }
        proof {
            let f1 = b@.subrange(ss as int, se as int);
            if se - ss == 1 {
                if b[ss as int] == 119 {
                    assert(f1 =~= seq![119u8]);
                }
                if b[ss as int] == 98 {
                    assert(f1 =~= seq![98u8]);
                }
            }
            if f1 == seq![119u8] {
                assert(f1.len() == 1 && f1[0] == 119);
            }
            if f1 == seq![98u8] {
                assert(f1.len() == 1 && f1[0] == 98);
            }
        }
        let is_white_turn = if se - ss == 1 && b[ss] == 119 {
            true
        } else if se - ss == 1 && b[ss] == 98 {
            false
        } else {
            return Err("Invalid active colour in FEN.");
        };
        let (cs, ce) = fields[2];
        let mut wk = false;
        let mut wq = false;
        let mut bk = false;
        let mut bq = false;
        let mut i = cs;
        while i < ce
            invariant
                cs <= i <= ce <= b@.len(),
                wk == b@.subrange(cs as int, i as int).contains(75u8),
                wq == b@.subrange(cs as int, i as int).contains(81u8),
                bk == b@.subrange(cs as int, i as int).contains(107u8),
                bq == b@.subrange(cs as int, i as int).contains(113u8),
            decreases ce - i,
        {
            let c = b[i];
            proof {
                let pre = b@.subrange(cs as int, i as int);
                assert(b@.subrange(cs as int, i + 1) == pre.push(c));
            }
            if c == 75 {
                wk = true;
            } else if c == 81 {
                wq = true;
            } else if c == 107 {
                bk = true;
            } else if c == 113 {
                bq = true;
            }
            i = i + 1;
        }
        let castling: u8 = (if wk { WHITE_KINGSIDE } else { 0 }) | (if wq { WHITE_QUEENSIDE } else { 0 }) | (if bk {
            BLACK_KINGSIDE
        } else {
            0
        }) | (if bq { BLACK_QUEENSIDE } else { 0 });
        proof {
            assert(forall|x: u8, y: u8, z: u8, v: u8| (x == 0 || x == 8) && (y == 0 || y == 4) && (z == 0 || z == 2) && (v == 0 || v == 1) ==> #[trigger] (x | y | z | v) < 16) by (bit_vector);
        }
        let (es, ee) = fields[3];
        proof {
            assert(field(b@, 3) == b@.subrange(es as int, ee as int));
        }
        let en_passent = if ee - es == 1 && b[es] == 45 {
            None
        } else if ee - es == 2 && 97 <= b[es] && b[es] <= 104 && 49 <= b[es + 1] && b[es + 1] <= 56 {
            Some(((b[es + 1] - 49) as usize) * 8 + (b[es] - 97) as usize)
        } else {
            return Err("Invalid en passant square");
        };
        if !ep_check(&board, is_white_turn, en_passent) {
            return Err("Invalid en passant square");
        }
        let mut g = Game {
            board,
            is_white_turn,
            castling,
            en_passent,
            position_history: Vec::new(),
            zobrist_hash: 0,
            keys: ZobristKeys::new(),
        };
        g.zobrist_hash = g.compute_zobrist_hash();
        Ok(g)
    }
}

} // verus!
