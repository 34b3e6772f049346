//! Static evaluation: a tapered blend of middlegame and endgame scores from material,
//! piece-square tables, pawn structure, rook files, pawn threats, hanging and pinned
//! pieces, and king shelter.
use vstd::prelude::*;
use crate::bits::{
    bit, count_squares, file_bits, file_mask, file_of, group_bits, holds, is_set, lemma_file_mask,
    lemma_high_mask, lemma_low_mask, lowest_square, pop, rank_of, square_at, without,
};
use crate::bitboard::{lemma_some_square, Bitboard, Piece};
use crate::game::{king_sq, Game};
use crate::geometry::{dist, pawn_hit};
use crate::setsum::{sum_over, sum_set};

verus! {

broadcast use group_bits;

/// Bonus for the side to move.
pub const TEMPO_BONUS: i64 = 10;
/// Phase of a full set of pieces.
pub const MAX_PHASE: i64 = 24;

pub open spec fn piece_value(p: Piece) -> int {
    match p {
        Piece::Pawn => 100,
        Piece::Knight => 320,
        Piece::Bishop => 330,
        Piece::Rook => 500,
        Piece::Queen => 900,
        Piece::King => 20000,
    }
}

pub open spec fn phase_weight(p: Piece) -> int {
    match p {
        Piece::Pawn => 0,
        Piece::Knight => 1,
        Piece::Bishop => 1,
        Piece::Rook => 2,
        Piece::Queen => 4,
        Piece::King => 0,
    }
}

/// The pieces of side `is_white` that attack `square` on `board`.
pub fn attackers_to(board: &Bitboard, square: usize, is_white: bool) -> (r: u64)
    requires
        square < 64,
    ensures
        forall|t: int| #[trigger] holds(r, t) <==> board.attacks_from(is_white, t, square as int, board.occ()),
{
    board.attackers_to(square, is_white)
}

/// Material value of a piece kind (the king's stands for its being beyond price).
pub fn get_piece_value(piece: Piece) -> (r: i32)
    ensures
        r == piece_value(piece),
{
    match piece {
        Piece::Pawn => 100,
        Piece::Knight => 320,
        Piece::Bishop => 330,
        Piece::Rook => 500,
        Piece::Queen => 900,
        Piece::King => 20000,
    }
}

fn phase_weight_of(piece: Piece) -> (r: i64)
    ensures
        r == phase_weight(piece),
{
    match piece {
        Piece::Pawn => 0,
        Piece::Knight => 1,
        Piece::Bishop => 1,
        Piece::Rook => 2,
        Piece::Queen => 4,
        Piece::King => 0,
    }
}

pub open spec fn mg_pawn() -> Seq<i32> {
    seq![0i32, 0i32, 0i32, 0i32, 0i32, 0i32, 0i32, 0i32, -35i32, -1i32, -20i32, -23i32, -15i32, 24i32, 38i32, -22i32, -26i32, -4i32, -4i32, -10i32, 3i32, 3i32, 33i32, -12i32, -27i32, -2i32, -5i32, 12i32, 17i32, 6i32, 10i32, -25i32, -14i32, 13i32, 6i32, 21i32, 23i32, 12i32, 17i32, -23i32, -6i32, 7i32, 26i32, 31i32, 65i32, 56i32, 25i32, -20i32, 98i32, 134i32, 61i32, 95i32, 68i32, 126i32, 34i32, -11i32, 0i32, 0i32, 0i32, 0i32, 0i32, 0i32, 0i32, 0i32]
}

pub open spec fn mg_knight() -> Seq<i32> {
    seq![-105i32, -21i32, -58i32, -33i32, -17i32, -28i32, -19i32, -23i32, -29i32, -53i32, -12i32, -3i32, -1i32, 18i32, -14i32, -19i32, -23i32, -9i32, 12i32, 10i32, 19i32, 17i32, 25i32, -16i32, -13i32, 4i32, 16i32, 13i32, 28i32, 19i32, 21i32, -8i32, -9i32, 17i32, 19i32, 53i32, 37i32, 69i32, 18i32, 22i32, -47i32, 60i32, 37i32, 65i32, 84i32, 129i32, 73i32, 44i32, -73i32, -41i32, 72i32, 36i32, 23i32, 62i32, 7i32, -17i32, -167i32, -89i32, -34i32, -49i32, 61i32, -97i32, -15i32, -107i32]
}

pub open spec fn mg_bishop() -> Seq<i32> {
    seq![-33i32, -3i32, -14i32, -21i32, -13i32, -12i32, -39i32, -21i32, 4i32, 15i32, 16i32, 0i32, 7i32, 21i32, 33i32, 1i32, 0i32, 15i32, 15i32, 15i32, 14i32, 27i32, 18i32, 10i32, -6i32, 13i32, 13i32, 26i32, 34i32, 12i32, 10i32, 4i32, -4i32, 5i32, 19i32, 50i32, 37i32, 37i32, 7i32, -2i32, -16i32, 37i32, 43i32, 40i32, 35i32, 50i32, 37i32, -2i32, -26i32, 16i32, -18i32, -13i32, 30i32, 59i32, 18i32, -47i32, -29i32, 4i32, -82i32, -37i32, -25i32, -42i32, 7i32, -8i32]
}

pub open spec fn mg_rook() -> Seq<i32> {
    seq![-19i32, -13i32, 1i32, 17i32, 16i32, 7i32, -37i32, -26i32, -44i32, -16i32, -20i32, -9i32, -1i32, 11i32, -6i32, -71i32, -45i32, -25i32, -16i32, -17i32, 3i32, 0i32, -5i32, -33i32, -36i32, -26i32, -12i32, -1i32, 9i32, -7i32, 6i32, -23i32, -24i32, -11i32, 7i32, 26i32, 24i32, 35i32, -8i32, -20i32, -5i32, 19i32, 26i32, 36i32, 17i32, 45i32, 61i32, 16i32, 27i32, 32i32, 58i32, 62i32, 80i32, 67i32, 26i32, 44i32, 32i32, 42i32, 32i32, 51i32, 63i32, 9i32, 31i32, 43i32]
}

pub open spec fn mg_queen() -> Seq<i32> {
    seq![-1i32, -18i32, -9i32, 10i32, -15i32, -25i32, -31i32, -50i32, -35i32, -8i32, 11i32, 2i32, 8i32, 15i32, -3i32, 1i32, -14i32, 2i32, -11i32, -2i32, -5i32, 2i32, 14i32, 5i32, -9i32, -26i32, -9i32, -10i32, -2i32, -4i32, 3i32, -3i32, -27i32, -27i32, -16i32, -16i32, -1i32, 17i32, -2i32, 1i32, -13i32, -17i32, 7i32, 8i32, 29i32, 56i32, 47i32, 57i32, -24i32, -39i32, -5i32, 1i32, -16i32, 57i32, 28i32, 54i32, -28i32, 0i32, 29i32, 12i32, 59i32, 44i32, 43i32, 45i32]
}

pub open spec fn mg_king() -> Seq<i32> {
    seq![-15i32, 36i32, 12i32, -54i32, 8i32, -28i32, 24i32, 14i32, 1i32, 7i32, -8i32, -64i32, -43i32, -16i32, 9i32, 8i32, -14i32, -14i32, -22i32, -46i32, -44i32, -30i32, -15i32, -27i32, -49i32, -1i32, -27i32, -39i32, -46i32, -44i32, -33i32, -51i32, -17i32, -20i32, -12i32, -27i32, -30i32, -25i32, -14i32, -36i32, -9i32, 24i32, 2i32, -16i32, -20i32, 6i32, 22i32, -22i32, 29i32, -1i32, -20i32, -7i32, -8i32, -4i32, -38i32, -29i32, -65i32, 23i32, 16i32, -15i32, -56i32, -34i32, 2i32, 13i32]
}

pub open spec fn eg_pawn() -> Seq<i32> {
    seq![0i32, 0i32, 0i32, 0i32, 0i32, 0i32, 0i32, 0i32, 13i32, 8i32, 8i32, 10i32, 13i32, 0i32, 2i32, -7i32, 4i32, 7i32, -6i32, 1i32, 0i32, -5i32, -1i32, -8i32, 13i32, 9i32, -3i32, -7i32, -7i32, -8i32, 3i32, -1i32, 32i32, 24i32, 13i32, 5i32, -2i32, 4i32, 17i32, 17i32, 94i32, 100i32, 85i32, 67i32, 56i32, 53i32, 82i32, 84i32, 178i32, 173i32, 158i32, 134i32, 147i32, 132i32, 165i32, 187i32, 0i32, 0i32, 0i32, 0i32, 0i32, 0i32, 0i32, 0i32]
}

pub open spec fn eg_knight() -> Seq<i32> {
    seq![-29i32, -51i32, -23i32, -15i32, -22i32, -18i32, -50i32, -64i32, -42i32, -20i32, -10i32, -5i32, -2i32, -20i32, -23i32, -44i32, -23i32, -3i32, -1i32, 15i32, 10i32, -3i32, -20i32, -22i32, -18i32, -6i32, 16i32, 25i32, 16i32, 17i32, 4i32, -18i32, -17i32, 3i32, 22i32, 22i32, 22i32, 11i32, 8i32, -18i32, -24i32, -20i32, 10i32, 9i32, -1i32, -9i32, -19i32, -41i32, -25i32, -8i32, -25i32, -2i32, -9i32, -25i32, -24i32, -52i32, -58i32, -38i32, -13i32, -28i32, -31i32, -27i32, -63i32, -99i32]
}

pub open spec fn eg_bishop() -> Seq<i32> {
    seq![-23i32, -9i32, -23i32, -5i32, -9i32, -16i32, -5i32, -17i32, -14i32, -18i32, -7i32, -1i32, 4i32, -9i32, -15i32, -27i32, -12i32, -3i32, 8i32, 10i32, 13i32, 3i32, -7i32, -15i32, -6i32, 3i32, 13i32, 19i32, 7i32, 10i32, -3i32, -9i32, -3i32, 9i32, 12i32, 9i32, 14i32, 10i32, 3i32, 2i32, 2i32, -8i32, 0i32, -1i32, -2i32, 6i32, 0i32, 4i32, -8i32, -4i32, 7i32, -12i32, -3i32, -13i32, -4i32, -14i32, -14i32, -21i32, -11i32, -8i32, -7i32, -9i32, -17i32, -24i32]
}

pub open spec fn eg_rook() -> Seq<i32> {
    seq![-9i32, 2i32, 3i32, -1i32, -5i32, -13i32, 4i32, -20i32, -6i32, -6i32, 0i32, 2i32, -9i32, -9i32, -11i32, -3i32, -4i32, 0i32, -5i32, -1i32, -7i32, -12i32, -8i32, -16i32, 3i32, 5i32, 8i32, 4i32, -5i32, -6i32, -8i32, -11i32, 4i32, 3i32, 13i32, 1i32, 2i32, 1i32, -1i32, 2i32, 7i32, 7i32, 7i32, 5i32, 4i32, -3i32, -5i32, -3i32, 11i32, 13i32, 13i32, 11i32, -3i32, 3i32, 8i32, 3i32, 13i32, 10i32, 18i32, 15i32, 12i32, 12i32, 8i32, 5i32]
}

pub open spec fn eg_queen() -> Seq<i32> {
    seq![-33i32, -28i32, -22i32, -43i32, -5i32, -32i32, -20i32, -41i32, -22i32, -23i32, -30i32, -16i32, -16i32, -23i32, -36i32, -32i32, -16i32, -27i32, 15i32, 6i32, 9i32, 17i32, 10i32, 5i32, -18i32, 28i32, 19i32, 47i32, 31i32, 34i32, 39i32, 23i32, 3i32, 22i32, 24i32, 45i32, 57i32, 40i32, 57i32, 36i32, -20i32, 6i32, 9i32, 49i32, 47i32, 35i32, 19i32, 9i32, -17i32, 20i32, 32i32, 41i32, 58i32, 25i32, 30i32, 0i32, -9i32, 22i32, 22i32, 27i32, 27i32, 19i32, 10i32, 20i32]
}

pub open spec fn eg_king() -> Seq<i32> {
    seq![-53i32, -34i32, -21i32, -11i32, -28i32, -14i32, -24i32, -43i32, -27i32, -11i32, 4i32, 13i32, 14i32, 4i32, -5i32, -17i32, -19i32, -3i32, 11i32, 21i32, 23i32, 16i32, 7i32, -9i32, -18i32, -4i32, 21i32, 24i32, 27i32, 23i32, 9i32, -11i32, -8i32, 22i32, 24i32, 27i32, 26i32, 33i32, 26i32, 3i32, 10i32, 17i32, 23i32, 15i32, 20i32, 45i32, 44i32, 13i32, -12i32, 17i32, 14i32, 17i32, 17i32, 38i32, 23i32, 11i32, -74i32, -35i32, -18i32, -18i32, -11i32, 15i32, 4i32, -17i32]
}

pub open spec fn mg_table(p: Piece) -> Seq<i32> {
    match p {
        Piece::Pawn => mg_pawn(),
        Piece::Knight => mg_knight(),
        Piece::Bishop => mg_bishop(),
        Piece::Rook => mg_rook(),
        Piece::Queen => mg_queen(),
        Piece::King => mg_king(),
    }
}

pub open spec fn eg_table(p: Piece) -> Seq<i32> {
    match p {
        Piece::Pawn => eg_pawn(),
        Piece::Knight => eg_knight(),
        Piece::Bishop => eg_bishop(),
        Piece::Rook => eg_rook(),
        Piece::Queen => eg_queen(),
        Piece::King => eg_king(),
    }
}

/// Index into a piece-square table, whose rows run from the first rank up as seen by
/// white: white reads its square as it is, black its square mirrored (`s ^ 56`).
pub open spec fn pst_index(s: int, w: bool) -> int {
    if w {
        s
    } else {
        (7 - rank_of(s)) * 8 + file_of(s)
    }
}

pub open spec fn pst_value(p: Piece, mg: bool, s: int, w: bool) -> int {
    (if mg {
        mg_table(p)
    } else {
        eg_table(p)
    })[pst_index(s, w)] as int
}

pub proof fn lemma_pst_bounds()
    ensures
        forall|p: Piece, mg: bool, s: int, w: bool|
            0 <= s < 64 ==> -200 <= #[trigger] pst_value(p, mg, s, w) <= 200,
{
    assert forall|i: int| 0 <= i < 64 implies -200 <= #[trigger] mg_pawn()[i] <= 200 by {
        assert(mg_pawn().len() == 64);
    }
    assert forall|i: int| 0 <= i < 64 implies -200 <= #[trigger] mg_knight()[i] <= 200 by {
        assert(mg_knight().len() == 64);
    }
    assert forall|i: int| 0 <= i < 64 implies -200 <= #[trigger] mg_bishop()[i] <= 200 by {
        assert(mg_bishop().len() == 64);
    }
    assert forall|i: int| 0 <= i < 64 implies -200 <= #[trigger] mg_rook()[i] <= 200 by {
        assert(mg_rook().len() == 64);
    }
    assert forall|i: int| 0 <= i < 64 implies -200 <= #[trigger] mg_queen()[i] <= 200 by {
        assert(mg_queen().len() == 64);
    }
    assert forall|i: int| 0 <= i < 64 implies -200 <= #[trigger] mg_king()[i] <= 200 by {
        assert(mg_king().len() == 64);
    }
    assert forall|i: int| 0 <= i < 64 implies -200 <= #[trigger] eg_pawn()[i] <= 200 by {
        assert(eg_pawn().len() == 64);
    }
    assert forall|i: int| 0 <= i < 64 implies -200 <= #[trigger] eg_knight()[i] <= 200 by {
        assert(eg_knight().len() == 64);
    }
    assert forall|i: int| 0 <= i < 64 implies -200 <= #[trigger] eg_bishop()[i] <= 200 by {
        assert(eg_bishop().len() == 64);
    }
    assert forall|i: int| 0 <= i < 64 implies -200 <= #[trigger] eg_rook()[i] <= 200 by {
        assert(eg_rook().len() == 64);
    }
    assert forall|i: int| 0 <= i < 64 implies -200 <= #[trigger] eg_queen()[i] <= 200 by {
        assert(eg_queen().len() == 64);
    }
    assert forall|i: int| 0 <= i < 64 implies -200 <= #[trigger] eg_king()[i] <= 200 by {
        assert(eg_king().len() == 64);
    }
}

fn pst_lookup(p: Piece, mg: bool, s: usize, w: bool) -> (r: i64)
    requires
        s < 64,
    ensures
        r == pst_value(p, mg, s as int, w),
{
    let i: usize = if w { s } else { (7 - s / 8) * 8 + s % 8 };
    let v: i32 = match p {
        Piece::Pawn => {
            if mg {
                let a: [i32; 64] = [0, 0, 0, 0, 0, 0, 0, 0, -35, -1, -20, -23, -15, 24, 38, -22, -26, -4, -4, -10, 3, 3, 33, -12, -27, -2, -5, 12, 17, 6, 10, -25, -14, 13, 6, 21, 23, 12, 17, -23, -6, 7, 26, 31, 65, 56, 25, -20, 98, 134, 61, 95, 68, 126, 34, -11, 0, 0, 0, 0, 0, 0, 0, 0];
                proof {
                    assert(a@ =~= mg_pawn());
                }
                a[i]
            } else {
                let a: [i32; 64] = [0, 0, 0, 0, 0, 0, 0, 0, 13, 8, 8, 10, 13, 0, 2, -7, 4, 7, -6, 1, 0, -5, -1, -8, 13, 9, -3, -7, -7, -8, 3, -1, 32, 24, 13, 5, -2, 4, 17, 17, 94, 100, 85, 67, 56, 53, 82, 84, 178, 173, 158, 134, 147, 132, 165, 187, 0, 0, 0, 0, 0, 0, 0, 0];
                proof {
                    assert(a@ =~= eg_pawn());
                }
                a[i]
            }
        },
        Piece::Knight => {
            if mg {
                let a: [i32; 64] = [-105, -21, -58, -33, -17, -28, -19, -23, -29, -53, -12, -3, -1, 18, -14, -19, -23, -9, 12, 10, 19, 17, 25, -16, -13, 4, 16, 13, 28, 19, 21, -8, -9, 17, 19, 53, 37, 69, 18, 22, -47, 60, 37, 65, 84, 129, 73, 44, -73, -41, 72, 36, 23, 62, 7, -17, -167, -89, -34, -49, 61, -97, -15, -107];
                proof {
                    assert(a@ =~= mg_knight());
                }
                a[i]
            } else {
                let a: [i32; 64] = [-29, -51, -23, -15, -22, -18, -50, -64, -42, -20, -10, -5, -2, -20, -23, -44, -23, -3, -1, 15, 10, -3, -20, -22, -18, -6, 16, 25, 16, 17, 4, -18, -17, 3, 22, 22, 22, 11, 8, -18, -24, -20, 10, 9, -1, -9, -19, -41, -25, -8, -25, -2, -9, -25, -24, -52, -58, -38, -13, -28, -31, -27, -63, -99];
                proof {
                    assert(a@ =~= eg_knight());
                }
                a[i]
            }
        },
        Piece::Bishop => {
            if mg {
                let a: [i32; 64] = [-33, -3, -14, -21, -13, -12, -39, -21, 4, 15, 16, 0, 7, 21, 33, 1, 0, 15, 15, 15, 14, 27, 18, 10, -6, 13, 13, 26, 34, 12, 10, 4, -4, 5, 19, 50, 37, 37, 7, -2, -16, 37, 43, 40, 35, 50, 37, -2, -26, 16, -18, -13, 30, 59, 18, -47, -29, 4, -82, -37, -25, -42, 7, -8];
                proof {
                    assert(a@ =~= mg_bishop());
                }
                a[i]
            } else {
                let a: [i32; 64] = [-23, -9, -23, -5, -9, -16, -5, -17, -14, -18, -7, -1, 4, -9, -15, -27, -12, -3, 8, 10, 13, 3, -7, -15, -6, 3, 13, 19, 7, 10, -3, -9, -3, 9, 12, 9, 14, 10, 3, 2, 2, -8, 0, -1, -2, 6, 0, 4, -8, -4, 7, -12, -3, -13, -4, -14, -14, -21, -11, -8, -7, -9, -17, -24];
                proof {
                    assert(a@ =~= eg_bishop());
                }
                a[i]
            }
        },
        Piece::Rook => {
            if mg {
                let a: [i32; 64] = [-19, -13, 1, 17, 16, 7, -37, -26, -44, -16, -20, -9, -1, 11, -6, -71, -45, -25, -16, -17, 3, 0, -5, -33, -36, -26, -12, -1, 9, -7, 6, -23, -24, -11, 7, 26, 24, 35, -8, -20, -5, 19, 26, 36, 17, 45, 61, 16, 27, 32, 58, 62, 80, 67, 26, 44, 32, 42, 32, 51, 63, 9, 31, 43];
                proof {
                    assert(a@ =~= mg_rook());
                }
                a[i]
            } else {
                let a: [i32; 64] = [-9, 2, 3, -1, -5, -13, 4, -20, -6, -6, 0, 2, -9, -9, -11, -3, -4, 0, -5, -1, -7, -12, -8, -16, 3, 5, 8, 4, -5, -6, -8, -11, 4, 3, 13, 1, 2, 1, -1, 2, 7, 7, 7, 5, 4, -3, -5, -3, 11, 13, 13, 11, -3, 3, 8, 3, 13, 10, 18, 15, 12, 12, 8, 5];
                proof {
                    assert(a@ =~= eg_rook());
                }
                a[i]
            }
        },
        Piece::Queen => {
            if mg {
                let a: [i32; 64] = [-1, -18, -9, 10, -15, -25, -31, -50, -35, -8, 11, 2, 8, 15, -3, 1, -14, 2, -11, -2, -5, 2, 14, 5, -9, -26, -9, -10, -2, -4, 3, -3, -27, -27, -16, -16, -1, 17, -2, 1, -13, -17, 7, 8, 29, 56, 47, 57, -24, -39, -5, 1, -16, 57, 28, 54, -28, 0, 29, 12, 59, 44, 43, 45];
                proof {
                    assert(a@ =~= mg_queen());
                }
                a[i]
            } else {
                let a: [i32; 64] = [-33, -28, -22, -43, -5, -32, -20, -41, -22, -23, -30, -16, -16, -23, -36, -32, -16, -27, 15, 6, 9, 17, 10, 5, -18, 28, 19, 47, 31, 34, 39, 23, 3, 22, 24, 45, 57, 40, 57, 36, -20, 6, 9, 49, 47, 35, 19, 9, -17, 20, 32, 41, 58, 25, 30, 0, -9, 22, 22, 27, 27, 19, 10, 20];
                proof {
                    assert(a@ =~= eg_queen());
                }
                a[i]
            }
        },
        Piece::King => {
            if mg {
                let a: [i32; 64] = [-15, 36, 12, -54, 8, -28, 24, 14, 1, 7, -8, -64, -43, -16, 9, 8, -14, -14, -22, -46, -44, -30, -15, -27, -49, -1, -27, -39, -46, -44, -33, -51, -17, -20, -12, -27, -30, -25, -14, -36, -9, 24, 2, -16, -20, 6, 22, -22, 29, -1, -20, -7, -8, -4, -38, -29, -65, 23, 16, -15, -56, -34, 2, 13];
                proof {
                    assert(a@ =~= mg_king());
                }
                a[i]
            } else {
                let a: [i32; 64] = [-53, -34, -21, -11, -28, -14, -24, -43, -27, -11, 4, 13, 14, 4, -5, -17, -19, -3, 11, 21, 23, 16, 7, -9, -18, -4, 21, 24, 27, 23, 9, -11, -8, 22, 24, 27, 26, 33, 26, 3, 10, 17, 23, 15, 20, 45, 44, 13, -12, 17, 14, 17, 17, 38, 23, 11, -74, -35, -18, -18, -11, 15, 4, -17];
                proof {
                    assert(a@ =~= eg_king());
                }
                a[i]
            }
        },
    };
    v as i64
}

/// Material and piece-square score of the pieces of kind `p` of side `w`.
pub open spec fn material_kind(b: Bitboard, w: bool, p: Piece, mg: bool) -> int {
    sum_set(b.bb(p, w), |s: int| piece_value(p) + pst_value(p, mg, s, w))
}

pub open spec fn material(b: Bitboard, w: bool, mg: bool) -> int {
    material_kind(b, w, Piece::Pawn, mg) + material_kind(b, w, Piece::Knight, mg) + material_kind(
        b,
        w,
        Piece::Bishop,
        mg,
    ) + material_kind(b, w, Piece::Rook, mg) + material_kind(b, w, Piece::Queen, mg)
        + material_kind(b, w, Piece::King, mg)
}

/// Game phase contributed by side `w`'s pieces.
pub open spec fn phase_side(b: Bitboard, w: bool) -> int {
    (pop(b.bb(Piece::Knight, w)) + pop(b.bb(Piece::Bishop, w)) + 2 * pop(b.bb(Piece::Rook, w)) + 4
        * pop(b.bb(Piece::Queen, w))) as int
}

pub open spec fn bishop_pair(b: Bitboard, w: bool, mg: bool) -> int {
    if pop(b.bb(Piece::Bishop, w)) >= 2 {
        if mg {
            30
        } else {
            50
        }
    } else {
        0
    }
}

/// Penalty for each file holding more than one of side `w`'s pawns, over the files below `n`.
pub open spec fn doubled(b: Bitboard, w: bool, mg: bool, n: int) -> int
    decreases n,
{
    if n <= 0 {
        0
    } else {
        doubled(b, w, mg, n - 1) + if pop(b.bb(Piece::Pawn, w) & file_mask(n - 1)) > 1 {
            if mg {
                -10int
            } else {
                -20int
            }
        } else {
            0int
        }
    }
}

/// The files next to file `f`.
pub open spec fn adjacent_mask(f: int) -> u64 {
    (if f > 0 {
        file_mask(f - 1)
    } else {
        0u64
    }) | (if f < 7 {
        file_mask(f + 1)
    } else {
        0u64
    })
}

/// `t` lies ahead of `s` for side `w`.
pub open spec fn ahead(w: bool, s: int, t: int) -> bool {
    if w {
        rank_of(t) > rank_of(s)
    } else {
        rank_of(t) < rank_of(s)
    }
}

/// No enemy pawn stands ahead of the pawn on `s` on its file or the files next to it.
pub open spec fn is_passed(b: Bitboard, w: bool, s: int) -> bool {
    forall|t: int|
        #[trigger] holds(enemy_pawns(b, w), t) ==> !(dist(file_of(t), file_of(s)) <= 1 && ahead(w, s, t))
}

pub open spec fn enemy_pawns(b: Bitboard, w: bool) -> u64 {
    b.bb(Piece::Pawn, !w)
}

pub open spec fn rel_rank(w: bool, s: int) -> int {
    if w {
        rank_of(s)
    } else {
        7 - rank_of(s)
    }
}

pub open spec fn passed_bonus(r: int, mg: bool) -> int {
    if mg {
        if r == 1 { 10 } else if r == 2 { 20 } else if r == 3 { 30 } else if r == 4 { 50 }
        else if r == 5 { 75 } else if r == 6 { 100 } else { 0 }
    } else {
        if r == 1 { 20 } else if r == 2 { 30 } else if r == 3 { 45 } else if r == 4 { 65 }
        else if r == 5 { 90 } else if r == 6 { 120 } else { 0 }
    }
}

/// Isolated-pawn penalty and passed-pawn bonus of the pawn on `s`.
pub open spec fn pawn_square_term(b: Bitboard, w: bool, mg: bool, s: int) -> int {
    (if b.bb(Piece::Pawn, w) & adjacent_mask(file_of(s)) == 0 {
        if mg {
            -15int
        } else {
            -25int
        }
    } else {
        0int
    }) + (if is_passed(b, w, s) {
        passed_bonus(rel_rank(w, s), mg)
    } else {
        0
    })
}

pub open spec fn pawn_structure(b: Bitboard, w: bool, mg: bool) -> int {
    doubled(b, w, mg, 8) + sum_set(b.bb(Piece::Pawn, w), |s: int| pawn_square_term(b, w, mg, s))
}

/// A rook on an open file (no pawn) gains 20, on a half-open one (no friendly pawn) 10.
pub open spec fn rook_file_term(b: Bitboard, w: bool, s: int) -> int {
    let fm = file_mask(file_of(s));
    if (b.bb(Piece::Pawn, w) | b.bb(Piece::Pawn, !w)) & fm == 0 {
        20
    } else if b.bb(Piece::Pawn, w) & fm == 0 {
        10
    } else {
        0
    }
}

pub open spec fn rooks(b: Bitboard, w: bool) -> int {
    sum_set(b.bb(Piece::Rook, w), |s: int| rook_file_term(b, w, s))
}

/// A pawn of side `w` attacks `t`.
pub open spec fn pawn_covers(b: Bitboard, w: bool, t: int) -> bool {
    exists|s: int| holds(b.bb(Piece::Pawn, w), s) && #[trigger] pawn_hit(w, s, t)
}

pub open spec fn threat_weight(p: Piece, mg: bool) -> int {
    match p {
        Piece::Knight => if mg { 15 } else { 10 },
        Piece::Bishop => if mg { 20 } else { 15 },
        Piece::Rook => if mg { 30 } else { 25 },
        Piece::Queen => if mg { 40 } else { 35 },
        _ => 0,
    }
}

pub open spec fn threat_kind(b: Bitboard, w: bool, p: Piece, mg: bool) -> int {
    sum_set(b.bb(p, !w), |t: int| if pawn_covers(b, w, t) { threat_weight(p, mg) } else { 0 })
}

/// Bonus for enemy pieces that side `w`'s pawns attack.
pub open spec fn threats(b: Bitboard, w: bool, mg: bool) -> int {
    threat_kind(b, w, Piece::Knight, mg) + threat_kind(b, w, Piece::Bishop, mg) + threat_kind(
        b,
        w,
        Piece::Rook,
        mg,
    ) + threat_kind(b, w, Piece::Queen, mg)
}

pub open spec fn hanging_penalty(p: Piece) -> int {
    match p {
        Piece::Knight => -50,
        Piece::Bishop => -60,
        Piece::Rook => -85,
        Piece::Queen => -120,
        _ => 0,
    }
}

/// Penalty for the piece on `s`, when it is attacked and not defended.
pub open spec fn hanging_term(b: Bitboard, w: bool, s: int) -> int {
    if b.attacked(s, !w) && !b.attacked(s, w) {
        match b.piece_on(s) {
            Some((_, p)) => hanging_penalty(p),
            None => 0,
        }
    } else {
        0
    }
}

pub open spec fn hanging(b: Bitboard, w: bool) -> int {
    sum_set(b.side_occ(w), |s: int| hanging_term(b, w, s))
}

pub open spec fn sliders(b: Bitboard, w: bool) -> u64 {
    b.bb(Piece::Rook, w) | b.bb(Piece::Bishop, w) | b.bb(Piece::Queen, w)
}

/// With the piece on `s` taken away, an enemy slider attacks side `w`'s king.
pub open spec fn pinned(b: Bitboard, w: bool, s: int) -> bool {
    b.bb(Piece::King, w) != 0 && s != king_sq(b, w) && exists|t: int| #[trigger] pin_attack(b, w, s, t)
}

/// The enemy slider on `t` attacks side `w`'s king once the piece on `s` is taken away.
pub open spec fn pin_attack(b: Bitboard, w: bool, s: int, t: int) -> bool {
    holds(sliders(b, !w), t) && b.attacks_from(!w, t, king_sq(b, w), b.occ() & !(1u64 << (s as u64)))
}

pub open spec fn pins(b: Bitboard, w: bool) -> int {
    sum_set(b.side_occ(w), |s: int| if pinned(b, w, s) { -25int } else { 0int })
}

pub open spec fn home_rank(w: bool) -> int {
    if w {
        0
    } else {
        7
    }
}

/// Friendly pawns on the three squares in front of a king on `k`.
pub open spec fn shield_count(b: Bitboard, w: bool, k: int) -> int {
    let r = if w {
        1int
    } else {
        6int
    };
    let f = file_of(k);
    let p = b.bb(Piece::Pawn, w);
    (if f > 0 && holds(p, square_at(f - 1, r)) { 1int } else { 0int }) + (if holds(p, square_at(f, r)) {
        1int
    } else {
        0int
    }) + (if f < 7 && holds(p, square_at(f + 1, r)) { 1int } else { 0int })
}

pub open spec fn king_safety(b: Bitboard, w: bool) -> int {
    if b.bb(Piece::King, w) != 0 && rank_of(king_sq(b, w)) == home_rank(w) {
        -20 * (3 - shield_count(b, w, king_sq(b, w)))
    } else {
        0
    }
}

/// Side `w`'s middlegame (`mg`) or endgame score.
pub open spec fn side_score(b: Bitboard, w: bool, mg: bool) -> int {
    material(b, w, mg) + bishop_pair(b, w, mg) + pawn_structure(b, w, mg) + rooks(b, w) + threats(
        b,
        w,
        mg,
    ) + hanging(b, w) + pins(b, w) + king_safety(b, w)
}

/// Integer division rounding toward zero.
pub open spec fn tdiv(a: int, d: int) -> int {
    if a >= 0 {
        a / d
    } else {
        -((-a) / d)
    }
}

pub open spec fn game_phase(b: Bitboard) -> int {
    let p = phase_side(b, true) + phase_side(b, false);
    if p > 24 {
        24
    } else {
        p
    }
}

/// The evaluation from the side to move's point of view.
pub open spec fn evaluation(b: Bitboard, white_to_move: bool) -> int {
    let p = game_phase(b);
    let mg = side_score(b, true, true) - side_score(b, false, true);
    let eg = side_score(b, true, false) - side_score(b, false, false);
    let blended = tdiv(mg * p + eg * (24 - p), 24);
    (if white_to_move {
        blended
    } else {
        -blended
    }) + TEMPO_BONUS
}

fn material_kind_of(b: &Bitboard, w: bool, p: Piece, mg: bool) -> (r: i64)
    ensures
        r == material_kind(*b, w, p, mg),
        -(64 * 20200) <= r <= 64 * 20200,
{
    proof {
        lemma_pst_bounds();
    }
    let v = get_piece_value(p) as i64;
    let f = |s: usize| -> (r: i64)
        requires
            s < 64,
        ensures
            r == piece_value(p) + pst_value(p, mg, s as int, w),
        { v + pst_lookup(p, mg, s, w) };
    sum_over(b.get_board(p, w), f, Ghost(|s: int| piece_value(p) + pst_value(p, mg, s, w)), Ghost(20200))
}

fn material_of(b: &Bitboard, w: bool, mg: bool) -> (r: i64)
    ensures
        r == material(*b, w, mg),
        -(6 * 64 * 20200) <= r <= 6 * 64 * 20200,
{
    material_kind_of(b, w, Piece::Pawn, mg) + material_kind_of(b, w, Piece::Knight, mg)
        + material_kind_of(b, w, Piece::Bishop, mg) + material_kind_of(b, w, Piece::Rook, mg)
        + material_kind_of(b, w, Piece::Queen, mg) + material_kind_of(b, w, Piece::King, mg)
}

fn phase_of(b: &Bitboard, w: bool) -> (r: i64)
    ensures
        r == phase_side(*b, w),
        0 <= r <= 8 * 64,
{
    let n = count_squares(b.get_board(Piece::Knight, w)) as i64;
    let bi = count_squares(b.get_board(Piece::Bishop, w)) as i64;
    let ro = count_squares(b.get_board(Piece::Rook, w)) as i64;
    let q = count_squares(b.get_board(Piece::Queen, w)) as i64;
    n + bi + 2 * ro + 4 * q
}

fn doubled_of(b: &Bitboard, w: bool, mg: bool) -> (r: i64)
    ensures
        r == doubled(*b, w, mg, 8),
        -160 <= r <= 0,
{
    let pawns = b.get_board(Piece::Pawn, w);
    let mut acc: i64 = 0;
    let mut f: usize = 0;
    while f < 8
        invariant
            f <= 8,
            pawns == b.bb(Piece::Pawn, w),
            acc == doubled(*b, w, mg, f as int),
            -20 * f <= acc <= 0,
        decreases 8 - f,
    {
        if count_squares(pawns & file_bits(f)) > 1 {
            acc = acc + if mg { -10 } else { -20 };
        }
        f = f + 1;
    }
    acc
}

fn adjacent_bits(f: usize) -> (r: u64)
    requires
        f < 8,
    ensures
        r == adjacent_mask(f as int),
{
    let left = if f > 0 { file_bits(f - 1) } else { 0 };
    let right = if f < 7 { file_bits(f + 1) } else { 0 };
    left | right
}

fn passed_of(b: &Bitboard, w: bool, s: usize) -> (r: bool)
    requires
        s < 64,
    ensures
        r == is_passed(*b, w, s as int),
{
    let f = s % 8;
    let rk = s / 8;
    let files = file_bits(f) | adjacent_bits(f);
    let ranks: u64 = if w {
        if rk < 7 {
            proof {
                assert forall|t: int| #[trigger] holds(0xffff_ffff_ffff_ffffu64 << (8 * (rk + 1)) as u64, t) == (8 * (rk + 1) <= t < 64) by {
                    lemma_high_mask((8 * (rk + 1)) as u64, t);
                }
            }
            0xffff_ffff_ffff_ffffu64 << (8 * (rk + 1)) as u64
        } else {
            0
        }
    } else {
        if rk > 0 {
            proof {
                let n = (8 * rk) as u64;
                assert((1u64 << n) >= 1) by (bit_vector)
                    requires
                        n < 64,
                ;
                assert forall|t: int| #[trigger] holds(((1u64 << (8 * rk) as u64) - 1) as u64, t) == (0 <= t < 8 * rk) by {
                    lemma_low_mask((8 * rk) as u64, t);
                }
            }
            (1u64 << (8 * rk) as u64) - 1
        } else {
            0
        }
    };
    let zone = files & ranks;
    let foes = b.get_board(Piece::Pawn, !w);
    proof {
        assert forall|t: int| #[trigger] holds(zone, t) == (0 <= t < 64 && dist(file_of(t), f as int) <= 1 && ahead(w, s as int, t)) by {
            if 0 <= t < 64 {
                lemma_file_mask(f as int, t);
                if f > 0 {
                    lemma_file_mask(f - 1, t);
                }
                if f < 7 {
                    lemma_file_mask(f + 1, t);
                }
            }
        }
    }
    let hit = foes & zone;
    proof {
        if hit != 0 {
            let t = lemma_some_square(hit);
            assert(holds(enemy_pawns(*b, w), t));
        } else {
            assert forall|t: int| #[trigger] holds(enemy_pawns(*b, w), t) implies !(dist(file_of(t), file_of(s as int)) <= 1 && ahead(w, s as int, t)) by {
                assert(!holds(hit, t));
            }
        }
    }
    hit == 0
}

fn passed_bonus_of(r: usize, mg: bool) -> (v: i64)
    ensures
        v == passed_bonus(r as int, mg),
{
    if mg {
        if r == 1 { 10 } else if r == 2 { 20 } else if r == 3 { 30 } else if r == 4 { 50 }
        else if r == 5 { 75 } else if r == 6 { 100 } else { 0 }
    } else {
        if r == 1 { 20 } else if r == 2 { 30 } else if r == 3 { 45 } else if r == 4 { 65 }
        else if r == 5 { 90 } else if r == 6 { 120 } else { 0 }
    }
}

fn pawn_structure_of(b: &Bitboard, w: bool, mg: bool) -> (r: i64)
    ensures
        r == pawn_structure(*b, w, mg),
        -(160 + 64 * 200) <= r <= 64 * 200,
{
    let pawns = b.get_board(Piece::Pawn, w);
    let bb = *b;
    let f = |s: usize| -> (r: i64)
        requires
            s < 64,
        ensures
            r == pawn_square_term(bb, w, mg, s as int),
        {
            let iso: i64 = if pawns & adjacent_bits(s % 8) == 0 {
                if mg { -15 } else { -25 }
            } else {
                0
            };
            let rel: usize = if w { s / 8 } else { 7 - s / 8 };
            let pass: i64 = if passed_of(&bb, w, s) { passed_bonus_of(rel, mg) } else { 0 };
            iso + pass
        };
    let d = doubled_of(b, w, mg);
    let t = sum_over(pawns, f, Ghost(|s: int| pawn_square_term(bb, w, mg, s)), Ghost(200));
    d + t
}

fn rooks_of(b: &Bitboard, w: bool) -> (r: i64)
    ensures
        r == rooks(*b, w),
        -(64 * 20) <= r <= 64 * 20,
{
    let bb = *b;
    let own = b.get_board(Piece::Pawn, w);
    let all = own | b.get_board(Piece::Pawn, !w);
    let f = |s: usize| -> (r: i64)
        requires
            s < 64,
        ensures
            r == rook_file_term(bb, w, s as int),
        {
            let fm = file_bits(s % 8);
            if all & fm == 0 {
                20
            } else if own & fm == 0 {
                10
            } else {
                0
            }
        };
    sum_over(b.get_board(Piece::Rook, w), f, Ghost(|s: int| rook_file_term(bb, w, s)), Ghost(20))
}

/// The squares side `w`'s pawns attack.
fn pawn_cover_set(b: &Bitboard, w: bool) -> (r: u64)
    ensures
        forall|t: int| #[trigger] holds(r, t) <==> pawn_covers(*b, w, t),
{
    let pawns = b.get_board(Piece::Pawn, w);
    let colour: usize = if w { 0 } else { 1 };
    let mut acc: u64 = 0;
    let mut rem = pawns;
    while rem != 0
        invariant
            pawns == b.bb(Piece::Pawn, w),
            colour == (if w { 0usize } else { 1usize }),
            forall|t: int| #[trigger] holds(rem, t) ==> holds(pawns, t),
            forall|t: int| #[trigger] holds(acc, t) <==> exists|s: int| holds(pawns, s) && !holds(rem, s) && #[trigger] pawn_hit(w, s, t),
        decreases rem,
    {
        let s = lowest_square(rem);
        let hits = Bitboard::get_pawn_attacks(colour, s);
        let ghost old_acc = acc;
        let ghost old_rem = rem;
        acc = acc | hits;
        rem = without(rem, s);
        proof {
            assert forall|t: int| #[trigger] holds(acc, t) <==> exists|u: int| holds(pawns, u) && !holds(rem, u) && #[trigger] pawn_hit(w, u, t) by {
                if holds(acc, t) {
                    if holds(hits, t) {
                        assert(holds(pawns, s as int) && !holds(rem, s as int) && pawn_hit(w, s as int, t));
                    } else {
                        let u = choose|u: int| holds(pawns, u) && !holds(old_rem, u) && #[trigger] pawn_hit(w, u, t);
                        assert(holds(pawns, u) && !holds(rem, u) && pawn_hit(w, u, t));
                    }
                }
                if exists|u: int| holds(pawns, u) && !holds(rem, u) && #[trigger] pawn_hit(w, u, t) {
                    let u = choose|u: int| holds(pawns, u) && !holds(rem, u) && #[trigger] pawn_hit(w, u, t);
                    if u != s {
                        assert(holds(old_acc, t));
                    }
                }
            }
        }
    }
    proof {
        assert forall|t: int| #[trigger] holds(acc, t) <==> pawn_covers(*b, w, t) by {
            if pawn_covers(*b, w, t) {
                let u = choose|u: int| holds(b.bb(Piece::Pawn, w), u) && #[trigger] pawn_hit(w, u, t);
                assert(!holds(rem, u));
            }
        }
    }
    acc
}

fn threat_weight_of(p: Piece, mg: bool) -> (r: i64)
    ensures
        r == threat_weight(p, mg),
{
    match p {
        Piece::Knight => if mg { 15 } else { 10 },
        Piece::Bishop => if mg { 20 } else { 15 },
        Piece::Rook => if mg { 30 } else { 25 },
        Piece::Queen => if mg { 40 } else { 35 },
        _ => 0,
    }
}

fn threat_kind_of(b: &Bitboard, w: bool, cover: u64, p: Piece, mg: bool) -> (r: i64)
    requires
        forall|t: int| #[trigger] holds(cover, t) <==> pawn_covers(*b, w, t),
    ensures
        r == threat_kind(*b, w, p, mg),
        -(64 * 40) <= r <= 64 * 40,
{
    let bb = *b;
    let wt = threat_weight_of(p, mg);
    let f = |s: usize| -> (r: i64)
        requires
            s < 64,
        ensures
            r == (if holds(cover, s as int) { threat_weight(p, mg) } else { 0 }),
        {
            if is_set(cover, s) { wt } else { 0 }
        };
    sum_over(b.get_board(p, !w), f, Ghost(|t: int| if pawn_covers(bb, w, t) { threat_weight(p, mg) } else { 0 }), Ghost(40))
}

fn threats_of(b: &Bitboard, w: bool, mg: bool) -> (r: i64)
    ensures
        r == threats(*b, w, mg),
        -(4 * 64 * 40) <= r <= 4 * 64 * 40,
{
    let cover = pawn_cover_set(b, w);
    threat_kind_of(b, w, cover, Piece::Knight, mg) + threat_kind_of(b, w, cover, Piece::Bishop, mg)
        + threat_kind_of(b, w, cover, Piece::Rook, mg) + threat_kind_of(b, w, cover, Piece::Queen, mg)
}

fn hanging_penalty_of(p: Piece) -> (r: i64)
    ensures
        r == hanging_penalty(p),
{
    match p {
        Piece::Knight => -50,
        Piece::Bishop => -60,
        Piece::Rook => -85,
        Piece::Queen => -120,
        _ => 0,
    }
}

fn hanging_of(b: &Bitboard, w: bool) -> (r: i64)
    ensures
        r == hanging(*b, w),
        -(64 * 120) <= r <= 64 * 120,
{
    let bb = *b;
    let f = |s: usize| -> (r: i64)
        requires
            s < 64,
        ensures
            r == hanging_term(bb, w, s as int),
        {
            if bb.possible_check(s, !w) && !bb.possible_check(s, w) {
                match bb.piece_on_square(s) {
                    Some((_, p)) => hanging_penalty_of(p),
                    None => 0,
                }
            } else {
                0
            }
        };
    sum_over(b.side_pieces(w), f, Ghost(|s: int| hanging_term(bb, w, s)), Ghost(120))
}

fn pins_of(b: &Bitboard, w: bool) -> (r: i64)
    ensures
        r == pins(*b, w),
        -(64 * 25) <= r <= 64 * 25,
{
    let bb = *b;
    let kings = b.get_board(Piece::King, w);
    let friends = b.side_pieces(w);
    if kings == 0 {
        proof {
            crate::setsum::lemma_sum_zero(friends, |s: int| if pinned(*b, w, s) { -25int } else { 0int }, 64);
        }
        return 0;
    }
    let k = lowest_square(kings);
    let occ = b.all_pieces();
    let foe_sliders = b.get_board(Piece::Rook, !w) | b.get_board(Piece::Bishop, !w) | b.get_board(Piece::Queen, !w);
    let f = |s: usize| -> (r: i64)
        requires
            s < 64,
        ensures
            r == (if pinned(bb, w, s as int) { -25int } else { 0int }),
        {
            if s == k {
                0
            } else {
                let seen = bb.attackers_to_occ(k, !w, occ & !bit(s));
                let hit = seen & foe_sliders;
                proof {
                    if hit != 0 {
                        let t = lemma_some_square(hit);
                        assert(pin_attack(bb, w, s as int, t));
                    } else {
                        assert forall|t: int| !#[trigger] pin_attack(bb, w, s as int, t) by {
                            assert(!holds(hit, t));
                        }
                    }
                }
                if hit != 0 { -25 } else { 0 }
            }
        };
    sum_over(friends, f, Ghost(|s: int| if pinned(bb, w, s) { -25int } else { 0int }), Ghost(25))
}

fn king_safety_of(b: &Bitboard, w: bool) -> (r: i64)
    ensures
        r == king_safety(*b, w),
        -60 <= r <= 0,
{
    let kings = b.get_board(Piece::King, w);
    if kings == 0 {
        return 0;
    }
    let k = lowest_square(kings);
    let home: usize = if w { 0 } else { 7 };
    if k / 8 != home {
        return 0;
    }
    let sr: usize = if w { 1 } else { 6 };
    let f = k % 8;
    let pawns = b.get_board(Piece::Pawn, w);
    let mut c: i64 = 0;
    if f > 0 && is_set(pawns, sr * 8 + f - 1) {
        c = c + 1;
    }
    if is_set(pawns, sr * 8 + f) {
        c = c + 1;
    }
    if f < 7 && is_set(pawns, sr * 8 + f + 1) {
        c = c + 1;
    }
    -20 * (3 - c)
}

/// Side `w`'s middlegame (`mg`) or endgame score.
fn side_score_of(b: &Bitboard, w: bool, mg: bool) -> (r: i64)
    ensures
        r == side_score(*b, w, mg),
        -10_000_000 <= r <= 10_000_000,
{
    let m = material_of(b, w, mg);
    let bp: i64 = if count_squares(b.get_board(Piece::Bishop, w)) >= 2 {
        if mg { 30 } else { 50 }
    } else {
        0
    };
    m + bp + pawn_structure_of(b, w, mg) + rooks_of(b, w) + threats_of(b, w, mg) + hanging_of(b, w)
        + pins_of(b, w) + king_safety_of(b, w)
}

/// The position's value for the side to move: the tapered blend of both sides'
/// middlegame and endgame scores, plus the tempo bonus.
pub fn eval(game: &Game) -> (r: i32)
    ensures
        r == evaluation(game.board, game.is_white_turn),
{
    let b = &game.board;
    let wmg = side_score_of(b, true, true);
    let bmg = side_score_of(b, false, true);
    let weg = side_score_of(b, true, false);
    let beg = side_score_of(b, false, false);
    let raw = phase_of(b, true) + phase_of(b, false);
    let p: i64 = if raw > MAX_PHASE { MAX_PHASE } else { raw };
    let mg = wmg - bmg;
    let eg = weg - beg;
    proof {
        assert(-20_000_000 * 24 <= mg * p <= 20_000_000 * 24) by (nonlinear_arith)
            requires
                -20_000_000 <= mg <= 20_000_000,
                0 <= p <= 24,
        ;
        assert(-20_000_000 * 24 <= eg * (24 - p) <= 20_000_000 * 24) by (nonlinear_arith)
            requires
                -20_000_000 <= eg <= 20_000_000,
                0 <= p <= 24,
        ;
    }
    let num = mg * p + eg * (MAX_PHASE - p);
    let blended = if num >= 0 { num / MAX_PHASE } else { -((-num) / MAX_PHASE) };
    let signed = if game.is_white_turn { blended } else { -blended };
    (signed + TEMPO_BONUS) as i32
}

impl Game {
    /// The position's value for the side to move.
    pub fn eval(&self) -> (r: i32)
        ensures
            r == evaluation(self.board, self.is_white_turn),
    {
        eval(self)
    }
}

} // verus!
