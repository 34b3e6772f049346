//! Long algebraic move notation: `e2e4`, `e7e8q`.
use vstd::prelude::*;
use vstd::string::{StringExecFns, StringSliceAdditionalSpecFns};
use crate::bitboard::Piece;
use crate::game::Game;
use crate::movelist::Move;

verus! {

/// The letter of file `f` (0 = 'a').
pub open spec fn file_char(f: int) -> char {
    if f == 0 { 'a' } else if f == 1 { 'b' } else if f == 2 { 'c' } else if f == 3 { 'd' }
    else if f == 4 { 'e' } else if f == 5 { 'f' } else if f == 6 { 'g' } else { 'h' }
}

/// The digit of rank `r` (0 = '1').
pub open spec fn rank_char(r: int) -> char {
    if r == 0 { '1' } else if r == 1 { '2' } else if r == 2 { '3' } else if r == 3 { '4' }
    else if r == 4 { '5' } else if r == 5 { '6' } else if r == 6 { '7' } else { '8' }
}

/// The name of square `s`, such as "e4".
pub open spec fn square_name(s: int) -> Seq<char> {
    seq![file_char(s % 8), rank_char(s / 8)]
}

/// The suffix naming a promotion piece; empty for none (and for pawn or king).
pub open spec fn promo_suffix(p: Option<Piece>) -> Seq<char> {
    match p {
        Some(Piece::Queen) => seq!['q'],
        Some(Piece::Rook) => seq!['r'],
        Some(Piece::Bishop) => seq!['b'],
        Some(Piece::Knight) => seq!['n'],
        _ => Seq::empty(),
    }
}

/// The text of a move.
pub open spec fn move_text(m: Move) -> Seq<char> {
    square_name(m.0 as int) + square_name(m.1 as int) + promo_suffix(m.2)
}

/// The index of file letter `c` ('a'..'h'), if it is one.
pub open spec fn file_of_byte(c: u8) -> Option<int> {
    if 97 <= c <= 104 { Some(c - 97) } else { None }
}

/// The index of rank digit `c` ('1'..'8'), if it is one.
pub open spec fn rank_of_byte(c: u8) -> Option<int> {
    if 49 <= c <= 56 { Some(c - 49) } else { None }
}

pub open spec fn promo_of_byte(c: u8) -> Option<Piece> {
    if c == 113 {
        Some(Piece::Queen)
    } else if c == 114 {
        Some(Piece::Rook)
    } else if c == 98 {
        Some(Piece::Bishop)
    } else if c == 110 {
        Some(Piece::Knight)
    } else {
        None
    }
}

/// The move a text of four or five bytes names: two squares, then an optional promotion
/// letter (an unknown fifth letter means no promotion).
pub open spec fn move_of_text(b: Seq<u8>) -> Option<Move> {
    if (b.len() == 4 || b.len() == 5) && file_of_byte(b[0]).is_some() && rank_of_byte(b[1]).is_some()
        && file_of_byte(b[2]).is_some() && rank_of_byte(b[3]).is_some() {
        let from = rank_of_byte(b[1]).unwrap() * 8 + file_of_byte(b[0]).unwrap();
        let to = rank_of_byte(b[3]).unwrap() * 8 + file_of_byte(b[2]).unwrap();
        let promo = if b.len() == 5 { promo_of_byte(b[4]) } else { None };
        Some((from as usize, to as usize, promo))
    } else {
        None
    }
}

fn file_index(c: u8) -> (r: Option<usize>)
    ensures
        r.is_some() == file_of_byte(c).is_some(),
        r.is_some() ==> r.unwrap() == file_of_byte(c).unwrap(),
{
    if 97 <= c && c <= 104 { Some((c - 97) as usize) } else { None }
}

fn rank_index(c: u8) -> (r: Option<usize>)
    ensures
        r.is_some() == rank_of_byte(c).is_some(),
        r.is_some() ==> r.unwrap() == rank_of_byte(c).unwrap(),
{
    if 49 <= c && c <= 56 { Some((c - 49) as usize) } else { None }
}

/// Reads a move from its bytes.
pub fn parse_move_bytes(b: &[u8]) -> (r: Option<Move>)
    ensures
        r == move_of_text(b@),
{
    if b.len() != 4 && b.len() != 5 {
        return None;
    }
    let ff = file_index(b[0]);
    let fr = rank_index(b[1]);
    let tf = file_index(b[2]);
    let tr = rank_index(b[3]);
    match (ff, fr, tf, tr) {
        (Some(ff), Some(fr), Some(tf), Some(tr)) => {
            let promo = if b.len() == 5 {
                let c = b[4];
                if c == 113 {
                    Some(Piece::Queen)
                } else if c == 114 {
                    Some(Piece::Rook)
                } else if c == 98 {
                    Some(Piece::Bishop)
                } else if c == 110 {
                    Some(Piece::Knight)
                } else {
                    None
                }
            } else {
                None
            };
            Some((fr * 8 + ff, tr * 8 + tf, promo))
        },
        _ => None,
    }
}

/// Reads a move such as `e2e4` or `e7e8q`.
pub fn parse_move(input: &str) -> (r: Option<Move>)
    ensures
        r == move_of_text(input.spec_bytes()),
{
    parse_move_bytes(input.as_bytes())
}

fn file_str(f: usize) -> (r: &'static str)
    requires
        f < 8,
    ensures
        r@ == seq![file_char(f as int)],
{
    match f {
        0 => {
            proof {
                reveal_strlit("a");
            }
            "a"
        },
        1 => {
            proof {
                reveal_strlit("b");
            }
            "b"
        },
        2 => {
            proof {
                reveal_strlit("c");
            }
            "c"
        },
        3 => {
            proof {
                reveal_strlit("d");
            }
            "d"
        },
        4 => {
            proof {
                reveal_strlit("e");
            }
            "e"
        },
        5 => {
            proof {
                reveal_strlit("f");
            }
            "f"
        },
        6 => {
            proof {
                reveal_strlit("g");
            }
            "g"
        },
        _ => {
            proof {
                reveal_strlit("h");
            }
            "h"
        },
    }
}

fn rank_str(r: usize) -> (s: &'static str)
    requires
        r < 8,
    ensures
        s@ == seq![rank_char(r as int)],
{
    match r {
        0 => {
            proof {
                reveal_strlit("1");
            }
            "1"
        },
        1 => {
            proof {
                reveal_strlit("2");
            }
            "2"
        },
        2 => {
            proof {
                reveal_strlit("3");
            }
            "3"
        },
        3 => {
            proof {
                reveal_strlit("4");
            }
            "4"
        },
        4 => {
            proof {
                reveal_strlit("5");
            }
            "5"
        },
        5 => {
            proof {
                reveal_strlit("6");
            }
            "6"
        },
        6 => {
            proof {
                reveal_strlit("7");
            }
            "7"
        },
        _ => {
            proof {
                reveal_strlit("8");
            }
            "8"
        },
    }
}

/// The suffix naming a promotion piece.
pub fn promo_str(promo: Option<Piece>) -> (r: &'static str)
    ensures
        r@ == promo_suffix(promo),
{
    match promo {
        Some(Piece::Queen) => {
            proof {
                reveal_strlit("q");
            }
            "q"
        },
        Some(Piece::Rook) => {
            proof {
                reveal_strlit("r");
            }
            "r"
        },
        Some(Piece::Bishop) => {
            proof {
                reveal_strlit("b");
            }
            "b"
        },
        Some(Piece::Knight) => {
            proof {
                reveal_strlit("n");
            }
            "n"
        },
        _ => {
            proof {
                reveal_strlit("");
            }
            ""
        },
    }
}

/// The name of square `index`, such as "e4".
pub fn square_name_of(index: usize) -> (r: String)
    requires
        index < 64,
    ensures
        r@ == square_name(index as int),
{
    let mut s = String::from_str(file_str(index % 8));
    s.append(rank_str(index / 8));
    s
}

/// The text of a move, such as "e2e4" or "e7e8q".
pub fn move_to_uci(mov: Move) -> (r: String)
    requires
        mov.0 < 64,
        mov.1 < 64,
    ensures
        r@ == move_text(mov),
{
    let mut s = square_name_of(mov.0);
    let t = square_name_of(mov.1);
    s.append(t.as_str());
    s.append(promo_str(mov.2));
    s
}

/// The bytes of a text made of ASCII characters.
pub open spec fn ascii_bytes(t: Seq<char>) -> Seq<u8> {
    t.map_values(|c: char| c as u8)
}

/// Reading back the text of a move gives the move, for squares of the board and a
/// promotion piece a pawn may choose (or none).
pub proof fn lemma_text_round_trip(m: Move)
    requires
        m.0 < 64,
        m.1 < 64,
        m.2 is None || m.2 == Some(Piece::Queen) || m.2 == Some(Piece::Rook) || m.2 == Some(Piece::Bishop)
            || m.2 == Some(Piece::Knight),
    ensures
        move_of_text(ascii_bytes(move_text(m))) == Some(m),
{
    let b = ascii_bytes(move_text(m));
    let f0 = m.0 % 8;
    let r0 = m.0 / 8;
    let f1 = m.1 % 8;
    let r1 = m.1 / 8;
    assert(b.len() == move_text(m).len());
    assert(b[0] == file_char(f0 as int) as u8);
    assert(b[1] == rank_char(r0 as int) as u8);
    assert(b[2] == file_char(f1 as int) as u8);
    assert(b[3] == rank_char(r1 as int) as u8);
    assert(file_of_byte(b[0]) == Some(f0 as int));
    assert(rank_of_byte(b[1]) == Some(r0 as int));
    assert(file_of_byte(b[2]) == Some(f1 as int));
    assert(rank_of_byte(b[3]) == Some(r1 as int));
    if m.2 is Some {
        assert(b.len() == 5);
        assert(b[4] == move_text(m)[4] as u8);
        assert(promo_of_byte(b[4]) == m.2);
    } else {
        assert(b.len() == 4);
    }
}

impl Game {
    /// Reads a move such as `e2e4` or `e7e8q`.
    pub fn parse_move(input: &str) -> (r: Option<Move>)
        ensures
            r == move_of_text(input.spec_bytes()),
    {
        parse_move(input)
    }

    /// The text of a move, such as "e2e4" or "e7e8q".
    pub fn move_to_uci(&self, mov: Move) -> (r: String)
        requires
            mov.0 < 64,
            mov.1 < 64,
        ensures
            r@ == move_text(mov),
    {
        move_to_uci(mov)
    }

    /// The name of square `index`, such as "e4".
    pub fn square_index_to_coord(&self, index: usize) -> (r: String)
        requires
            index < 64,
        ensures
            r@ == square_name(index as int),
    {
        square_name_of(index)
    }

    /// The suffix naming a promotion piece.
    pub fn promo_to_char(&self, promo: Option<Piece>) -> (r: &'static str)
        ensures
            r@ == promo_suffix(promo),
    {
        promo_str(promo)
    }
}

} // verus!
