use chess_bot::bitboard::{Bitboard, Piece};
use chess_bot::eval::eval;
use chess_bot::game::{Game, GameState};
use chess_bot::movegen::generate_pseudo_legal_moves;
use chess_bot::notation::{move_to_uci, parse_move};
use chess_bot::search::{find_best_move, mate_distance, score_move, static_exchange_exchange, Search};
use chess_bot::tt::{Flag, TranspositionTable};
use std::sync::atomic::AtomicBool;

const KIWIPETE: &str = "r3k2r/p1ppqpb1/bn2pnp1/3PN3/1p2P3/2N2Q1p/PPPBBPPP/R3K2R w KQkq -";
const ROOK_ENDGAME: &str = "8/2p5/3p4/KP5r/1R3p1k/8/4P1P1/8 w - -";
const MIRROR_CASTLING: &str = "r3k2r/Pppp1ppp/1b3nbN/nP6/BBP1P3/q4N2/Pp1P2PP/R2Q1RK1 w kq -";
const PROMOTION_TRAP: &str = "rnbq1k1r/pp1Pbppp/2p5/8/2B5/8/PPP1NnPP/RNBQK2R w KQ -";
const QUIET_MIDDLEGAME: &str = "r4rk1/1pp1qppp/p1np1n2/2b1p1B1/2B1P1b1/P1NP1N2/1PP1QPPP/R4RK1 w - -";

fn load(fen: &str) -> Game {
    Game::from_fen(fen).expect("valid FEN")
}

fn play(game: &mut Game, text: &str) -> bool {
    let (from, to, promo) = parse_move(text).expect("well-formed move");
    game.make_move(from, to, promo)
}

fn sets(b: &Bitboard) -> [u64; 12] {
    [
        b.white_pawns, b.white_knight, b.white_bishop, b.white_rook, b.white_queen, b.white_king,
        b.black_pawns, b.black_knight, b.black_bishop, b.black_rook, b.black_queen, b.black_king,
    ]
}

fn check_invariants(game: &Game) {
    let s = sets(&game.board);
    for i in 0..12 {
        for j in (i + 1)..12 {
            assert_eq!(s[i] & s[j], 0, "piece sets {i} and {j} overlap");
        }
    }
    assert_eq!(game.board.white_king.count_ones(), 1);
    assert_eq!(game.board.black_king.count_ones(), 1);
    let edge_ranks = 0xFF000000000000FFu64;
    assert_eq!((game.board.white_pawns | game.board.black_pawns) & edge_ranks, 0);
    assert_eq!(game.zobrist_hash, game.compute_zobrist_hash());
}

/// Walks every legal move to `depth`, checking the invariants after each make and that
/// unmake restores the position exactly.
fn walk(game: &mut Game, depth: u32) {
    check_invariants(game);
    if depth == 0 {
        return;
    }
    let moves = game.generate_legal_moves();
    for &(from, to, promo) in moves.iter() {
        let board = game.board;
        let side = game.is_white_turn;
        let castling = game.castling;
        let ep = game.en_passent;
        let hash = game.zobrist_hash;
        let undo = game.make_move_unchecked(from, to, promo);
        assert!(!game.side_in_check(side), "a legal move left the mover in check");
        walk(game, depth - 1);
        game.unmake_move(undo);
        assert!(game.board == board);
        assert_eq!(game.is_white_turn, side);
        assert_eq!(game.castling, castling);
        assert_eq!(game.en_passent, ep);
        assert_eq!(game.zobrist_hash, hash);
    }
}

#[test]
fn perft_start_position_shallow() {
    let mut game = Game::new();
    assert_eq!(game.perft(0), 1);
    assert_eq!(game.perft(1), 20);
    assert_eq!(game.perft(2), 400);
    assert_eq!(game.perft(3), 8902);
}

#[test]
fn perft_start_position_depth_4() {
    let mut game = Game::new();
    assert_eq!(game.perft(4), 197281);
}

#[test]
fn perft_kiwipete() {
    let mut game = load(KIWIPETE);
    assert_eq!(game.perft(1), 48);
    assert_eq!(game.perft(2), 2039);
}

#[test]
fn perft_kiwipete_depth_3() {
    let mut game = load(KIWIPETE);
    assert_eq!(game.perft(3), 97862);
}

#[test]
fn perft_rook_endgame() {
    let mut game = load(ROOK_ENDGAME);
    assert_eq!(game.perft(1), 14);
    assert_eq!(game.perft(2), 191);
    assert_eq!(game.perft(3), 2812);
    assert_eq!(game.perft(4), 43238);
}

#[test]
fn perft_mirror_castling() {
    let mut game = load(MIRROR_CASTLING);
    assert_eq!(game.perft(1), 6);
    assert_eq!(game.perft(2), 264);
    assert_eq!(game.perft(3), 9467);
}

#[test]
fn perft_promotion_trap() {
    let mut game = load(PROMOTION_TRAP);
    assert_eq!(game.perft(1), 44);
    assert_eq!(game.perft(2), 1486);
    assert_eq!(game.perft(3), 62379);
}

#[test]
fn perft_quiet_middlegame() {
    let mut game = load(QUIET_MIDDLEGAME);
    assert_eq!(game.perft(1), 46);
    assert_eq!(game.perft(2), 2079);
}

#[test]
fn invariants_hold_through_move_trees() {
    for fen in [KIWIPETE, ROOK_ENDGAME, MIRROR_CASTLING, PROMOTION_TRAP, QUIET_MIDDLEGAME] {
        let mut game = load(fen);
        walk(&mut game, 2);
    }
    let mut game = Game::new();
    walk(&mut game, 3);
}

#[test]
fn italian_opening_moves_are_accepted() {
    let mut game = Game::new();
    for m in ["e2e4", "e7e5", "g1f3", "b8c6", "f1b5"] {
        assert!(play(&mut game, m), "{m} should be legal");
    }
    // five plies: black is to move
    assert!(!game.is_white_turn);
    assert_eq!(game.castling, 0b1111);
    assert_eq!(game.en_passent, None);
}

#[test]
fn double_push_sets_en_passant_square() {
    let mut game = Game::new();
    assert!(play(&mut game, "e2e4"));
    assert_eq!(game.en_passent, Some(20));
    assert!(play(&mut game, "g8f6"));
    assert_eq!(game.en_passent, None);
}

#[test]
fn en_passant_capture_removes_the_pawn() {
    let mut game = Game::new();
    for m in ["e2e4", "a7a6", "e4e5", "d7d5"] {
        assert!(play(&mut game, m));
    }
    assert_eq!(game.en_passent, Some(43));
    assert!(play(&mut game, "e5d6"));
    assert_eq!(game.board.black_pawns & (1u64 << 35), 0, "the d5 pawn is taken");
    assert_ne!(game.board.white_pawns & (1u64 << 43), 0);
    assert_eq!(game.zobrist_hash, game.compute_zobrist_hash());
}

#[test]
fn rook_capture_on_corner_removes_castling_right() {
    let mut game = load("r3k2r/8/8/8/8/8/8/R3K2R w KQkq -");
    assert!(play(&mut game, "a1a8"));
    // white loses its queen side by moving the a1 rook, black by losing the a8 rook
    assert_eq!(game.castling, 0b1010);
    assert!(game.is_in_check());
    assert!(!play(&mut game, "e8c8"), "no queen-side castling for black any more");
    assert!(!play(&mut game, "e8a8"));
    assert!(play(&mut game, "e8e7"));
}

#[test]
fn illegal_moves_are_refused_without_change() {
    let mut game = Game::new();
    let hash = game.zobrist_hash;
    assert!(!play(&mut game, "e2e5"));
    assert!(!play(&mut game, "e1e2"));
    assert!(!play(&mut game, "e7e5"));
    assert_eq!(game.zobrist_hash, hash);
    assert!(game.is_white_turn);
}

#[test]
fn move_into_check_is_refused() {
    // the e2 knight is pinned by the e8 rook
    let mut game = load("4r1k1/8/8/8/8/8/4N3/4K3 w - -");
    assert!(!play(&mut game, "e2c3"));
    assert!(play(&mut game, "e1d2"));
    assert!(!game.side_in_check(true));
}

#[test]
fn threefold_repetition_is_counted() {
    let mut game = Game::new();
    let start = game.zobrist_hash;
    assert_eq!(game.record_position(), 1);
    for _ in 0..2 {
        for m in ["g1f3", "g8f6", "f3g1", "f6g8"] {
            assert!(play(&mut game, m));
            game.record_position();
        }
    }
    assert_eq!(game.zobrist_hash, start);
    assert_eq!(game.repetition_count(start), 3);
    assert_eq!(game.hash_position(), start);
}

#[test]
fn game_states() {
    let mut game = Game::new();
    assert_eq!(game.game_state(), GameState::Normal);
    // fool's mate
    for m in ["f2f3", "e7e5", "g2g4", "d8h4"] {
        assert!(play(&mut game, m));
    }
    assert_eq!(game.game_state(), GameState::Checkmate);
    let mut stale = load("7k/5Q2/6K1/8/8/8/8/8 b - -");
    assert_eq!(stale.game_state(), GameState::Stalemate);
    let mut check = load("4k3/8/8/8/8/8/8/4RK2 b - -");
    assert_eq!(check.game_state(), GameState::Check);
}

#[test]
fn castling_moves_are_generated_and_played() {
    let mut game = load("r3k2r/8/8/8/8/8/8/R3K2R w KQkq -");
    let moves = game.generate_legal_moves();
    assert!(moves.iter().any(|m| *m == (4, 6, None)));
    assert!(moves.iter().any(|m| *m == (4, 2, None)));
    assert!(play(&mut game, "e1g1"));
    assert_ne!(game.board.white_rook & (1u64 << 5), 0);
    assert_eq!(game.board.white_rook & (1u64 << 7), 0);
    assert_eq!(game.castling, 0b0011);
    assert_eq!(game.zobrist_hash, game.compute_zobrist_hash());
}

#[test]
fn no_castling_through_attacked_square() {
    // the f8 rook attacks f1
    let game = load("5r1k/8/8/8/8/8/8/4K2R w K -");
    let moves = game.generate_legal_moves();
    assert!(!moves.iter().any(|m| *m == (4, 6, None)));
}

#[test]
fn double_push_blocked_by_piece_in_between() {
    let game = load("4k3/8/8/8/8/4n3/4P3/4K3 w - -");
    let moves = generate_pseudo_legal_moves(&game);
    assert!(!moves.iter().any(|m| *m == (12, 28, None)));
    assert!(!moves.iter().any(|m| *m == (12, 20, None)));
}

#[test]
fn promotions_come_in_four() {
    let game = load("4k3/P7/8/8/8/8/8/4K3 w - -");
    let moves = game.generate_legal_moves();
    let promos: Vec<_> = moves.iter().filter(|m| m.0 == 48).collect();
    assert_eq!(promos.len(), 4);
    assert_eq!(game.generate_legal_moves().len(), 4 + 5);
}

#[test]
fn parse_and_print_moves() {
    assert_eq!(parse_move("e2e4"), Some((12, 28, None)));
    assert_eq!(parse_move("e7e8q"), Some((52, 60, Some(Piece::Queen))));
    assert_eq!(parse_move("a7b8n"), Some((48, 57, Some(Piece::Knight))));
    assert_eq!(parse_move("e7e8x"), Some((52, 60, None)));
    assert_eq!(parse_move("e2e"), None);
    assert_eq!(parse_move("i2e4"), None);
    assert_eq!(parse_move("e9e4"), None);
    assert_eq!(parse_move("e2e4q5"), None);
    assert_eq!(move_to_uci((12, 28, None)), "e2e4");
    assert_eq!(move_to_uci((52, 60, Some(Piece::Queen))), "e7e8q");
    assert_eq!(move_to_uci((0, 63, Some(Piece::Rook))), "a1h8r");
    let game = Game::new();
    assert_eq!(game.square_index_to_coord(63), "h8");
    assert_eq!(game.promo_to_char(Some(Piece::Bishop)), "b");
    assert_eq!(game.promo_to_char(None), "");
    assert_eq!(Game::parse_move("g1f3"), Some((6, 21, None)));
}

#[test]
fn fen_errors_are_reported() {
    assert!(Game::from_fen("8/8/8 w").is_err());
    assert!(Game::from_fen("rnbqkbnr/ppppxppp/8/8/8/8/PPPPPPPP/RNBQKBNR w KQkq -").is_err());
    assert!(Game::from_fen("rnbqkbnr/pppppppp/8/8/8/8/PPPPPPPP/RNBQKBNR x KQkq -").is_err());
    assert!(Game::from_fen("rnbqkbnr/pppppppp/8/8/8/8/PPPPPPPP/RNBQKBNR w KQkq z9").is_err());
    assert!(Game::from_fen("rnbqkbnr/pppppppp/9/8/8/8/PPPPPPPP/RNBQKBNR w KQkq -").is_err());
    let g = load("rnbqkbnr/pppppppp/8/8/4P3/8/PPPP1PPP/RNBQKBNR b Kq e3 0 1");
    assert!(!g.is_white_turn);
    assert_eq!(g.castling, 0b1001);
    assert_eq!(g.en_passent, Some(20));
    let start = load("rnbqkbnr/pppppppp/8/8/8/8/PPPPPPPP/RNBQKBNR w KQkq - 0 1");
    assert!(start.board == Bitboard::new());
    assert_eq!(start.zobrist_hash, Game::new().zobrist_hash);
}

#[test]
fn hash_differs_by_side_castling_and_en_passant() {
    let a = load("4k3/8/8/8/8/8/8/4K3 w - -");
    let b = load("4k3/8/8/8/8/8/8/4K3 b - -");
    assert_ne!(a.zobrist_hash, b.zobrist_hash);
    let c = load("r3k3/8/8/8/8/8/8/4K3 b q -");
    let d = load("r3k3/8/8/8/8/8/8/4K3 b - -");
    assert_ne!(c.zobrist_hash, d.zobrist_hash);
}

#[test]
fn evaluation_of_start_position_is_the_tempo() {
    let game = Game::new();
    assert_eq!(eval(&game), 10);
    assert_eq!(game.eval(), 10);
    let mut black = Game::new();
    black.is_white_turn = false;
    assert_eq!(eval(&black), 10);
}

#[test]
fn evaluation_counts_material() {
    // white has an extra queen
    let up = load("4k3/8/8/8/8/8/8/3QK3 w - -");
    let even = load("4k3/8/8/8/8/8/8/4K3 w - -");
    assert!(eval(&up) > eval(&even) + 800);
    let down = load("4k3/8/8/8/8/8/8/3QK3 b - -");
    assert!(eval(&down) < -800);
}

#[test]
fn static_exchange_values() {
    // pawn takes a defended knight: +320 - 100 = 220 for white
    let game = load("4k3/8/4p3/3n4/4P3/8/8/4K3 w - -");
    assert_eq!(static_exchange_exchange(&game, 28, 35), 220);
    // queen takes a pawn defended by a pawn: loses the queen
    let bad = load("4k3/8/4p3/3p4/8/8/3Q4/4K3 w - -");
    assert_eq!(static_exchange_exchange(&bad, 11, 35), 100 - 900);
    // empty target
    assert_eq!(static_exchange_exchange(&game, 28, 36), 0);
}

#[test]
fn move_scores_order_promotions_and_captures() {
    let game = load("1r2k3/P7/8/8/8/8/8/4K3 w - -");
    let search = Search::new();
    assert_eq!(score_move(&game, (48, 56, Some(Piece::Queen)), 0, &search), 20900);
    assert_eq!(score_move(&game, (48, 56, Some(Piece::Knight)), 0, &search), 15320);
    assert_eq!(score_move(&game, (48, 56, Some(Piece::Rook)), 0, &search), 10500);
    let capture = load("4k3/8/8/3q4/4P3/8/8/4K3 w - -");
    assert_eq!(score_move(&capture, (28, 35, None), 0, &search), 10000 + 900 - 100);
}

#[test]
fn killers_and_history() {
    let mut search = Search::new();
    let game = Game::new();
    search.add_killer_move(3, (6, 21, None));
    search.add_killer_move(3, (1, 18, None));
    assert_eq!(score_move(&game, (1, 18, None), 3, &search), 700_002);
    assert_eq!(score_move(&game, (6, 21, None), 3, &search), 700_001);
    search.update_history_score(Piece::Pawn, 28, 3);
    search.update_history_score(Piece::Pawn, 28, 2);
    assert_eq!(score_move(&game, (12, 28, None), 0, &search), 13);
}

#[test]
fn transposition_table_store_and_probe() {
    let mut tt = TranspositionTable::with_capacity(16);
    assert!(tt.probe(5).is_none());
    tt.store(5, 3, 42, Flag::Exact, Some((12, 28, None)));
    let e = tt.probe(5).expect("stored");
    assert_eq!((e.key, e.depth, e.score, e.flag), (5, 3, 42, Flag::Exact));
    // same slot, other key: the probe refuses the colliding entry
    assert!(tt.probe(21).is_none());
    tt.store(21, 1, -7, Flag::LowerBound, None);
    assert!(tt.probe(5).is_none());
    assert_eq!(tt.probe(21).expect("replaced").score, -7);
    tt.clear();
    assert!(tt.probe(21).is_none());
    let big = TranspositionTable::new();
    assert_eq!(big.capacity, 262144);
}

#[test]
fn mate_in_one_is_found() {
    let mut game = load("6k1/5ppp/8/8/8/8/5PPP/R5K1 w - -");
    let mut search = Search::new();
    let stop = AtomicBool::new(false);
    let outcome = find_best_move(&mut game, &mut search, 4, &stop, |_r| {});
    assert_eq!(outcome.best_move.map(move_to_uci), Some("a1a8".to_string()));
    assert_eq!(mate_distance(outcome.score), Some(1));
    assert_eq!(game.zobrist_hash, game.compute_zobrist_hash());
}

#[test]
fn promotion_is_chosen() {
    let mut game = load("4k3/P7/8/8/8/8/8/4K3 w - -");
    let mut search = Search::new();
    let stop = AtomicBool::new(false);
    let outcome = find_best_move(&mut game, &mut search, 6, &stop, |_r| {});
    assert_eq!(outcome.best_move.map(move_to_uci), Some("a7a8q".to_string()));
}

#[test]
fn stopped_search_still_gives_a_move() {
    let mut game = Game::new();
    let mut search = Search::new();
    let stop = AtomicBool::new(true);
    let outcome = find_best_move(&mut game, &mut search, 5, &stop, |_r| {});
    assert!(outcome.reports.is_empty());
    assert!(outcome.best_move.is_some());
}

#[test]
fn mate_distance_rule() {
    assert_eq!(mate_distance(100_000_000 - 1), Some(1));
    assert_eq!(mate_distance(100_000_000 - 3), Some(2));
    assert_eq!(mate_distance(-(100_000_000 - 2)), Some(-1));
    assert_eq!(mate_distance(35), None);
}

#[test]
fn piece_indices_round_trip() {
    for i in 0..6 {
        assert_eq!(Piece::from_index(i).unwrap().to_index(), i);
    }
    assert_eq!(Piece::from_index(6), None);
    assert_eq!(Piece::Pawn.to_index(), 0);
    assert_eq!(Piece::King.to_index(), 5);
}

#[test]
fn attack_tables() {
    let b = Bitboard::empty();
    assert_eq!(b.get_knight_attacks(0), (1u64 << 17) | (1u64 << 10));
    assert_eq!(b.get_king_attacks(0), (1u64 << 1) | (1u64 << 8) | (1u64 << 9));
    assert_eq!(Bitboard::get_pawn_attacks(0, 8), 1u64 << 17);
    assert_eq!(Bitboard::get_pawn_attacks(1, 55), (1u64 << 46));
    assert_eq!(Bitboard::get_pawn_pushes(0, 12), (1u64 << 20) | (1u64 << 28));
    assert_eq!(Bitboard::get_pawn_pushes(1, 44), 1u64 << 36);
    assert_eq!(Bitboard::get_rook_attacks(0, 0).count_ones(), 14);
    assert_eq!(Bitboard::get_rook_attacks(0, 1u64 << 2), (1u64 << 1) | (1u64 << 2) | 0x0101010101010100);
    assert_eq!(Bitboard::get_bishop_attacks(27, 0).count_ones(), 13);
    assert_eq!(Bitboard::get_bishop_attacks(0, 1u64 << 18), (1u64 << 9) | (1u64 << 18));
    let start = Bitboard::new();
    assert!(start.possible_check(20, true));
    assert!(!start.possible_check(28, true));
    assert_eq!(start.attackers_to(21, true), (1u64 << 6) | (1u64 << 12) | (1u64 << 14));
    assert_eq!(start.white_pieces(), 0xFFFF);
    assert_eq!(start.black_pieces(), 0xFFFF000000000000);
    assert_eq!(start.all_pieces(), 0xFFFF00000000FFFF);
    let mut b2 = Bitboard::empty();
    *b2.get_mut_board(Piece::Queen, false) = 7;
    assert_eq!(b2.black_queen, 7);
}

#[test]
fn move_list_operations() {
    let mut list = chess_bot::MoveList::new();
    assert!(list.is_empty());
    list.add(1, 2, None);
    list.add(3, 4, None);
    list.add(5, 6, Some(Piece::Queen));
    assert_eq!(list.len(), 3);
    list.sort_by_cached_key(|m| -(m.0 as i64));
    assert_eq!(list.get(0), (5, 6, Some(Piece::Queen)));
    list.retain(|m| m.2.is_none());
    assert_eq!(list.len(), 2);
    assert_eq!(list.iter().map(|m| m.0).collect::<Vec<_>>(), vec![3, 1]);
    list.clear();
    assert_eq!(list.len(), 0);
}

#[test]
fn evaluation_exact_values() {
    assert_eq!(eval(&load("4k3/8/8/8/8/8/4P3/4K3 w - -")), 138);
    assert_eq!(eval(&load("4k3/8/8/8/8/8/4P3/4K3 b - -")), -118);
    assert_eq!(eval(&load("r3k3/1p6/8/3N4/8/8/PP6/R3K3 w - -")), 474);
    assert_eq!(eval(&load("4k3/8/4p3/3n4/4P3/8/8/4K3 w - -")), -330);
    assert_eq!(eval(&load("6k1/5ppp/8/8/8/8/5PPP/R5K1 w - -")), 520);
}

#[test]
fn free_function_forms() {
    let game = Game::new();
    assert_eq!(chess_bot::game::compute_zobrist_hash(&game), game.zobrist_hash);
    assert_eq!(chess_bot::eval::attackers_to(&game.board, 21, true), (1u64 << 6) | (1u64 << 12) | (1u64 << 14));
    assert_eq!(chess_bot::eval::get_piece_value(Piece::Queen), 900);
}

#[test]
fn malformed_placements_are_rejected() {
    assert!(Game::from_fen("4k3/8/8/8/8/8/8/4K2 w - -").is_err(), "short rank");
    assert!(Game::from_fen("4k3/8/8/8/8/8/4K3 w - -").is_err(), "seven ranks");
    assert!(Game::from_fen("4k3/8/8/8/8/8/8/8/4K3 w - -").is_err(), "nine ranks");
    assert!(Game::from_fen("4k3/8/8/8/8/8/8/4K3x w - -").is_err(), "bad letter");
    assert!(Game::from_fen("4k3/8/8/8/8/8/8/4K3 w - e3").is_err(), "en-passant square without pawn");
    assert!(Game::from_fen("4k3/8/8/8/8/8/8/4K3 w - -").is_ok());
}

#[test]
fn perft_counts_each_move_once() {
    let mut game = load("4k3/P7/8/8/8/8/8/4K3 w - -");
    assert_eq!(game.perft(1), 9);
    let mut ep = load("4k3/8/8/3pP3/8/8/8/4K3 w - d6");
    assert_eq!(ep.perft(1), 7);
}

#[test]
fn search_reports_completion() {
    let mut game = load("6k1/5ppp/8/8/8/8/5PPP/R5K1 w - -");
    let mut s = Search::new();
    let running = AtomicBool::new(false);
    let (score, done) = chess_bot::search::search(&mut game, 2, -100_000_000, 100_000_000, 0, &running, &mut s);
    assert!(done);
    assert_eq!(mate_distance(score), Some(1));
    let stopped = AtomicBool::new(true);
    assert_eq!(chess_bot::search::search(&mut game, 2, -100_000_000, 100_000_000, 0, &stopped, &mut s), (0, false));
}

#[test]
fn each_iteration_is_reported_as_it_completes() {
    let mut game = Game::new();
    let mut search = Search::new();
    let stop = AtomicBool::new(false);
    let seen = std::cell::RefCell::new(Vec::new());
    let outcome = find_best_move(&mut game, &mut search, 3, &stop, |r| seen.borrow_mut().push(r.depth));
    assert_eq!(*seen.borrow(), vec![1, 2, 3]);
    assert_eq!(outcome.reports.len(), 3);
}

#[test]
fn move_text_reads_back() {
    let game = load(KIWIPETE);
    for &m in game.generate_legal_moves().iter() {
        assert_eq!(parse_move(&move_to_uci(m)), Some(m));
    }
    assert_eq!(parse_move(&move_to_uci((52, 60, Some(Piece::Knight)))), Some((52, 60, Some(Piece::Knight))));
}
