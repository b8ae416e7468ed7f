use std::sync::Arc;

use mikuengine::attacks::{bishop_attacks, init_magics, king_attacks, knight_attacks, pawn_attacks, queen_attacks, rook_attacks};
use mikuengine::bitboard::Bitboard;
use mikuengine::board::Board;
use mikuengine::eval::{endgame_evaluate, evaluate};
use mikuengine::fen::START_FEN;
use mikuengine::history::Heuristics;
use mikuengine::movegen::{generate_pseudo_legal_captures, generate_pseudo_legal_moves, MoveList};
use mikuengine::movepick::MovePicker;
use mikuengine::nnue::NNUE;
use mikuengine::perft::{divide, perft};
use mikuengine::smp::RootMoveList;
use mikuengine::time::{next_iteration_fits, TimeManager, NO_SCORE};
use mikuengine::transposition::{NodeType, TranspositionTable};
use mikuengine::types::{Color, Move, PieceType, Square};
use mikuengine::fen::fen_readable;
use mikuengine::nnue::feature::{feature_index_for_perspective, orient_sq};
use mikuengine::search::{aspiration_next, aspiration_start, quiescence, static_eval, AspirationStep, SearchEnv};
use mikuengine::search::{
    aspiration_delta, bound_type, capture_futile, capture_see_margin, corrected_eval, cutoff_score, delta_pruned,
    draw_score, eval_with_tt, hindsight_depth, late_move_depth, lmp_threshold, lmr_depth, mate_distance_window,
    mate_in, next_average, null_move_applies, null_move_reduction, quiet_futility_value, quiet_lmr_depth,
    razoring_applies, reduction, research_depth, reverse_futility, singular_beta, singular_extension, tt_cutoff,
    root_tb_score, tb_move_matches, tb_score, LmrFactors, Wdl, INF, MATE_SCORE, TB_SCORE,
};
use mikuengine::uci::{command_of, parse_bench_args, parse_go, parse_position, parse_setoption, BenchArgs, EngineOption, GoPlan, TimeLimits, UciCommand};

const KIWIPETE: &str = "r3k2r/p1ppqpb1/bn2pnp1/3PN3/1p2P3/2N2Q1p/PPPBBPPP/R3K2R w KQkq - 0 1";

fn net() -> Arc<NNUE> {
    Arc::new(NNUE::new())
}

fn board(fen: &str) -> Board {
    Board::from_fen(fen, net()).expect("valid fen")
}

fn sq(name: &str) -> u8 {
    let b = name.as_bytes();
    (b[1] - b'1') * 8 + (b[0] - b'a')
}

#[test]
fn start_position_from_fen_matches_new() {
    let a = board(START_FEN);
    let b = Board::new(net());
    for s in 0..64 {
        assert_eq!(a.piece_on_sq[s], b.piece_on_sq[s]);
    }
    assert_eq!(a.zobrist_key, b.zobrist_key);
    assert_eq!(a.castling, b.castling);
    assert_eq!(a.side_to_move, b.side_to_move);
}

#[test]
fn fen_of_start_position() {
    assert_eq!(Board::new(net()).fen(), START_FEN);
}

#[test]
fn fen_round_trip() {
    for f in [
        KIWIPETE,
        "8/2p5/3p4/KP5r/1R3p1k/8/4P1P1/8 w - - 0 1",
        "rnbqkbnr/pp1ppppp/8/2p5/4P3/8/PPPP1PPP/RNBQKBNR w KQkq c6 0 2",
        "4k3/8/8/8/8/8/8/4K3 b - - 17 63",
    ] {
        assert_eq!(board(f).fen(), f);
    }
}

#[test]
fn fen_refused() {
    assert!(Board::from_fen("8/8/8/8 w", net()).is_none());
    assert!(Board::from_fen("rnbqkbnx/8/8/8/8/8/8/4K3 w - -", net()).is_none());
    assert!(Board::from_fen("", net()).is_none());
}

#[test]
fn fen_counters() {
    let b = board("4k3/8/8/8/8/8/8/4K3 w - - +5 70000");
    assert_eq!(b.halfmove_clock, 5);
    assert_eq!(b.fullmove_number, 1);
    let b = board("4k3/8/8/8/8/8/8/4K3 w - - x 12");
    assert_eq!(b.halfmove_clock, 0);
    assert_eq!(b.fullmove_number, 12);
    let b = board("4k3/8/8/8/8/8/8/4K3 w - -");
    assert_eq!(b.halfmove_clock, 0);
    assert_eq!(b.fullmove_number, 1);
}

#[test]
fn fen_side_castling_ep() {
    let b = board("rnbqkbnr/pppp1ppp/8/4p3/4P3/8/PPPP1PPP/RNBQKBNR b Kq e3 0 2");
    assert_eq!(b.side_to_move, Color::Black);
    assert!(b.castling.has_wk());
    assert!(!b.castling.has_wq());
    assert!(!b.castling.has_bk());
    assert!(b.castling.has_bq());
    assert_eq!(b.en_passant, Some(Square(sq("e3"))));
}

#[test]
fn start_position_moves() {
    let b = Board::new(net());
    let mut list = MoveList::new();
    generate_pseudo_legal_moves(&b, &mut list);
    assert_eq!(list.count, 20);
    assert_eq!(list.moves.len(), 20);
    for m in &list.moves {
        assert!(b.is_pseudo_legal(*m));
    }
    let mut caps = MoveList::new();
    generate_pseudo_legal_captures(&b, &mut caps);
    assert_eq!(caps.count, 0);
}

#[test]
fn kiwipete_moves_are_pseudo_legal() {
    let b = board(KIWIPETE);
    let mut list = MoveList::new();
    generate_pseudo_legal_moves(&b, &mut list);
    assert_eq!(list.count, 48);
    for m in &list.moves {
        assert!(b.is_pseudo_legal(*m));
    }
    let mut caps = MoveList::new();
    generate_pseudo_legal_captures(&b, &mut caps);
    assert_eq!(caps.count, 8);
    for m in &caps.moves {
        assert!(m.is_capture() || m.is_promotion());
        assert!(b.is_pseudo_legal(*m));
    }
}

#[test]
fn perft_start_position() {
    let mut b = Board::new(net());
    assert_eq!(perft(&mut b, 0), 1);
    assert_eq!(perft(&mut b, 1), 20);
    assert_eq!(perft(&mut b, 2), 400);
    assert_eq!(perft(&mut b, 3), 8902);
    assert_eq!(b.fen(), START_FEN);
}

#[test]
fn perft_kiwipete() {
    let mut b = board(KIWIPETE);
    assert_eq!(perft(&mut b, 1), 48);
    assert_eq!(b.fen(), KIWIPETE);
}

#[test]
fn perft_endgame_with_en_passant() {
    let f = "8/2p5/3p4/KP5r/1R3p1k/8/4P1P1/8 w - - 0 1";
    let mut b = board(f);
    assert_eq!(perft(&mut b, 1), 14);
    assert_eq!(perft(&mut b, 2), 191);
    assert_eq!(perft(&mut b, 3), 2812);
    assert_eq!(b.fen(), f);
}

#[test]
fn make_unmake_restores_position() {
    let mut b = board(KIWIPETE);
    let key = b.zobrist_key;
    let mut list = MoveList::new();
    generate_pseudo_legal_moves(&b, &mut list);
    for m in list.moves.clone() {
        let undo = b.make_move(m);
        assert_eq!(b.zobrist_key, b.compute_hash());
        assert_ne!(b.fen(), KIWIPETE);
        b.unmake_move(m, &undo);
        assert_eq!(b.fen(), KIWIPETE);
        assert_eq!(b.zobrist_key, key);
    }
}

#[test]
fn double_push_sets_en_passant() {
    let mut b = Board::new(net());
    let m = Move::new(sq("e2"), sq("e4"), Move::FLAG_DBL_PUSH);
    assert!(b.is_pseudo_legal(m));
    b.make_move(m);
    assert_eq!(b.en_passant, Some(Square(sq("e3"))));
    assert_eq!(b.side_to_move, Color::Black);
    assert_eq!(b.fen(), "rnbqkbnr/pppppppp/8/8/4P3/8/PPPP1PPP/RNBQKBNR b KQkq e3 0 1");
}

#[test]
fn pseudo_legality_checks() {
    let b = Board::new(net());
    assert!(b.is_pseudo_legal(Move::new(sq("g1"), sq("f3"), Move::FLAG_QUIET)));
    assert!(!b.is_pseudo_legal(Move::new(sq("g1"), sq("g3"), Move::FLAG_QUIET)));
    assert!(!b.is_pseudo_legal(Move::new(sq("e2"), sq("e5"), Move::FLAG_QUIET)));
    assert!(!b.is_pseudo_legal(Move::new(sq("e7"), sq("e5"), Move::FLAG_DBL_PUSH)));
    assert!(!b.is_pseudo_legal(Move::new(sq("e1"), sq("g1"), Move::FLAG_K_CASTLE)));
    let k = board(KIWIPETE);
    assert!(k.is_pseudo_legal(Move::new(sq("e1"), sq("g1"), Move::FLAG_K_CASTLE)));
    assert!(k.is_pseudo_legal(Move::new(sq("e5"), sq("f7"), Move::FLAG_CAPTURE)));
    assert!(!k.is_pseudo_legal(Move::new(sq("e5"), sq("f7"), Move::FLAG_QUIET)));
}

#[test]
fn square_attacks() {
    let b = Board::new(net());
    assert!(b.is_square_attacked(Square(sq("f3")), Color::White));
    assert!(!b.is_square_attacked(Square(sq("e4")), Color::White));
    assert!(b.is_square_attacked(Square(sq("f6")), Color::Black));
}

#[test]
fn static_exchange() {
    let b = board("4k3/8/3p4/4p3/3P4/8/8/4K3 w - - 0 1");
    let takes = Move::new(sq("d4"), sq("e5"), Move::FLAG_CAPTURE);
    assert!(b.see_ge(takes, 0));
    assert!(!b.see_ge(takes, 101));
    let b = board("4k3/8/3p4/4q3/3P4/8/8/4K3 w - - 0 1");
    let takes = Move::new(sq("d4"), sq("e5"), Move::FLAG_CAPTURE);
    assert!(b.see_ge(takes, 700));
    let b = board("4k3/8/3p4/4p3/8/8/7Q/4K3 w - - 0 1");
    let qx = Move::new(sq("h2"), sq("e5"), Move::FLAG_CAPTURE);
    assert!(!b.see_ge(qx, 0));
}

#[test]
fn leaper_attacks() {
    assert_eq!(knight_attacks(Square(0)).0, (1u64 << 10) | (1u64 << 17));
    assert_eq!(king_attacks(Square(0)).0, (1u64 << 1) | (1u64 << 8) | (1u64 << 9));
    assert_eq!(pawn_attacks(Color::White, Square(sq("e2"))).0, (1u64 << sq("d3")) | (1u64 << sq("f3")));
    assert_eq!(pawn_attacks(Color::Black, Square(sq("a7"))).0, 1u64 << sq("b6"));
}

#[test]
fn slider_attacks() {
    let occ = Bitboard((1u64 << sq("a4")) | (1u64 << sq("d1")));
    let r = rook_attacks(Square(0), occ).0;
    let expect = (1u64 << sq("a2")) | (1u64 << sq("a3")) | (1u64 << sq("a4")) | (1u64 << sq("b1")) | (1u64 << sq("c1")) | (1u64 << sq("d1"));
    assert_eq!(r, expect);
    let bi = bishop_attacks(Square(sq("d4")), Bitboard(1u64 << sq("f6"))).0;
    assert!(bi & (1u64 << sq("f6")) != 0);
    assert!(bi & (1u64 << sq("g7")) == 0);
    assert!(bi & (1u64 << sq("a1")) != 0);
    assert_eq!(bi.count_ones(), 11);
}

#[test]
fn move_encoding() {
    let m = Move::new(12, 28, Move::FLAG_DBL_PUSH);
    assert_eq!(m.from_sq(), 12);
    assert_eq!(m.to_sq(), 28);
    assert_eq!(m.flag(), Move::FLAG_DBL_PUSH);
    assert!(!m.is_capture());
    let p = Move::new(52, 61, Move::FLAG_PC_KNIGHT);
    assert!(p.is_capture());
    assert!(p.is_promotion());
    assert_eq!(p.promotion_type(), PieceType::Knight);
    assert!(Move::new(36, 43, Move::FLAG_EP).is_en_passant());
}

#[test]
fn bitboard_operations() {
    let mut b = Bitboard(0b1011_0000);
    assert_eq!(b.count(), 3);
    assert_eq!(b.lsb(), 4);
    assert_eq!(b.msb(), 7);
    assert_eq!(b.pop_lsb(), 4);
    assert_eq!(b.0, 0b1010_0000);
    b.set_bit(0);
    b.clear_bit(7);
    assert_eq!(b.0, 0b0010_0001);
    assert!(Bitboard(0).is_empty());
}

#[test]
fn material_evaluation() {
    assert_eq!(evaluate(&Board::new(net())), 0);
    let b = board("4k3/8/8/8/8/8/8/3QK3 w - - 0 1");
    assert!(evaluate(&b) > 800);
    let pawns = board("4k3/pp6/8/8/8/8/PPP5/4K3 w - - 0 1");
    assert_eq!(endgame_evaluate(&pawns, 300), 500);
}

#[test]
fn transposition_store_and_probe() {
    let mut tt = TranspositionTable::new(1);
    assert_eq!(tt.keys.len(), 65536);
    let key = 0x1234_5678_9abc_def0u64;
    assert!(tt.probe(key).is_none());
    let m = Move::new(12, 28, Move::FLAG_DBL_PUSH);
    tt.store(key, 7, -321, NodeType::Beta, m, true);
    let e = tt.probe(key).expect("stored");
    assert_eq!(e.key, key);
    assert_eq!(e.score, -321);
    assert_eq!(e.best_move, m);
    assert_eq!(e.depth, 7);
    assert!(e.node_type == NodeType::Beta);
    assert!(e.is_pv);
    let other = key + (tt.mask as u64 + 1);
    tt.store(other, 3, 5, NodeType::Exact, m, false);
    assert_eq!(tt.probe(key).expect("kept").depth, 7);
    assert!(tt.probe(other).is_none());
    tt.clear();
    assert!(tt.probe(key).is_none());
    assert_eq!(tt.hashfull(), 0);
}

#[test]
fn history_gravity() {
    let mut h = Heuristics::new();
    h.update_history(Color::White, PieceType::Knight, Square(21), 10);
    assert_eq!(h.get_history(Color::White, PieceType::Knight, Square(21)), 100);
    for _ in 0..1000 {
        h.update_history(Color::White, PieceType::Knight, Square(21), 128);
    }
    let v = h.get_history(Color::White, PieceType::Knight, Square(21));
    assert!(v <= 16384 && v > 16000);
    h.penalize_history(Color::Black, PieceType::Pawn, Square(3), 4);
    assert_eq!(h.get_history(Color::Black, PieceType::Pawn, Square(3)), -16);
}

#[test]
fn killer_moves() {
    let mut h = Heuristics::new();
    let a = Move::new(1, 18, 0);
    let b = Move::new(6, 21, 0);
    h.update_killer(a, 3);
    h.update_killer(b, 3);
    assert_eq!(h.killer_slot(b, 3), 1);
    assert_eq!(h.killer_slot(a, 3), 2);
    assert!(h.is_killer(a, 3));
    assert!(!h.is_killer(a, 4));
    h.update_killer(a, 500);
    assert!(!h.is_killer(a, 500));
}

#[test]
fn move_picker_hands_out_every_move() {
    let b = Board::new(net());
    let h = Heuristics::new();
    let mut p = MovePicker::new(None, 0, None, false, false);
    let mut n = 0;
    while let Some(m) = p.next(&h, &b) {
        assert!(b.is_pseudo_legal(m));
        n += 1;
    }
    assert_eq!(n, 20);
    let mut q = MovePicker::new(None, 0, None, true, false);
    assert!(q.next(&h, &b).is_none());
}

#[test]
fn root_moves_sorted_by_score() {
    let moves = vec![Move::new(1, 2, 0), Move::new(3, 4, 0), Move::new(5, 6, 0)];
    let mut l = RootMoveList::new(moves.clone());
    l.update_score(moves[1], 40);
    l.update_score(moves[2], 90);
    assert_eq!(l.moves[0].m, moves[2]);
    assert_eq!(l.moves[1].m, moves[1]);
    assert_eq!(l.steal(1), Some(moves[2]));
    assert_eq!(l.steal(1), Some(moves[1]));
    assert_eq!(l.steal(1), Some(moves[0]));
    assert_eq!(l.steal(1), None);
}

#[test]
fn network_file_bytes() {
    assert!(NNUE::load(&[0u8; 11]).is_none());
    let size = 16 + 22528 * 8 * 4 + 768 * 2 + 22528 * 768 + 4 + 16 * 4 + 16 * 3072 + 32 * 4 + 32 * 32 + 4 + 32;
    let mut data = vec![0u8; size];
    assert!(NNUE::load(&data[..size - 1]).is_none());
    let ob = size - 36;
    data[ob] = 0x00;
    data[ob + 1] = 0x40;
    let n = NNUE::load(&data).expect("complete file");
    assert_eq!(n.params.out_bias, 16384);
    let b = Board::new(Arc::new(n));
    let mut acc = b.accumulator.clone();
    acc.init_from_bias(&b.nnue.params);
    assert_eq!(b.nnue.evaluate(Color::White, &acc, 32), 128);
}

#[test]
fn magic_tables_match_ray_walks() {
    let tables = init_magics().expect("the magic numbers are collision free");
    let occupancies = [
        0u64,
        0xFFFF_0000_0000_FFFF,
        0x0000_0010_0800_0000,
        0x8142_2418_1824_4281,
        0x0123_4567_89AB_CDEF,
        u64::MAX,
    ];
    for s in 0..64u8 {
        for &occ in occupancies.iter() {
            let square = Square(s);
            let board = Bitboard(occ);
            assert_eq!(tables.rook_attacks(square, board), rook_attacks(square, board));
            assert_eq!(tables.bishop_attacks(square, board), bishop_attacks(square, board));
            assert_eq!(tables.queen_attacks(square, board), queen_attacks(square, board));
        }
    }
    // A rook on a1 of an empty board sees its rank and its file.
    assert_eq!(tables.rook_attacks(Square(0), Bitboard(0)).0, 0x0101_0101_0101_01FE);
    // A bishop on d4 blocked on f6 and b2.
    let blockers = (1u64 << 45) | (1u64 << 9);
    assert_eq!(
        tables.bishop_attacks(Square(27), Bitboard(blockers)).0,
        (1u64 << 36) | (1u64 << 45) | (1u64 << 18) | (1u64 << 9) | (1u64 << 34) | (1u64 << 41) | (1u64 << 48)
            | (1u64 << 20) | (1u64 << 13) | (1u64 << 6)
    );
}

#[test]
fn time_manager_limits() {
    let mut tm = TimeManager::new();
    assert_eq!(tm.opt_time, u128::MAX);
    assert_eq!(tm.max_time, u128::MAX);
    assert_eq!(tm.last_score, NO_SCORE);
    assert!(!tm.should_stop());
    tm.set_exact_limits(500, 1000);
    assert_eq!((tm.opt_time, tm.max_time, tm.base_opt_time), (500, 1000, 500));
    tm.opt_time = 900;
    tm.reset_to_base();
    assert_eq!(tm.opt_time, 500);
    tm.set_exact_limits(0, 0);
    assert!(tm.should_stop());
    assert!(!tm.can_start_next_iteration(10, 10));
}

#[test]
fn next_iteration_prediction() {
    // Without a speed only the soft limit counts.
    assert!(next_iteration_fits(100, 100, 1_000_000, 0, 500));
    assert!(!next_iteration_fits(500, 500, 0, 0, 500));
    // 2 * 1000 nodes at 10000 nodes per second: 200 ms more.
    assert!(next_iteration_fits(100, 150, 1000, 10_000, 350));
    assert!(!next_iteration_fits(100, 150, 1000, 10_000, 349));
    // The node count saturates instead of overflowing.
    assert!(!next_iteration_fits(0, 0, u64::MAX, 1, u128::from(u64::MAX)));
    assert!(next_iteration_fits(0, 0, u64::MAX, 1000, u128::from(u64::MAX)));
}

fn tokens(line: &str) -> Vec<String> {
    line.split_whitespace().map(String::from).collect()
}

#[test]
fn uci_commands() {
    assert_eq!(command_of(&tokens("uci")), UciCommand::Uci);
    assert_eq!(command_of(&tokens("isready")), UciCommand::IsReady);
    assert_eq!(command_of(&tokens("go depth 5")), UciCommand::Go);
    assert_eq!(command_of(&tokens("ucinewgame")), UciCommand::NewGame);
    assert_eq!(command_of(&tokens("position startpos")), UciCommand::Position);
    assert_eq!(command_of(&tokens("quit")), UciCommand::Quit);
    assert_eq!(command_of(&tokens("Go")), UciCommand::Other);
    assert_eq!(command_of(&Vec::new()), UciCommand::Other);
}

#[test]
fn uci_setoption() {
    assert_eq!(parse_setoption(&tokens("setoption name Threads value 100")), Some(EngineOption::Threads(64)));
    assert_eq!(parse_setoption(&tokens("setoption name threads value 0")), Some(EngineOption::Threads(1)));
    assert_eq!(parse_setoption(&tokens("setoption name THREADS value +8")), Some(EngineOption::Threads(8)));
    assert_eq!(parse_setoption(&tokens("setoption name Hash value 32")), Some(EngineOption::Hash(32)));
    assert_eq!(parse_setoption(&tokens("setoption name Hash value -1")), None);
    assert_eq!(parse_setoption(&tokens("setoption name Ponder value true")), None);
    assert_eq!(parse_setoption(&tokens("setoption name Hash")), None);
}

#[test]
fn uci_bench_arguments() {
    let t = tokens("bench 32 2 5 current");
    assert_eq!(parse_bench_args(&t, 1), BenchArgs { hash: 32, threads: 2, depth: 5, fen_start: 4 });
    assert_eq!(parse_bench_args(&tokens("bench"), 1), BenchArgs { hash: 16, threads: 1, depth: 13, fen_start: 1 });
    assert_eq!(parse_bench_args(&tokens("bench 64 0 0"), 1), BenchArgs { hash: 64, threads: 1, depth: 1, fen_start: 4 });
    let t = tokens("8 x 8/8/8/8/8/8/8/k6K w - - 0 1");
    assert_eq!(parse_bench_args(&t, 0), BenchArgs { hash: 8, threads: 1, depth: 13, fen_start: 1 });
}

#[test]
fn uci_go() {
    assert_eq!(parse_go(&tokens("go depth 8"), Color::White), Some(GoPlan { depth: 8, limits: TimeLimits::Unlimited }));
    assert_eq!(parse_go(&tokens("go"), Color::White), Some(GoPlan { depth: 6, limits: TimeLimits::Unlimited }));
    assert_eq!(parse_go(&tokens("go depth abc"), Color::Black), Some(GoPlan { depth: 6, limits: TimeLimits::Unlimited }));
    let t = tokens("go wtime 1000 btime 2000 winc 10 binc 20");
    assert_eq!(parse_go(&t, Color::White), Some(GoPlan { depth: 64, limits: TimeLimits::Clock(1000, 10) }));
    assert_eq!(parse_go(&t, Color::Black), Some(GoPlan { depth: 64, limits: TimeLimits::Clock(2000, 20) }));
    assert_eq!(parse_go(&tokens("go movetime 500 wtime 10"), Color::White), Some(GoPlan { depth: 64, limits: TimeLimits::Exact(500) }));
    assert_eq!(parse_go(&tokens("go wtime -5 depth 3"), Color::White), Some(GoPlan { depth: 3, limits: TimeLimits::Unlimited }));
    // A negative increment wraps as the cast to u128 does.
    assert_eq!(
        parse_go(&tokens("go btime 100 binc -1"), Color::Black),
        Some(GoPlan { depth: 64, limits: TimeLimits::Clock(100, u128::MAX) })
    );
    assert_eq!(parse_go(&tokens("go infinite depth"), Color::White), None);
}

#[test]
fn uci_position() {
    let mut b = Board::new(net());
    assert!(parse_position(&mut b, &tokens("position startpos moves e2e4 e7e5 g1f3"), net()));
    assert_eq!(b.fen(), "rnbqkbnr/pppp1ppp/8/4p3/4P3/5N2/PPPP1PPP/RNBQKB1R b KQkq - 1 2");
    let line = "position fen 8/P7/8/8/8/8/8/k6K w - - 0 1 moves a7a8q";
    assert!(parse_position(&mut b, &tokens(line), net()));
    assert_eq!(b.fen(), "Q7/8/8/8/8/8/8/k6K b - - 0 1");
    let line = "position fen r3k2r/8/8/8/8/8/8/R3K2R w KQkq - 0 1 moves e1g1 e8c8";
    assert!(parse_position(&mut b, &tokens(line), net()));
    assert_eq!(b.fen(), "2kr3r/8/8/8/8/8/8/R4RK1 w - - 2 2");
    // A piece beyond the board: the FEN cannot be read.
    let before = b.fen();
    assert!(!parse_position(&mut b, &tokens("position fen 8/8/8/8/8/8/8/8/K w - - 0 1"), net()));
    // An unknown letter: the FEN is refused and the board stays.
    let mut c = Board::new(net());
    assert!(parse_position(&mut c, &tokens("position fen 8/8/8/8/8/8/8/X7 w - - 0 1"), net()));
    assert_eq!(c.fen(), Board::new(net()).fen());
    // A move token that does not name squares.
    assert!(!parse_position(&mut c, &tokens("position startpos moves 1234"), net()));
    // Short tokens are skipped, unknown moves ignored.
    assert!(parse_position(&mut c, &tokens("position startpos moves e2 e2e5"), net()));
    assert_eq!(c.fen(), Board::new(net()).fen());
    let _ = before;
}

#[test]
fn fen_readability() {
    assert!(fen_readable(START_FEN));
    assert!(!fen_readable("8/8/8/8/8/8/8/8/K w - - 0 1"));
    assert!(!fen_readable("8/8/8/8/8/8/8/k6K w - z9 0 1"));
    assert!(fen_readable("8/8/8/8/8/8/8/X7 w - z9 0 1"));
    assert!(fen_readable("too short"));
}

#[test]
fn perft_divide_start_position() {
    let mut b = Board::new(net());
    let counts = divide(&mut b, 2);
    assert_eq!(counts.len(), 20);
    assert!(counts.iter().all(|&(_, n)| n == 20));
    assert_eq!(counts.iter().map(|&(_, n)| n).sum::<u64>(), 400);
    assert_eq!(b.fen(), START_FEN);
    assert!(divide(&mut b, 0).is_empty());
}

#[test]
fn move_coordinates() {
    assert_eq!(Move::new(12, 28, Move::FLAG_DBL_PUSH).to_uci(), "e2e4");
    assert_eq!(Move::new(48, 56, Move::FLAG_PR_QUEEN).to_uci(), "a7a8");
    assert_eq!(Move::new(63, 0, 0).to_uci(), "h8a1");
}

#[test]
fn network_fits_and_moves_can_be_made() {
    let b = Board::new(net());
    assert!(b.nnue.fits(Color::White, &b.accumulator));
    assert!(b.nnue.fits(Color::Black, &b.accumulator));
    assert!(b.can_make_move(Move::new(12, 28, Move::FLAG_DBL_PUSH)));
    assert!(!b.can_make_move(Move::new(28, 36, 0)));
    assert!(b.pseudo_legal_checkable(Move::new(12, 28, Move::FLAG_DBL_PUSH)));
}

#[test]
fn move_picker_hands_out_each_move_once_with_hints() {
    let b = Board::new(net());
    let mut h = Heuristics::new();
    let knight = Move::new(sq("g1"), sq("f3"), Move::FLAG_QUIET);
    let other = Move::new(sq("b1"), sq("c3"), Move::FLAG_QUIET);
    h.update_killer(knight, 0);
    h.update_killer(other, 0);
    let tt = Move::new(sq("e2"), sq("e4"), Move::FLAG_DBL_PUSH);
    let counter = Move::new(sq("d2"), sq("d4"), Move::FLAG_DBL_PUSH);
    let mut p = MovePicker::new(Some(tt), 0, Some(counter), false, false);
    let mut seen: Vec<Move> = Vec::new();
    while let Some(m) = p.next(&h, &b) {
        assert!(!seen.contains(&m));
        seen.push(m);
    }
    assert_eq!(seen.len(), 20);
    assert_eq!(seen[0], tt);
    assert!(seen[1] == other || seen[1] == knight);
    assert!(seen[2] == other || seen[2] == knight);
    assert_eq!(seen[3], counter);
    let mut list = MoveList::new();
    generate_pseudo_legal_moves(&b, &mut list);
    for m in list.moves.iter() {
        assert!(seen.contains(m));
    }
}

#[test]
fn move_picker_in_check_hands_out_every_evasion() {
    let b = board("4k3/8/8/8/8/8/4r3/4K3 w - - 0 1");
    let h = Heuristics::new();
    let mut p = MovePicker::new(None, 0, None, false, true);
    let mut seen: Vec<Move> = Vec::new();
    while let Some(m) = p.next(&h, &b) {
        seen.push(m);
    }
    let mut list = MoveList::new();
    generate_pseudo_legal_moves(&b, &mut list);
    assert_eq!(seen.len(), list.moves.len());
    for m in list.moves.iter() {
        assert!(seen.contains(m));
    }
}

#[test]
fn search_rules_exact_values() {
    assert_eq!(draw_score(0), -1);
    assert_eq!(draw_score(2), 1);
    assert_eq!(draw_score(5), -1);
    assert_eq!(mate_distance_window(-INF, INF, 3), (-MATE_SCORE + 3, MATE_SCORE - 4));
    assert_eq!(mate_distance_window(10, 20, 3), (10, 20));
    assert_eq!(tt_cutoff(NodeType::Exact, 7, 0, 10), Some(7));
    assert_eq!(tt_cutoff(NodeType::Alpha, -5, 0, 10), Some(0));
    assert_eq!(tt_cutoff(NodeType::Alpha, 5, 0, 10), None);
    assert_eq!(tt_cutoff(NodeType::Beta, 15, 0, 10), Some(10));
    assert_eq!(tt_cutoff(NodeType::NoEntry, 15, 0, 10), None);
    assert_eq!(corrected_eval(100, 3 * 131072 + 5), 103);
    assert_eq!(corrected_eval(100, -(3 * 131072 + 5)), 97);
    assert_eq!(corrected_eval(60000, 0), MATE_SCORE - 1);
    assert_eq!(eval_with_tt(NodeType::Beta, 50, 20), 50);
    assert_eq!(eval_with_tt(NodeType::Beta, 10, 20), 20);
    assert_eq!(eval_with_tt(NodeType::Alpha, 10, 20), 10);
    assert_eq!(hindsight_depth(5, 3, false, None), 6);
    assert_eq!(hindsight_depth(5, 3, false, Some(200)), 5);
    assert_eq!(hindsight_depth(5, 2, true, Some(200)), 4);
    assert_eq!(hindsight_depth(255, 3, false, None), 255);
    assert!(razoring_applies(0, 1000, 1));
    assert!(!razoring_applies(0, 766, 1));
    assert_eq!(reverse_futility(500, 100, 2, true, false, false, 0, false), Some((200 + 500) / 3));
    assert_eq!(reverse_futility(160, 100, 2, true, false, false, 0, false), None);
    assert_eq!(reverse_futility(500, 100, 2, true, false, false, 0, true), None);
    assert!(null_move_applies(true, 414, 100, 2, true, 0, 0));
    assert!(!null_move_applies(true, 413, 100, 2, true, 0, 0));
    assert!(!null_move_applies(false, 100, 100, 2, true, 0, 0));
    assert_eq!(null_move_reduction(9), 10);
    assert_eq!(lmp_threshold(3, false), 6);
    assert_eq!(lmp_threshold(3, true), 12);
    assert_eq!(lmr_depth(5, 2048), 2);
    assert_eq!(lmr_depth(0, 0), 0);
    assert!(capture_futile(0, 1, 100, 0, 600));
    assert!(!capture_futile(0, 7, 100, 0, 600));
    assert_eq!(capture_see_margin(2, 58), 334);
    assert_eq!(capture_see_margin(0, -580), 0);
    assert_eq!(quiet_lmr_depth(2, 3208, 0), 3);
    assert_eq!(quiet_futility_value(100, true, 1, 50), 100 + 42 + 161 + 127 + 85);
    assert_eq!(singular_beta(300, false, false, 6), 300 - 53 * 6 / 60);
    assert_eq!(singular_beta(300, true, false, 6), 300 - 128 * 6 / 60);
    assert_eq!(singular_extension(0, 100, false, false, true, 0), 3);
    assert_eq!(singular_extension(99, 100, true, false, true, 0), 1);
    assert_eq!(singular_extension(-50, 100, true, false, true, 0), 2);
    let f = LmrFactors {
        base: 2000,
        tt_pv: false,
        pv_node: false,
        cut_node: false,
        tt_score_above_alpha: false,
        tt_deep: false,
        legal_moves: 4,
        correction: 0,
        has_tt_move: true,
        tt_move_captures: false,
        child_cutoffs: 0,
        is_tt_move: false,
        stat_score: 0,
    };
    assert_eq!(reduction(&f), 2000 + 714 - 4 * 73);
    assert_eq!(late_move_depth(8, &f), 6);
    let g = LmrFactors { pv_node: true, ..f };
    assert_eq!(late_move_depth(8, &g), 7);
    assert_eq!(research_depth(6, 4, 200, 100), 7);
    assert_eq!(research_depth(6, 4, 100, 95), 5);
    assert_eq!(cutoff_score(100, 3, 200), 125);
    assert_eq!(cutoff_score(MATE_SCORE - 3, 3, 200), MATE_SCORE - 3);
    assert_eq!(bound_type(10, 10, 0), NodeType::Beta);
    assert_eq!(bound_type(5, 10, 0), NodeType::Exact);
    assert_eq!(bound_type(0, 10, 0), NodeType::Alpha);
    assert!(delta_pruned(0, 100, 301));
    assert!(!delta_pruned(0, 100, 300));
    assert_eq!(aspiration_delta(300), 15);
    assert_eq!(aspiration_delta(-300), 15);
    assert_eq!(next_average(10, 20, 2), 15);
    assert_eq!(next_average(10, 20, 1), 20);
    assert_eq!(mate_in(MATE_SCORE - 5), 3);
    assert_eq!(mate_in(-(MATE_SCORE - 5)), 3);
}

#[test]
fn tablebase_scores() {
    assert_eq!(tb_score(Wdl::Win, 3, 1), TB_SCORE - 3);
    assert_eq!(tb_score(Wdl::Loss, 3, 1), -TB_SCORE + 3);
    assert_eq!(tb_score(Wdl::CursedWin, 3, -1), -1);
    assert_eq!(root_tb_score(Wdl::Win), TB_SCORE);
    assert_eq!(root_tb_score(Wdl::BlessedLoss), 0);
    let promo = Move::new(sq("a7"), sq("a8"), Move::FLAG_PR_QUEEN);
    let quiet = Move::new(sq("a7"), sq("a6"), Move::FLAG_QUIET);
    assert!(tb_move_matches(promo, sq("a7"), sq("a8"), true));
    assert!(!tb_move_matches(quiet, sq("a7"), sq("a6"), true));
    assert!(tb_move_matches(quiet, sq("a7"), sq("a6"), false));
    assert!(!tb_move_matches(quiet, sq("a7"), sq("a5"), false));
}

#[test]
fn generated_moves_are_distinct() {
    let b = board(KIWIPETE);
    let mut list = MoveList::new();
    generate_pseudo_legal_moves(&b, &mut list);
    for i in 0..list.moves.len() {
        for j in (i + 1)..list.moves.len() {
            assert_ne!(list.moves[i], list.moves[j]);
        }
    }
    let mut caps = MoveList::new();
    generate_pseudo_legal_captures(&b, &mut caps);
    for i in 0..caps.moves.len() {
        for j in (i + 1)..caps.moves.len() {
            assert_ne!(caps.moves[i], caps.moves[j]);
        }
    }
}

#[test]
fn divide_counts_add_up_to_perft() {
    let mut b = board(KIWIPETE);
    let counts = divide(&mut b, 2);
    assert_eq!(counts.len(), 48);
    let total: u64 = counts.iter().map(|&(_, n)| n).sum();
    assert_eq!(total, perft(&mut b, 2));
    assert_eq!(b.fen(), KIWIPETE);
}

#[test]
fn black_perspective_turns_the_board() {
    assert_eq!(orient_sq(Square(1), Color::White), 1);
    assert_eq!(orient_sq(Square(1), Color::Black), 62);
    assert_eq!(orient_sq(Square(sq("e2")), Color::Black), sq("d7") as usize);
    let a1 = feature_index_for_perspective(Color::Black, Square(60), Square(0), PieceType::Pawn, Color::White);
    let h8 = feature_index_for_perspective(Color::Black, Square(60), Square(63), PieceType::Pawn, Color::White);
    assert_eq!(a1 - h8, 63);
}

struct NeverStop {
    nodes: u64,
}

impl SearchEnv for NeverStop {
    fn stop_requested(&mut self) -> bool {
        self.nodes += 1;
        false
    }
}

struct StopNow;

impl SearchEnv for StopNow {
    fn stop_requested(&mut self) -> bool {
        true
    }
}

#[test]
fn quiescence_stands_pat_in_a_quiet_position() {
    let mut b = Board::new(net());
    let h = Heuristics::new();
    let stand = static_eval(&b).expect("the network fits");
    let mut env = NeverStop { nodes: 0 };
    let (v, stopped) = quiescence(&mut env, &h, &mut b, 0, -INF, INF).expect("the network fits");
    assert!(!stopped);
    assert_eq!(v, stand);
    assert_eq!(env.nodes, 1);
    assert_eq!(b.fen(), START_FEN);
    let (v, _) = quiescence(&mut env, &h, &mut b, 0, stand + 1, stand + 10).expect("the network fits");
    assert_eq!(v, stand + 1);
    let v = quiescence(&mut StopNow, &h, &mut b, 0, -INF, INF);
    assert_eq!(v, Some((0, true)));
}

#[test]
fn quiescence_searches_captures_and_restores_the_board() {
    let mut b = board(KIWIPETE);
    let h = Heuristics::new();
    let mut env = NeverStop { nodes: 0 };
    let (v, _) = quiescence(&mut env, &h, &mut b, 0, -1000, 1000).expect("the network fits");
    assert!((-1000..=1000).contains(&v));
    assert!(env.nodes > 1);
    assert_eq!(b.fen(), KIWIPETE);
}

#[test]
fn quiescence_picker_hands_out_winning_captures_then_stays_done() {
    let b = board(KIWIPETE);
    let h = Heuristics::new();
    let mut p = MovePicker::new(None, 0, None, true, false);
    let mut seen = 0;
    while let Some(m) = p.next(&h, &b) {
        assert!(m.is_capture() || m.is_promotion());
        assert!(b.see_ge(m, 0));
        seen += 1;
    }
    assert!(seen > 0);
    assert!(p.next(&h, &b).is_none());
    p.skip_quiets();
    assert!(p.next(&h, &b).is_none());
    assert!(p.next(&h, &Board::new(net())).is_none());
}

#[test]
fn exchange_test_is_monotone_in_its_threshold() {
    let b = board(KIWIPETE);
    let mut caps = MoveList::new();
    generate_pseudo_legal_captures(&b, &mut caps);
    for m in &caps.moves {
        let mut prev = true;
        for t in (-1000..=1000).step_by(50) {
            let now = b.see_ge(*m, t);
            assert!(prev || !now);
            prev = now;
        }
    }
}

#[test]
fn lone_kings_and_minor_pieces_are_draws() {
    let kk = board("4k3/8/8/8/8/8/8/4K3 w - - 0 1");
    assert_eq!(endgame_evaluate(&kk, 300), 0);
    let knn = board("4k3/8/8/8/8/8/8/1NN1K3 w - - 0 1");
    assert_eq!(endgame_evaluate(&knn, 250), 0);
    let kb = board("4k3/8/8/8/8/8/8/2B1K3 b - - 0 1");
    assert_eq!(endgame_evaluate(&kb, -40), 0);
    let kr = board("4k3/8/8/8/8/8/8/R3K3 w - - 0 1");
    assert_eq!(endgame_evaluate(&kr, 700), 700);
}

#[test]
fn aspiration_window_steps() {
    let w = aspiration_start(0);
    assert_eq!((w.alpha, w.beta, w.delta), (-5, 5, 5));
    match aspiration_next(&w, 2) {
        AspirationStep::Accept(v) => assert_eq!(v, 2),
        _ => panic!("inside the window"),
    }
    match aspiration_next(&w, -5) {
        AspirationStep::Fail { low, next: Some(n) } => {
            assert!(low);
            assert_eq!((n.alpha, n.beta, n.delta), (-5, 0, 6));
        }
        _ => panic!("fails low"),
    }
    match aspiration_next(&w, 9) {
        AspirationStep::Fail { low, next: Some(n) } => {
            assert!(!low);
            assert_eq!((n.alpha, n.beta, n.delta), (-5, 5, 6));
        }
        _ => panic!("fails high"),
    }
    let wide = aspiration_start(5000);
    assert_eq!(wide.delta, 5 + 5000 * 5000 / 9000);
    match aspiration_next(&wide, -INF) {
        AspirationStep::Fail { low, next: None } => assert!(low),
        _ => panic!("falls back to the full window"),
    }
}

#[test]
fn handing_the_move_over_negates_the_material_score() {
    let w = board("4k3/8/8/8/8/8/8/3QK3 w - - 0 1");
    let b = board("4k3/8/8/8/8/8/8/3QK3 b - - 0 1");
    assert_eq!(evaluate(&w), -evaluate(&b));
    assert!(evaluate(&w) > 0);
}
