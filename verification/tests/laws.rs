use lucky_chess::bench::nodes_in_info;
use lucky_chess::board::Board;
use lucky_chess::chess_move::{Move, MoveFlags};
use lucky_chess::eval::eval_board;
use lucky_chess::fen::compute_hash;
use lucky_chess::generator::{MoveGenerator, MoveListPtr};
use lucky_chess::history::{ContinuationHistoryTable, HistoryTable};
use lucky_chess::manager::ChessGame;
use lucky_chess::movegen::MoveList;
use lucky_chess::square::Sq;

fn chars(s: &str) -> Vec<char> {
    s.chars().collect()
}

#[test]
fn fen_text_reads_back_unchanged() {
    let fens = [
        "rnbqkbnr/pppppppp/8/8/8/8/PPPPPPPP/RNBQKBNR w KQkq - 0 1",
        "r3k2r/p1ppqpb1/bn2pnp1/3PN3/1p2P3/2N2Q1p/PPPBBPPP/R3K2R w KQkq - 0 1",
        "rnbqkbnr/ppp1pppp/8/8/3pP3/8/PPPP1PPP/RNBQKBNR b KQkq e3 0 3",
        "4rrk1/pp1n3p/3q2pQ/2p1pb2/2PP4/2P3N1/P2B2PP/4RRK1 b - - 7 19",
        "8/8/8/8/8/8/8/K6k w - - 99 120",
    ];
    for fen in fens {
        let board = Board::from_fen(fen).unwrap();
        assert_eq!(board.to_fen(), fen);
        let again = Board::from_fen(&board.to_fen()).unwrap();
        assert_eq!(again.to_fen(), fen);
        assert_eq!(again.hash, board.hash);
    }
}

#[test]
fn mirrored_positions_evaluate_alike() {
    let pairs = [
        ("4k3/8/8/8/4N3/8/8/4K3 w - - 0 1", "4k3/8/8/4n3/8/8/8/4K3 b - - 0 1"),
        (
            "r1bqkbnr/pppp1ppp/2n5/4p3/4P3/5N2/PPPP1PPP/RNBQKB1R w KQkq - 2 3",
            "rnbqkb1r/pppp1ppp/5n2/4p3/4P3/2N5/PPPP1PPP/R1BQKBNR b KQkq - 2 3",
        ),
        ("7k/8/8/8/8/8/1P6/K7 b - - 0 1", "k7/1p6/8/8/8/8/8/7K w - - 0 1"),
    ];
    for (a, b) in pairs {
        let ba = Board::from_fen(a).unwrap();
        let bb = Board::from_fen(b).unwrap();
        assert_eq!(eval_board(&ba), eval_board(&bb));
    }
}

#[test]
fn node_counts_are_read_from_info_lines() {
    assert_eq!(nodes_in_info(&chars("info depth 5 score cp 20 nodes 12345 nps 100 time 3")), Some(12345));
    assert_eq!(nodes_in_info(&chars("nodes   42")), Some(42));
    assert_eq!(nodes_in_info(&chars("nodes +7 x")), Some(7));
    assert_eq!(nodes_in_info(&chars("info nodes 12x")), None);
    assert_eq!(nodes_in_info(&chars("info depth 5")), None);
    assert_eq!(nodes_in_info(&chars("nodes ")), None);
    assert_eq!(nodes_in_info(&chars("nodes 18446744073709551615")), Some(u64::MAX));
    assert_eq!(nodes_in_info(&chars("nodes 18446744073709551616")), None);
    assert_eq!(nodes_in_info(&chars("xnodes 5 nodes 6")), Some(5));
}

#[test]
fn loading_stops_at_a_refused_move() {
    let mut game = ChessGame::new(true);
    let e2e4 = Move::new(Sq::E2, Sq::E4, MoveFlags::DoublePawn).bits() as i32;
    let e7e5 = Move::new(Sq::E7, Sq::E5, MoveFlags::DoublePawn).bits() as i32;
    let bad = Move::new(Sq::E4, Sq::E6, MoveFlags::Quiet).bits() as i32;
    let start = "rnbqkbnr/pppppppp/8/8/8/8/PPPPPPPP/RNBQKBNR w KQkq - 0 1";
    assert!(game.load_fen_moves(start, &[e2e4, bad, e7e5], true).is_none());
    assert_eq!(game.get_snapshot().current_move_index, 0);
    let snap = game.load_fen_moves(start, &[e2e4, e7e5, 0, bad], false).unwrap();
    assert_eq!(snap.current_move_index, 1);
    assert_eq!(game.get_current_fen(), "rnbqkbnr/pppp1ppp/8/4p3/4P3/8/PPPP1PPP/RNBQKBNR w KQkq - 0 2");
    assert!(game.load_fen_moves("not a fen", &[], true).is_none());
    assert_eq!(game.get_snapshot().current_move_index, 1);
}

#[test]
fn undoing_a_move_gives_back_the_position() {
    let mut game = ChessGame::new(false);
    let before = game.get_current_fen();
    let g1f3 = Move::new(Sq::G1, Sq::F3, MoveFlags::Quiet).bits() as i32;
    game.make_move(g1f3);
    assert_ne!(game.get_current_fen(), before);
    assert!(game.undo_single_ply());
    assert_eq!(game.get_current_fen(), before);
    let snap = game.redo().unwrap();
    assert_eq!(snap.current_move_index, 0);
    assert!(!snap.is_white_turn);
}

#[test]
fn table_move_first_and_bad_captures_last() {
    // White's queen on d4 can take the pawn on d6, which e7 defends (a losing capture), or the free
    // knight on a7 (a winning one).
    let board = Board::from_fen("4k3/n3p3/3p4/8/3Q4/8/8/4K3 w - - 0 1").unwrap();
    let tt = Move::new(Sq::E1, Sq::F1, MoveFlags::Quiet);
    let history = HistoryTable::new();
    let cont = ContinuationHistoryTable::new();
    let killers = [Move::none(), Move::none()];
    let keys = [None, None];
    let mut buf = MoveList::new();
    let mut generator = MoveGenerator::new(MoveListPtr(0), tt);
    let mut seen = Vec::new();
    while let Some(sm) = generator.next(&board, &mut buf, killers, &history, &cont, &keys) {
        seen.push(sm);
    }
    assert_eq!(seen[0].mov, tt);
    assert_eq!(seen.iter().filter(|sm| sm.mov == tt).count(), 1);
    let first_bad = seen.iter().position(|sm| sm.score < 0).unwrap();
    let last_quiet = seen.iter().rposition(|sm| sm.mov.is_quiet() && sm.mov != tt).unwrap();
    assert!(last_quiet < first_bad);
    let qxa7 = seen.iter().position(|sm| sm.mov.to() == Sq::A7).unwrap();
    assert!(qxa7 < last_quiet);
}

#[test]
fn incremental_hash_matches_recomputation() {
    // Castling, a capture, en passant and a promotion, each checked against the hash
    // computed from scratch.
    let cases = [
        ("r3k2r/8/8/8/8/8/8/R3K2R w KQkq - 0 1", Move::new(Sq::E1, Sq::G1, MoveFlags::CastleKing)),
        ("r3k2r/8/8/8/8/8/8/R3K2R b KQkq - 0 1", Move::new(Sq::E8, Sq::C8, MoveFlags::CastleQueen)),
        ("4k3/8/8/3p4/4P3/8/8/4K3 w - - 0 1", Move::new(Sq::E4, Sq::D5, MoveFlags::Capture)),
        ("4k3/8/8/3pP3/8/8/8/4K3 w - d6 0 2", Move::new(Sq::E5, Sq::D6, MoveFlags::EnPassant)),
        ("8/4P3/8/8/8/8/k7/4K3 w - - 0 1", Move::new(Sq::E7, Sq::E8, MoveFlags::PromoQueen)),
        ("rnbqkbnr/pppppppp/8/8/8/8/PPPPPPPP/RNBQKBNR w KQkq - 0 1", Move::new(Sq::E2, Sq::E4, MoveFlags::DoublePawn)),
    ];
    for (fen, mov) in cases {
        let mut board = Board::from_fen(fen).unwrap();
        assert_eq!(board.hash, compute_hash(&board));
        board.make_move(mov);
        assert_eq!(board.hash, compute_hash(&board));
    }
}

#[test]
fn null_move_keeps_the_hash_consistent() {
    for fen in [
        "4k3/8/8/3pP3/8/8/8/4K3 w - d6 0 2",
        "r3k2r/8/8/8/8/8/8/R3K2R b KQkq - 0 1",
    ] {
        let mut board = Board::from_fen(fen).unwrap();
        board.make_null_move();
        assert_eq!(board.hash, compute_hash(&board));
    }
}

#[test]
fn search_gives_up_only_without_a_legal_move() {
    use_search("7k/5Q2/6K1/8/8/8/8/8 b - - 0 1", true);
    use_search("7k/8/6K1/8/8/8/8/5Q2 b - - 0 1", false);
}

fn use_search(fen: &str, stalemated: bool) {
    let board = Board::from_fen(fen).unwrap();
    let stop = std::sync::atomic::AtomicBool::new(false);
    let mut tt = lucky_chess::transposition::TranspositionTable::new(1);
    let mut info = Vec::new();
    let best = lucky_chess::search::search(board, lucky_chess::time::TimeManager::from_depth(2), &stop, &mut tt, &mut info);
    assert_eq!(best.is_none(), stalemated);
}

#[test]
fn diagram_of_the_start_position() {
    let text = Board::start_pos().diagram();
    let lines: Vec<&str> = text.lines().collect();
    assert_eq!(lines[0], "  +---+---+---+---+---+---+---+---+");
    assert_eq!(lines[1], "8 | r | n | b | q | k | b | n | r |");
    assert_eq!(lines[13], "2 | P | P | P | P | P | P | P | P |");
    assert_eq!(lines[15], "1 | R | N | B | Q | K | B | N | R |");
    assert_eq!(lines[17], "    a   b   c   d   e   f   g   h");
    assert_eq!(lines[18], "");
    assert_eq!(lines[19], "Side to move: White");
    assert_eq!(lines[20], "Castling:     CastlingRights(WHITE_00 | WHITE_000 | BLACK_00 | BLACK_000)");
    assert_eq!(lines[21], "En passant:   -");
    assert_eq!(lines[22], "Half-move:    0");
    assert_eq!(lines[23], "Ply:          0");
    let later = Board::from_fen("4k3/8/8/3pP3/8/8/8/4K3 w - d6 0 2").unwrap().diagram();
    assert!(later.contains("Castling:     CastlingRights(0x0)\n"));
    assert!(later.contains("En passant:   d6\n"));
    assert!(later.ends_with("Ply:          2"));
}

#[test]
fn output_buckets_follow_the_piece_count() {
    use_bucket(2, 0);
    use_bucket(5, 0);
    use_bucket(6, 1);
    use_bucket(32, 7);
    use_bucket(33, 7);
}

fn use_bucket(pieces: usize, bucket: usize) {
    assert_eq!(lucky_chess::nnue::Network::bucket_index(pieces), bucket);
}

#[test]
fn info_lines_report_a_finished_depth() {
    let pv = vec![
        Move::new(Sq::E2, Sq::E4, MoveFlags::DoublePawn),
        Move::new(Sq::E7, Sq::E5, MoveFlags::DoublePawn),
    ];
    assert_eq!(
        lucky_chess::search::info_line(5, 7, 20, 1000, 12345, 3, &pv, 2),
        "info depth 5 seldepth 7 score cp 20 time 1000 nps 12345 nodes 12345 hashfull 3 pv e2e4 e7e5"
    );
    assert_eq!(
        lucky_chess::search::info_line(1, 1, -30, 4, 10, 0, &pv, 0),
        "info depth 1 seldepth 1 score cp -30 time 4 nps 2500 nodes 10 hashfull 0 pv "
    );
}

#[test]
fn perft_suite_lists_known_counts() {
    let suite = lucky_chess::perft::perft_suite();
    assert_eq!(suite.len(), 7);
    assert_eq!(suite[0].name, "Start Position");
    assert_eq!(suite[0].expected[2], 8902);
    assert_eq!(suite[1].default_depth, 4);
    assert_eq!(suite[1].expected.len(), 6);
}

#[test]
fn perft_depth_limit_caps_at_known_counts() {
    let suite = lucky_chess::perft::perft_suite();
    assert_eq!(suite[0].depth_limit(None), 5);
    assert_eq!(suite[0].depth_limit(Some(3)), 3);
    assert_eq!(suite[0].depth_limit(Some(20)), 8);
    assert_eq!(suite[5].depth_limit(Some(9)), 5);
}

#[test]
fn generation_pass_by_type_parameters() {
    let board = Board::from_fen("rnbqkbnr/pppppppp/8/8/8/8/PPPPPPPP/RNBQKBNR w KQkq - 0 1").unwrap();
    assert_eq!(lucky_chess::movegen::gen_moves::<lucky_chess::color::White, lucky_chess::movegen::Quiets>(&board).len(), 20);
    assert_eq!(lucky_chess::movegen::gen_moves::<lucky_chess::color::White, lucky_chess::movegen::Captures>(&board).len(), 0);
    assert_eq!(lucky_chess::movegen::gen_moves::<lucky_chess::color::Black, lucky_chess::movegen::Quiets>(&board).len(), 0);
}

#[test]
fn new_game_starts_from_the_standard_position() {
    let game = ChessGame::new(true);
    assert_eq!(game.get_start_fen(), "rnbqkbnr/pppppppp/8/8/8/8/PPPPPPPP/RNBQKBNR w KQkq - 0 1");
    assert_eq!(game.get_current_fen(), "rnbqkbnr/pppppppp/8/8/8/8/PPPPPPPP/RNBQKBNR w KQkq - 0 1");
}

#[test]
fn exchange_evaluation_takes_any_threshold() {
    let board = Board::from_fen("4k3/8/8/3p4/4P3/8/8/4K3 w - - 0 1").unwrap();
    let exd5 = Move::new(Sq::E4, Sq::D5, MoveFlags::Capture);
    assert!(lucky_chess::scoring::see_ge(exd5, &board, i32::MIN));
    assert!(!lucky_chess::scoring::see_ge(exd5, &board, i32::MAX));
}

#[test]
fn special_moves_are_pseudo_legal_exactly_when_generated() {
    let board = Board::from_fen("r3k2r/p1ppqpb1/bn2pnp1/3PN3/1p2P3/2N2Q1p/PPPBBPPP/R3K2R w KQkq - 0 1").unwrap();
    assert!(board.pseudo_legal(Move::new(Sq::E1, Sq::G1, MoveFlags::CastleKing)));
    assert!(board.pseudo_legal(Move::new(Sq::E1, Sq::C1, MoveFlags::CastleQueen)));
    assert!(!board.pseudo_legal(Move::new(Sq::E1, Sq::G1, MoveFlags::CastleQueen)));
    assert!(!board.pseudo_legal(Move::new(Sq::D5, Sq::D6, MoveFlags::PromoQueen)));
}

#[test]
fn search_reports_one_line_per_depth_in_order() {
    let stop = std::sync::atomic::AtomicBool::new(false);
    let mut tt = lucky_chess::transposition::TranspositionTable::new(1);
    let mut info = Vec::new();
    let board = Board::from_fen("r3k2r/p1ppqpb1/bn2pnp1/3PN3/1p2P3/2N2Q1p/PPPBBPPP/R3K2R w KQkq - 0 1").unwrap();
    let _ = lucky_chess::search::search(board, lucky_chess::time::TimeManager::from_depth(3), &stop, &mut tt, &mut info);
    assert_eq!(info.len(), 3);
    for (k, line) in info.iter().enumerate() {
        assert!(line.starts_with(&format!("info depth {} seldepth ", k + 1)));
    }
}

#[test]
fn engine_stop_handle_is_the_engine_flag() {
    let engine = lucky_chess::engine::SearchEngine::new(1);
    let handle = engine.stop_handle();
    assert!(std::sync::Arc::ptr_eq(&handle, &engine.stop_flag));
}

#[test]
fn perft_suite_entry_check_passes_at_small_depth() {
    let suite = lucky_chess::perft::perft_suite();
    let run = lucky_chess::perft::run_perft_entry(&suite[0], Some(3)).unwrap();
    assert!(run.passed);
    assert_eq!(run.steps.len(), 3);
    assert_eq!(run.steps[2].nodes, 8902);
    assert_eq!(run.leaf_nodes, 8902);
}

#[test]
fn evaluation_changes_sign_with_the_side_to_move() {
    let w = Board::from_fen("4k3/8/8/3p4/4P3/8/8/4KQ2 w - - 0 1").unwrap();
    let b = Board::from_fen("4k3/8/8/3p4/4P3/8/8/4KQ2 b - - 0 1").unwrap();
    assert_eq!(eval_board(&b), -eval_board(&w));
    assert!(eval_board(&w) > 0);
}

#[test]
fn bench_ends_with_its_summary() {
    let mut lines = Vec::new();
    let total = lucky_chess::bench::run_bench(1, 1, &mut lines);
    assert_eq!(lines.len(), 36);
    assert_eq!(lines[32], "===========================");
    assert!(lines[33].starts_with("Total time (ms) : "));
    assert_eq!(lines[34], format!("Nodes searched  : {}", total));
    let mut again = Vec::new();
    assert_eq!(lucky_chess::bench::run_bench(1, 1, &mut again), total);
}
