use lucky_chess::board::Board;
use lucky_chess::chess_move::{Move, MoveFlags};
use lucky_chess::color::Color;
use lucky_chess::fen::START_POS_FEN;
use lucky_chess::history::HistoryTable;
use lucky_chess::manager::{calculate_game_state, ChessGame, GameState};
use lucky_chess::movegen::gen_all_moves;
use lucky_chess::perft::perft;
use lucky_chess::scoring::see_ge;
use lucky_chess::search::search;
use lucky_chess::square::Sq;
use lucky_chess::stack::SearchStack;
use lucky_chess::time::{SearchOptions, TimeManager};
use lucky_chess::transposition::{TTEntry, TranspositionTable};
use lucky_chess::uci::{format_move, format_score};
use std::sync::atomic::AtomicBool;

fn perft_of(fen: &str, depth: u8) -> u64 {
    let mut board = Board::from_fen(fen).unwrap();
    let before = board.to_fen();
    let nodes = perft(&mut board, depth);
    assert_eq!(board.to_fen(), before);
    nodes
}

#[test]
fn start_position_round_trips_through_fen() {
    assert_eq!(Board::start_pos().to_fen(), START_POS_FEN);
    let fen = "r3k2r/p1ppqpb1/bn2pnp1/3PN3/1p2P3/2N2Q1p/PPPBBPPP/R3K2R w KQkq - 0 1";
    assert_eq!(Board::from_fen(fen).unwrap().to_fen(), fen);
    let fen2 = "8/8/8/3pP3/8/8/8/4K2k w - d6 12 40";
    assert_eq!(Board::from_fen(fen2).unwrap().to_fen(), fen2);
}

#[test]
fn malformed_fens_are_refused() {
    assert!(Board::from_fen("").is_none());
    assert!(Board::from_fen("8/8/8/8/8/8/8 w - - 0 1").is_none());
    assert!(Board::from_fen("9/8/8/8/8/8/8/8 w - - 0 1").is_none());
    assert!(Board::from_fen("8/8/8/8/8/8/8/8 x - - 0 1").is_none());
    assert!(Board::from_fen("8/8/8/8/8/8/8/8 w KX - 0 1").is_none());
    assert!(Board::from_fen("8/8/8/8/8/8/8/8 w - z9 0 1").is_none());
    assert!(Board::from_fen("8/8/8/8/8/8/8/8 w - - 256 1").is_none());
    assert!(Board::from_fen("4k3/8/8/8/8/8/8/4K3 w - -").is_some());
}

#[test]
fn perft_start_position() {
    assert_eq!(perft_of(START_POS_FEN, 0), 1);
    assert_eq!(perft_of(START_POS_FEN, 1), 20);
    assert_eq!(perft_of(START_POS_FEN, 2), 400);
    assert_eq!(perft_of(START_POS_FEN, 3), 8902);
}

#[test]
fn perft_tricky_positions() {
    let kiwipete = "r3k2r/p1ppqpb1/bn2pnp1/3PN3/1p2P3/2N2Q1p/PPPBBPPP/R3K2R w KQkq - 0 1";
    assert_eq!(perft_of(kiwipete, 1), 48);
    assert_eq!(perft_of(kiwipete, 2), 2039);
    let pos3 = "8/2p5/3p4/KP5r/1R3p1k/8/4P1P1/8 w - - 0 1";
    assert_eq!(perft_of(pos3, 3), 2812);
    let pos4 = "r3k2r/Pppp1ppp/1b3nbN/nP6/BBP1P3/q4N2/Pp1P2PP/R2Q1RK1 w kq - 0 1";
    assert_eq!(perft_of(pos4, 2), 264);
    let pos5 = "rnbq1k1r/pp1Pbppp/2p5/8/2B5/8/PPP1NnPP/RNBQK2R w KQ - 1 8";
    assert_eq!(perft_of(pos5, 2), 1486);
}

#[test]
fn make_and_undo_restore_the_position() {
    let mut board = Board::start_pos();
    let before = board.to_fen();
    let hash = board.hash;
    let mov = Move::new(Sq::E2, Sq::E4, MoveFlags::DoublePawn);
    let undo = board.make_move(mov);
    assert_ne!(board.hash, hash);
    assert_eq!(board.to_fen(), "rnbqkbnr/pppppppp/8/8/4P3/8/PPPP1PPP/RNBQKBNR b KQkq - 0 1");
    board.undo_move(mov, undo);
    assert_eq!(board.to_fen(), before);
    assert_eq!(board.hash, hash);
}

#[test]
fn moves_are_written_in_coordinate_notation() {
    assert_eq!(format_move(Move::new(Sq::E2, Sq::E4, MoveFlags::DoublePawn)), "e2e4");
    assert_eq!(format_move(Move::new(Sq::E7, Sq::E8, MoveFlags::PromoQueen)), "e7e8q");
    assert_eq!(format_move(Move::new(Sq::B2, Sq::A1, MoveFlags::PromoCaptureKnight)), "b2a1n");
}

#[test]
fn scores_are_written_as_centipawns_or_mates() {
    assert_eq!(format_score(150), "cp 150");
    assert_eq!(format_score(-20), "cp -20");
    assert_eq!(format_score(0), "cp 0");
    assert_eq!(format_score(29_995), "mate 3");
    assert_eq!(format_score(-29_996), "mate -2");
}

#[test]
fn exchange_evaluation() {
    let board = Board::from_fen("4k3/8/8/3p4/4P3/8/8/4K3 w - - 0 1").unwrap();
    let exd5 = Move::new(Sq::E4, Sq::D5, MoveFlags::Capture);
    assert!(see_ge(exd5, &board, 0));
    assert!(!see_ge(exd5, &board, 200));
    let defended = Board::from_fen("4k3/8/2p5/3p4/8/8/8/3QK3 w - - 0 1").unwrap();
    let qxd5 = Move::new(Sq::D1, Sq::D5, MoveFlags::Capture);
    assert!(!see_ge(qxd5, &defended, 0));
}

#[test]
fn history_scores_stay_bounded() {
    let mut h = HistoryTable::new();
    for _ in 0..100 {
        h.update_bonus(Color::White, Sq::E2, Sq::E4, 60);
    }
    assert_eq!(h.get(Color::White, Sq::E2, Sq::E4), 10_000);
    for _ in 0..100 {
        h.update_malus(Color::White, Sq::E2, Sq::E4, 60);
    }
    assert_eq!(h.get(Color::White, Sq::E2, Sq::E4), -10_000);
    h.update_bonus(Color::Black, Sq::A7, Sq::A6, 3);
    assert_eq!(h.get(Color::Black, Sq::A7, Sq::A6), 9);
}

#[test]
fn killers_keep_the_last_two_cutoff_moves() {
    let mut stack = SearchStack::new();
    let a = Move::new(Sq::G1, Sq::F3, MoveFlags::Quiet);
    let b = Move::new(Sq::B1, Sq::C3, MoveFlags::Quiet);
    stack.set_killer(3, a);
    stack.set_killer(3, a);
    assert_eq!(stack.get_killers(3), [a, Move::none()]);
    stack.set_killer(3, b);
    assert_eq!(stack.get_killers(3), [b, a]);
}

#[test]
fn time_controls_share_the_clock() {
    let opts = SearchOptions {
        wtime: Some(60_000),
        btime: Some(30_000),
        winc: Some(1_000),
        binc: None,
        movestogo: None,
        depth: None,
        nodes: None,
        movetime: None,
        infinite: false,
    };
    let tm = TimeManager::from_uci_options(&opts, Color::White);
    assert_eq!(tm.limits.max_depth, 64);
    assert_eq!(tm.limits.optimum_time, Some(2_891 * 1_000_000));
    assert_eq!(tm.limits.max_time, Some(10_118 * 1_000_000));
    let fixed = TimeManager::from_movetime(500);
    assert_eq!(fixed.limits.max_time, Some(490 * 1_000_000));
    let nodes = TimeManager::from_nodes(0);
    assert_eq!(nodes.limits.max_nodes, Some(1));
    assert!(nodes.is_hard_limit_exceeded(1));
    assert!(!TimeManager::infinite().is_hard_limit_exceeded(u64::MAX));
    assert_eq!(TimeManager::from_depth(0).limits.max_depth, 1);
}

#[test]
fn table_scores_round_trip() {
    assert_eq!(TTEntry::score_to_tt(29_500, 4), 29_504);
    assert_eq!(TTEntry::score_from_tt(29_504, 4), 29_500);
    assert_eq!(TTEntry::score_to_tt(-29_500, 4), -29_504);
    assert_eq!(TTEntry::score_to_tt(123, 4), 123);
    let m = Move::new(Sq::C7, Sq::C8, MoveFlags::PromoCaptureRook);
    assert_eq!(Move::from_bits(m.bits()), Some(m));
    assert_eq!(Move::from_bits(0x6000), None);
}

#[test]
fn search_finds_a_legal_move_and_mates_in_one() {
    let stop = AtomicBool::new(false);
    let mut tt = TranspositionTable::new(1);
    let mut info = Vec::new();
    let board = Board::start_pos();
    let best = search(board.clone(), TimeManager::from_depth(3), &stop, &mut tt, &mut info);
    assert!(!best.is_none());
    assert!(gen_all_moves(&board).as_slice().iter().any(|sm| sm.mov == best));
    assert_eq!(info.len(), 3);
    assert!(info[0].starts_with("info depth 1 "));

    let mate = Board::from_fen("6k1/5ppp/8/8/8/8/5PPP/3R2K1 w - - 0 1").unwrap();
    let mut tt2 = TranspositionTable::new(1);
    let mut info2 = Vec::new();
    let best = search(mate, TimeManager::from_depth(3), &stop, &mut tt2, &mut info2);
    assert_eq!(format_move(best), "d1d8");
    assert!(info2.last().unwrap().contains("score mate 1"));
}

#[test]
fn game_states_are_recognised() {
    let fools_mate =
        Board::from_fen("rnb1kbnr/pppp1ppp/8/4p3/6Pq/5P2/PPPPP2P/RNBQKBNR w KQkq - 1 3").unwrap();
    assert_eq!(calculate_game_state(&fools_mate), GameState::WinnerBlack);
    let stalemate = Board::from_fen("7k/5Q2/6K1/8/8/8/8/8 b - - 0 1").unwrap();
    assert_eq!(calculate_game_state(&stalemate), GameState::Draw);
    let check = Board::from_fen("4k3/8/8/8/8/8/8/R3K3 b - - 0 1").unwrap();
    assert_eq!(calculate_game_state(&check), GameState::Normal);
    let in_check = Board::from_fen("4k3/8/8/8/8/8/8/4R1K1 b - - 0 1").unwrap();
    assert_eq!(calculate_game_state(&in_check), GameState::BlackInCheck);
    assert_eq!(calculate_game_state(&Board::start_pos()), GameState::Normal);
}

#[test]
fn possible_moves_of_a_square() {
    let game = ChessGame::new(true);
    let moves = game.get_possible_moves(Sq::E2 as u8);
    assert_eq!(moves.len(), 2);
    assert!(game.get_possible_moves(64).is_empty());
    assert!(game.get_possible_moves(Sq::E7 as u8).is_empty());
    assert_eq!(game.get_current_fen(), START_POS_FEN);
}
