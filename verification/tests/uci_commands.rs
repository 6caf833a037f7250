use lucky_chess::chess_move::Move;
use lucky_chess::transposition::{TTEntry, TTFlag, TranspositionTable};
use lucky_chess::uci_session::{UciSession, UciTask};

#[test]
fn test_process_command_basic() {
    let mut uci = UciSession::new();
    assert!(uci.process_command("uci").keep_going);
    assert!(uci.process_command("isready").keep_going);
    assert!(uci.process_command("position startpos moves e2e4 e7e5").keep_going);
    assert!(!uci.process_command("quit").keep_going);
}

#[test]
fn test_process_command_display_and_eval() {
    let mut uci = UciSession::new();
    let mut lines = Vec::new();
    lines.extend(uci.process_command("d").lines);
    lines.extend(uci.process_command("eval").lines);
    assert_eq!(lines.len(), 2);
    assert!(lines[0].contains("Side to move: White"));
    assert!(lines[0].contains("FEN: rnbqkbnr/pppppppp/8/8/8/8/PPPPPPPP/RNBQKBNR w KQkq - 0 1"));
    assert!(lines[1].starts_with("score: cp"));
}

#[test]
fn test_process_command_perft() {
    let mut uci = UciSession::new();
    let reply = uci.process_command("go perft 1");
    assert!(reply.keep_going);
    assert!(reply.lines.iter().any(|l| l.contains("Nodes searched: 20")));
}

#[test]
fn test_process_command_ucinewgame_clears_tt() {
    let mut uci = UciSession::new();
    let mut tt = TranspositionTable::new(1);
    let entry = TTEntry::new(Move::none(), 100, 50, 4, TTFlag::Exact);
    tt.store(uci.board.hash, entry, 0);
    assert!(tt.probe(uci.board.hash, 0).is_some());

    let reply = uci.process_command("ucinewgame");
    assert!(reply.keep_going);
    if let UciTask::NewGame = reply.task {
        tt.clear();
    }
    assert!(tt.probe(uci.board.hash, 0).is_none());
}

#[test]
fn position_command_stops_at_an_illegal_move() {
    let mut uci = UciSession::new();
    let reply = uci.process_command("position startpos moves e2e4 e2e5 d7d5");
    assert_eq!(reply.errors.len(), 1);
    let mut other = UciSession::new();
    assert!(other.process_command("position startpos moves e2e4").errors.is_empty());
    assert_eq!(uci.board.to_fen(), other.board.to_fen());
    assert!(uci.board.to_fen().starts_with("rnbqkbnr/pppppppp/8/8/4P3/8/PPPP1PPP/RNBQKBNR b"));
    let bad = uci.process_command("position fen not-a-fen");
    assert_eq!(bad.errors.len(), 1);
    assert_eq!(uci.board.to_fen(), other.board.to_fen());
}

#[test]
fn perft_command_reads_its_depth() {
    let mut uci = UciSession::new();
    let reply = uci.process_command("  PERFT 2 ");
    assert!(reply.lines.is_empty());
    let reply = uci.process_command("perft 2");
    assert_eq!(reply.lines, vec!["Nodes searched: 400".to_string()]);
    let reply = uci.process_command("perft x");
    assert_eq!(reply.lines, vec!["Nodes searched: 20".to_string()]);
    let reply = uci.process_command("setoption name Hash value 32");
    assert!(matches!(reply.task, UciTask::ResizeTable(32)));
}
