use lucky_chess::chess_move::{Move, MoveFlags};
use lucky_chess::manager::ChessGame;
use lucky_chess::square::Sq;

#[test]
fn test_game_start_state() {
    let game = ChessGame::new(true);
    let snap = game.get_snapshot();
    assert_eq!(snap.pieces.len(), 32);
    assert_eq!(snap.current_move_index, -1);
    assert!(snap.is_white_turn);
    assert_eq!(snap.moves_history.len(), 0);
}

#[test]
fn test_game_move_and_piece_ids() {
    let mut game = ChessGame::new(true);
    let e2e4 = Move::new(Sq::E2, Sq::E4, MoveFlags::DoublePawn).bits() as i32;
    let snap1 = game.make_move(e2e4);
    assert_eq!(snap1.current_move_index, 0);

    let e4_piece = snap1
        .pieces
        .iter()
        .find(|&&p| ((p >> 8) & 0xFF) == Sq::E4 as i32)
        .unwrap();
    let e4_id = e4_piece & 0xFF;
    assert_eq!(e4_id, Sq::E2 as i32);
}

#[test]
fn test_game_undo_and_redo() {
    let mut game = ChessGame::new(true);
    let e2e4 = Move::new(Sq::E2, Sq::E4, MoveFlags::DoublePawn).bits() as i32;
    game.make_move(e2e4);
    let e7e5 = Move::new(Sq::E7, Sq::E5, MoveFlags::DoublePawn).bits() as i32;
    game.make_move(e7e5);

    let snap = game.undo().unwrap();
    assert_eq!(snap.current_move_index, -1);
    assert!(snap.is_white_turn);
    assert_eq!(snap.moves_history.len(), 2);

    let snap = game.redo().unwrap();
    assert_eq!(snap.current_move_index, 1);
    assert!(snap.is_white_turn);
}

#[test]
fn test_game_capture_and_undo() {
    let fen = "rnbqkbnr/ppp1pppp/8/3p4/4P3/8/PPPP1PPP/RNBQKBNR w KQkq - 0 2";
    let mut game = ChessGame::new(true);
    game.load_fen_moves(fen, &[], true);

    let exd5 = Move::new(Sq::E4, Sq::D5, MoveFlags::Capture).bits() as i32;
    let snap = game.make_move(exd5);
    assert_eq!(snap.pieces.len(), 31);

    game.undo_single_ply();
    let snap = game.get_snapshot();
    assert_eq!(snap.pieces.len(), 32);
}

#[test]
fn test_game_castling_and_undo() {
    let fen = "r3k2r/8/8/8/8/8/8/R3K2R w KQkq - 0 1";
    let mut game = ChessGame::new(true);
    game.load_fen_moves(fen, &[], true);

    let ks_castle = Move::new(Sq::E1, Sq::G1, MoveFlags::CastleKing).bits() as i32;
    game.make_move(ks_castle);
    let snap = game.get_snapshot();

    let g1_piece = snap
        .pieces
        .iter()
        .find(|&&p| ((p >> 8) & 0xFF) == Sq::G1 as i32)
        .unwrap();
    let f1_piece = snap
        .pieces
        .iter()
        .find(|&&p| ((p >> 8) & 0xFF) == Sq::F1 as i32)
        .unwrap();
    assert_eq!(g1_piece & 0xFF, Sq::E1 as i32);
    assert_eq!(f1_piece & 0xFF, Sq::H1 as i32);

    game.undo_single_ply();
    let snap = game.get_snapshot();
    let e1_piece = snap
        .pieces
        .iter()
        .find(|&&p| ((p >> 8) & 0xFF) == Sq::E1 as i32)
        .unwrap();
    let h1_piece = snap
        .pieces
        .iter()
        .find(|&&p| ((p >> 8) & 0xFF) == Sq::H1 as i32)
        .unwrap();
    assert_eq!(e1_piece & 0xFF, Sq::E1 as i32);
    assert_eq!(h1_piece & 0xFF, Sq::H1 as i32);
}


#[test]
fn test_engine_search_start_pos() {
    let mut engine = lucky_chess::engine::SearchEngine::new(16);
    let res = engine.search(lucky_chess::board::Board::start_pos(), 1, 0, 16);
    assert_ne!(res.best_move, 0);
    let mov = Move::from_bits(res.best_move as u16).unwrap();
    assert!(lucky_chess::board::Board::start_pos().legal(mov));
}
