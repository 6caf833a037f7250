use lucky_chess::board::Board;
use lucky_chess::eval::{eval_board, QUEEN_VALUE_MG};

#[test]
fn test_start_pos_eval_is_zero() {
    let board = Board::start_pos();
    assert_eq!(eval_board(&board), 0);
}

#[test]
fn test_color_symmetry() {
    let white_lead =
        Board::from_fen("rnbqkbnr/pppp1ppp/8/8/4P3/8/PPPP1PPP/RNBQKBNR w KQkq - 0 1").unwrap();
    let black_lead =
        Board::from_fen("rnbqkbnr/pppp1ppp/8/4p3/8/8/PPPP1PPP/RNBQKBNR b KQkq - 0 1").unwrap();

    assert!(eval_board(&white_lead) > 0);
    assert_eq!(eval_board(&white_lead), eval_board(&black_lead));
}

#[test]
fn test_material_queen_advantage() {
    let white_extra_queen =
        Board::from_fen("rnb1kbnr/pppppppp/8/8/8/8/PPPPPPPP/RNBQKBNR w KQkq - 0 1").unwrap();
    let score = eval_board(&white_extra_queen);
    assert!(score >= QUEEN_VALUE_MG as i16 - 100);
}

#[test]
fn test_knight_central_vs_corner() {
    let central_knight = Board::from_fen("4k3/8/8/8/4N3/8/8/4K3 w - - 0 1").unwrap();
    let corner_knight = Board::from_fen("4k3/8/8/8/8/8/8/N3K3 w - - 0 1").unwrap();

    assert!(eval_board(&central_knight) > eval_board(&corner_knight));
}

#[test]
fn test_passed_pawn_advancement() {
    let pawn_e2 = Board::from_fen("4k3/8/8/8/8/8/4P3/4K3 w - - 0 1").unwrap();
    let pawn_e7 = Board::from_fen("4k3/4P3/8/8/8/8/8/4K3 w - - 0 1").unwrap();

    assert!(eval_board(&pawn_e7) > eval_board(&pawn_e2));
}

#[test]
fn test_endgame_king_centralization() {
    let central_king = Board::from_fen("7k/8/8/8/4K3/8/8/8 w - - 0 1").unwrap();
    let corner_king = Board::from_fen("7k/8/8/8/8/8/8/K7 w - - 0 1").unwrap();

    assert!(eval_board(&central_king) > eval_board(&corner_king));
}

