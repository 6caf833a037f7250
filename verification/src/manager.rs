use crate::bitboard::popcount;
use crate::board::{
    cap_sq, king_bb, lemma_make_undo_roundtrip, lemma_view_determines, move_ok, rook_sqs,
    spec_attackers, spec_make, undo_of, Board, UndoInfo,
};
use crate::chess_move::{lemma_move_classes, Move, MoveFlags};
use crate::color::{opponent, Color};
use crate::eval::eval_board;
use crate::legality::{occ_of, spec_insufficient, spec_legal, spec_pinned};
use crate::movegen::{gen_all_moves, generated_ok, list_ok, listed, move_pass, produces, GenType};
use vstd::std_specs::bits::u64_trailing_zeros;
use crate::piece::{ColoredPiece, Piece};
use crate::square::Sq;
use vstd::prelude::*;

verus! {

/// The id of an empty square.
pub const NO_PIECE: u8 = 255;

/// Every square holds an id exactly when it holds a piece.
pub open spec fn ids_consistent(mb: Seq<Option<ColoredPiece>>, ids: Seq<u8>) -> bool {
    &&& ids.len() == 64
    &&& mb.len() == 64
    &&& forall|s: int| 0 <= s < 64 ==> (#[trigger] ids[s] == NO_PIECE <==> mb[s] is None)
}

/// The square whose piece `m` takes, if it captures.
pub open spec fn captured_square(m: Move, us: Color) -> Option<int> {
    if m.spec_is_capture() {
        Some(cap_sq(m, us))
    } else {
        None
    }
}

/// The id of the piece `m` takes, or [`NO_PIECE`].
pub open spec fn captured_id_of(ids: Seq<u8>, m: Move, us: Color) -> u8 {
    match captured_square(m, us) {
        Some(c) => ids[c],
        None => NO_PIECE,
    }
}

/// The piece ids after `us` plays `m`: the taken piece's id leaves, the mover's id follows
/// it, and a castled rook's id follows the rook.
pub open spec fn apply_ids(ids: Seq<u8>, m: Move, us: Color) -> Seq<u8> {
    let from = m.from_idx();
    let to = m.to_idx();
    let moving = ids[from];
    let ids1 = match captured_square(m, us) {
        Some(c) => ids.update(c, NO_PIECE),
        None => ids,
    };
    let ids2 = ids1.update(to, moving).update(from, NO_PIECE);
    if m.spec_is_castle() {
        let (rf, rt) = rook_sqs(m, us);
        ids2.update(rt.idx(), ids2[rf.idx()]).update(rf.idx(), NO_PIECE)
    } else {
        ids2
    }
}

/// The piece ids after `m`, played by `us`, is taken back, `cid` being the id of the piece
/// it took: the mover's id goes back, the taken piece's id returns, a castled rook's id
/// goes home.
pub open spec fn unapply_ids(ids: Seq<u8>, m: Move, us: Color, cid: u8) -> Seq<u8> {
    let from = m.from_idx();
    let to = m.to_idx();
    let ids1 = ids.update(from, ids[to]).update(to, NO_PIECE);
    let ids2 = if cid != NO_PIECE {
        match captured_square(m, us) {
            Some(c) => ids1.update(c, cid),
            None => ids1.update(to, cid),
        }
    } else {
        ids1
    };
    if m.spec_is_castle() {
        let (rf, rt) = rook_sqs(m, us);
        ids2.update(rf.idx(), ids2[rt.idx()]).update(rt.idx(), NO_PIECE)
    } else {
        ids2
    }
}

/// The ids follow the pieces through a move, and taking the move back restores them.
pub proof fn lemma_ids_roundtrip(b: Board, ids: Seq<u8>, m: Move)
    requires
        b.wf(),
        move_ok(b, m),
        ids_consistent(b.mailbox@, ids),
    ensures
        ids_consistent(
            crate::board::mailbox_after(b.mailbox@, m, b.to_play),
            apply_ids(ids, m, b.to_play),
        ),
        unapply_ids(apply_ids(ids, m, b.to_play), m, b.to_play, captured_id_of(ids, m, b.to_play))
            =~= ids,
{
    lemma_move_classes(m);
    let us = b.to_play;
    let mb = b.mailbox@;
    let mb2 = crate::board::mailbox_after(mb, m, us);
    let ids2 = apply_ids(ids, m, us);
    assert forall|s: int| 0 <= s < 64 implies (#[trigger] ids2[s] == NO_PIECE <==> mb2[s] is None) by {
        if m.spec_is_castle() {
            let (rf, rt) = rook_sqs(m, us);
            assert(rf.idx() < 64 && rt.idx() < 64);
        }
        if m.spec_is_capture() {
            assert(0 <= cap_sq(m, us) < 64);
        }
    }
}


/// Where a game stands.
#[derive(Copy, Clone, Debug, PartialEq, Eq, Structural)]
pub enum GameState {
    Normal,
    WinnerWhite,
    WinnerBlack,
    Draw,
    WhiteInCheck,
    BlackInCheck,
    Invalid,
}

/// The number that stands for a game state in a snapshot.
pub open spec fn state_code(s: GameState) -> i32 {
    match s {
        GameState::Normal => 0,
        GameState::WinnerWhite => 1,
        GameState::WinnerBlack => 2,
        GameState::Draw => 3,
        GameState::WhiteInCheck => 4,
        GameState::BlackInCheck => 5,
        GameState::Invalid => 10,
    }
}

impl GameState {
    /// The number that stands for this state in a snapshot.
    pub fn code(self) -> (r: i32)
        ensures
            r == state_code(self),
    {
        match self {
            GameState::Normal => 0,
            GameState::WinnerWhite => 1,
            GameState::WinnerBlack => 2,
            GameState::Draw => 3,
            GameState::WhiteInCheck => 4,
            GameState::BlackInCheck => 5,
            GameState::Invalid => 10,
        }
    }
}

/// Whether the side to move of `b` has a generated move that is legal.
pub open spec fn has_legal_move(b: Board) -> bool {
    exists|m: Move| generated_ok(b, m) && spec_legal(b, m, if b.pinned == crate::board::UNCOMPUTED_PINNED {
        spec_pinned(b)
    } else {
        b.pinned
    })
}

/// The pinned set that legality is judged with: the recorded one, or the computed one when
/// none is recorded.
pub open spec fn pins(b: Board) -> u64 {
    if b.pinned == crate::board::UNCOMPUTED_PINNED {
        spec_pinned(b)
    } else {
        b.pinned
    }
}

/// Drawn by the fifty-move rule or by too little material.
pub open spec fn draw_rule(b: Board) -> bool {
    b.half_move_clock >= 100 || (popcount(occ_of(b)) <= 4 && spec_insufficient(b))
}

/// Both kings are on the board.
pub open spec fn kings_on(b: Board) -> bool {
    king_bb(b, Color::White) != 0 && king_bb(b, Color::Black) != 0
}

/// The king of the side not to move is attacked.
pub open spec fn other_checked(b: Board) -> bool {
    spec_attackers(
        b,
        u64_trailing_zeros(king_bb(b, opponent(b.to_play))) as int,
        b.to_play,
        b.bit_colors[0] | b.bit_colors[1],
    ) != 0
}

/// The side to move has a legal move among its pseudo-legal moves (its evasions when in
/// check).
pub open spec fn free_legal_move(b: Board) -> bool {
    exists|m: Move| #[trigger] produces(b, move_pass(b), m) && spec_legal(b, m, pins(b))
}

/// The state of the game in `b` (see [`calculate_game_state`]).
pub open spec fn spec_game_state(b: Board) -> GameState {
    if draw_rule(b) {
        GameState::Draw
    } else if !kings_on(b) || (b.checkers != 0 && other_checked(b)) {
        GameState::Invalid
    } else if b.checkers == 0 {
        if free_legal_move(b) {
            GameState::Normal
        } else {
            GameState::Draw
        }
    } else if free_legal_move(b) {
        if b.to_play == Color::White {
            GameState::WhiteInCheck
        } else {
            GameState::BlackInCheck
        }
    } else if b.to_play == Color::White {
        GameState::WinnerBlack
    } else {
        GameState::WinnerWhite
    }
}

/// The state of the game in `board`: drawn (fifty moves, too little material), invalid
/// (both kings attacked, or a king missing), won by the side giving mate, drawn by
/// stalemate, a check, or nothing special.
pub fn calculate_game_state(board: &Board) -> (r: GameState)
    requires
        board.wf(),
    ensures
        draw_rule(*board) ==> r == GameState::Draw,
        !draw_rule(*board) && !kings_on(*board) ==> r == GameState::Invalid,
        !draw_rule(*board) && kings_on(*board) && board.checkers != 0 && other_checked(*board)
            ==> r == GameState::Invalid,
        !draw_rule(*board) && kings_on(*board) && board.checkers == 0 ==> r == if free_legal_move(
            *board,
        ) {
            GameState::Normal
        } else {
            GameState::Draw
        },
        !draw_rule(*board) && kings_on(*board) && board.checkers != 0 && !other_checked(*board)
            ==> r == if free_legal_move(*board) {
            if board.to_play == Color::White {
                GameState::WhiteInCheck
            } else {
                GameState::BlackInCheck
            }
        } else if board.to_play == Color::White {
            GameState::WinnerBlack
        } else {
            GameState::WinnerWhite
        },
        r == GameState::WhiteInCheck || r == GameState::BlackInCheck ==> has_legal_move(*board),
        r == spec_game_state(*board),
{
    if board.is_draw() {
        return GameState::Draw;
    }
    let us = board.to_play;
    let them = us.not();
    if board.color_piece(Piece::King, us) == 0 || board.color_piece(Piece::King, them) == 0 {
        return GameState::Invalid;
    }
    let them_king_sq = board.king_sq(them);
    let other_in_check = board.generate_attackers(them_king_sq, us, board.occupied()) != 0;
    if board.in_check() && other_in_check {
        return GameState::Invalid;
    }
    let legal_moves = gen_all_moves(board);
    let mut has_legal = false;
    let mut i: usize = 0;
    while i < legal_moves.moves.len()
        invariant
            i <= legal_moves.moves@.len(),
            board.wf(),
            king_bb(*board, board.to_play) != 0,
            list_ok(*board, legal_moves.moves@, 0),
            has_legal ==> has_legal_move(*board),
            has_legal ==> free_legal_move(*board),
            crate::movegen::all_produced(*board, move_pass(*board), legal_moves.moves@, 0),
            !has_legal ==> forall|j: int|
                0 <= j < i ==> !spec_legal(*board, #[trigger] legal_moves.moves@[j].mov, pins(*board)),
        ensures
            has_legal ==> has_legal_move(*board),
            has_legal ==> free_legal_move(*board),
            !has_legal ==> forall|j: int|
                0 <= j < legal_moves.moves@.len() ==> !spec_legal(*board, #[trigger] legal_moves.moves@[j].mov, pins(*board)),
        decreases legal_moves.moves@.len() - i,
    {
        let m = legal_moves.moves[i].mov;
        assert(generated_ok(*board, legal_moves.moves@[i as int].mov));
        proof {
            lemma_move_classes(m);
        }
        if board.legal(m) {
            has_legal = true;
            proof {
                assert(produces(*board, move_pass(*board), legal_moves.moves@[i as int].mov));
            }
            break;
        }
        i += 1;
    }
    proof {
        if !has_legal {
            assert forall|m: Move| #[trigger] produces(*board, move_pass(*board), m) implies !spec_legal(
                *board,
                m,
                pins(*board),
            ) by {
                assert(listed(legal_moves.moves@, 0, m));
                let j = choose|j: int| 0 <= j < legal_moves.moves@.len() && #[trigger] legal_moves.moves@[j].mov == m;
                assert(!spec_legal(*board, legal_moves.moves@[j].mov, pins(*board)));
            }
        }
    }
    if !has_legal {
        if board.in_check() {
            if us == Color::White {
                GameState::WinnerBlack
            } else {
                GameState::WinnerWhite
            }
        } else {
            GameState::Draw
        }
    } else if board.in_check() {
        if us == Color::White {
            GameState::WhiteInCheck
        } else {
            GameState::BlackInCheck
        }
    } else {
        GameState::Normal
    }
}


/// What the user interface shows of a game: its state, evaluation (White's view, in
/// centipawns), last search time and report, side to move, index of the last move played,
/// the pieces (id, square, kind and color packed in bytes) and the moves played followed
/// by those undone.
#[derive(Clone, Debug)]
pub struct BoardSnapshot {
    pub game_state: i32,
    pub eval_score: i32,
    pub search_time_ms: i64,
    pub uci_info: String,
    pub is_white_turn: bool,
    pub current_move_index: i32,
    pub pieces: Vec<i32>,
    pub moves_history: Vec<i32>,
}

/// A move played, what taking it back needs, and the id of the piece it took.
#[derive(Copy, Clone)]
pub struct HistoryEntry {
    pub mov: Move,
    pub undo_info: UndoInfo,
    pub captured_id: u8,
}

/// Each piece is named by the square it stood on at the start.
pub open spec fn initial_ids(mb: Seq<Option<ColoredPiece>>) -> Seq<u8> {
    Seq::new(64, |s: int| if mb[s] is Some { s as u8 } else { NO_PIECE })
}

fn init_piece_ids(board: &Board) -> (r: Vec<u8>)
    ensures
        r@ == initial_ids(board.mailbox@),
        ids_consistent(board.mailbox@, r@),
{
    let mut ids: Vec<u8> = Vec::new();
    let mut s: usize = 0;
    while s < 64
        invariant
            s <= 64,
            ids@.len() == s,
            forall|j: int| 0 <= j < s ==> ids@[j] == (if board.mailbox@[j] is Some { j as u8 } else { NO_PIECE }),
        decreases 64 - s,
    {
        ids.push(if board.mailbox[s].is_some() {
            s as u8
        } else {
            NO_PIECE
        });
        s += 1;
    }
    assert(ids@ =~= initial_ids(board.mailbox@));
    ids
}

/// A game as the user interface drives it: the position, the ids that let pieces be
/// followed across moves, the moves played (with what undoing them needs) and undone.
pub struct ChessGame {
    pub board: Board,
    pub start_fen: String,
    pub piece_ids: Vec<u8>,
    pub history: Vec<HistoryEntry>,
    pub redo_stack: Vec<HistoryEntry>,
    pub player_is_white: bool,
    pub search_time_ms: u64,
    pub advanced_stats: String,
    pub states: Ghost<Seq<(Board, Seq<u8>)>>,
}

/// Entry `e` leads from position and ids `s` to `t`.
#[verifier::opaque]
pub open spec fn step_ok(s: (Board, Seq<u8>), e: HistoryEntry, t: (Board, Seq<u8>)) -> bool {
    &&& s.0.wf()
    &&& move_ok(s.0, e.mov)
    &&& ids_consistent(s.0.mailbox@, s.1)
    &&& t.0.wf()
    &&& t.0@ == spec_make(s.0@, e.mov, t.0.checkers)
    &&& e.undo_info == undo_of(s.0, e.mov)
    &&& t.1 == apply_ids(s.1, e.mov, s.0.to_play)
    &&& e.captured_id == captured_id_of(s.1, e.mov, s.0.to_play)
}


/// A well-formed move whose en-passant capture square, if any, is on the board.
pub open spec fn shape_ok(m: Move, us: Color) -> bool {
    &&& m.wf()
    &&& m.code() == 5 ==> (if us == Color::White {
        crate::square::rank_of(m.to_idx()) > 0
    } else {
        crate::square::rank_of(m.to_idx()) < 7
    })
}

/// Moves the piece ids along with `mov`, played by `us`; returns the id of the piece taken.
/// The ids after the taken piece's id leaves.
pub open spec fn ids_after_capture(ids: Seq<u8>, m: Move, us: Color) -> Seq<u8> {
    match captured_square(m, us) {
        Some(c) => ids.update(c, NO_PIECE),
        None => ids,
    }
}

#[verifier::rlimit(40)]
fn move_ids(ids: &mut Vec<u8>, mov: Move, us: Color) -> (cid: u8)
    requires
        shape_ok(mov, us),
        old(ids)@.len() == 64,
    ensures
        final(ids)@ == apply_ids(old(ids)@, mov, us),
        cid == captured_id_of(old(ids)@, mov, us),
{
    proof {
        lemma_move_classes(mov);
    }
    let from = mov.from() as usize;
    let to = mov.to() as usize;
    let moving_id = ids[from];
    let captured_sq: usize = if mov.flags_bits() == 5 {
        mov.capture_square(us) as usize
    } else if mov.is_capture() {
        to
    } else {
        64
    };
    let captured_id = if captured_sq < 64 {
        let id = ids[captured_sq];
        ids.set(captured_sq, NO_PIECE);
        id
    } else {
        NO_PIECE
    };
    assert(ids@ == ids_after_capture(old(ids)@, mov, us));
    let ghost ids1 = ids@;
    ids.set(to, moving_id);
    ids.set(from, NO_PIECE);
    let ghost ids2 = ids@;
    assert(ids2 == ids1.update(mov.to_idx(), old(ids)@[mov.from_idx()]).update(mov.from_idx(), NO_PIECE));
    if mov.is_castle() {
        move_rook_id(ids, mov, us, true);
    }
    captured_id
}

/// Moves a castled rook's id: home to its new square when `forward`, back otherwise.
fn move_rook_id(ids: &mut Vec<u8>, mov: Move, us: Color, forward: bool)
    requires
        mov.wf(),
        mov.spec_is_castle(),
        old(ids)@.len() == 64,
    ensures
        forward ==> final(ids)@ == old(ids)@.update(rook_sqs(mov, us).1.idx(), old(ids)@[rook_sqs(mov, us).0.idx()]).update(
            rook_sqs(mov, us).0.idx(),
            NO_PIECE,
        ),
        !forward ==> final(ids)@ == old(ids)@.update(rook_sqs(mov, us).0.idx(), old(ids)@[rook_sqs(mov, us).1.idx()]).update(
            rook_sqs(mov, us).1.idx(),
            NO_PIECE,
        ),
{
    proof {
        lemma_move_classes(mov);
    }
    let (rook_from, rook_to) = mov.flags().castling_rook_squares(us);
    let (a, b) = if forward {
        (rook_from as usize, rook_to as usize)
    } else {
        (rook_to as usize, rook_from as usize)
    };
    let rid = ids[a];
    ids.set(b, rid);
    ids.set(a, NO_PIECE);
}

/// Moves the piece ids back when `mov`, played by `us`, is taken back; `cid` is the id of
/// the piece it took.
/// Puts `cid` back on the square the piece was taken from.
fn restore_captured_id(ids: &mut Vec<u8>, mov: Move, us: Color, cid: u8)
    requires
        shape_ok(mov, us),
        old(ids)@.len() == 64,
    ensures
        final(ids)@ == (match captured_square(mov, us) {
            Some(c) => old(ids)@.update(c, cid),
            None => old(ids)@.update(mov.to_idx(), cid),
        }),
{
    proof {
        lemma_move_classes(mov);
    }
    let captured_sq = if mov.flags_bits() == 5 {
        mov.capture_square(us) as usize
    } else {
        mov.to() as usize
    };
    ids.set(captured_sq, cid);
}

#[verifier::rlimit(40)]
fn unmove_ids(ids: &mut Vec<u8>, mov: Move, us: Color, cid: u8)
    requires
        shape_ok(mov, us),
        old(ids)@.len() == 64,
    ensures
        final(ids)@ == unapply_ids(old(ids)@, mov, us, cid),
{
    proof {
        lemma_move_classes(mov);
    }
    let from = mov.from() as usize;
    let to = mov.to() as usize;
    let moving_id = ids[to];
    ids.set(from, moving_id);
    ids.set(to, NO_PIECE);
    if cid != NO_PIECE {
        restore_captured_id(ids, mov, us, cid);
    }
    if mov.is_castle() {
        move_rook_id(ids, mov, us, false);
    }
}

/// What snapshot `r` shows of game `g`: the state of the game, the pieces with their ids,
/// the moves played and undone, the index of the last move played, the side to move, the
/// evaluation and the search statistics.
pub open spec fn shows(r: BoardSnapshot, g: ChessGame) -> bool {
    &&& r.game_state == state_code(spec_game_state(g.board))
    &&& r.pieces@ == packed_pieces(g.board.mailbox@, g.piece_ids@, 64)
    &&& r.moves_history@ == moves_list(g.history@, g.redo_stack@)
    &&& r.current_move_index == g.history@.len() - 1
    &&& r.is_white_turn == (g.board.to_play == Color::White)
    &&& r.eval_score == spec_board_evaluation(g.board)
    &&& r.uci_info@ == g.advanced_stats@
    &&& r.search_time_ms == g.search_time_ms as i64
}

/// `g2` is `g1` with `mov` played: a legal move of a position where both kings stand, one
/// more entry in the history, the position after the move; the undone moves, the side of
/// the player, the start FEN and the statistics kept.
pub open spec fn played(g1: ChessGame, g2: ChessGame, mov: Move) -> bool {
    &&& move_ok(g1.board, mov)
    &&& king_bb(g1.board, opponent(g1.board.to_play)) != 0
    &&& g2.history@.len() == g1.history@.len() + 1
    &&& g2.history@.drop_last() == g1.history@
    &&& g2.history@.last().mov == mov
    &&& g2.states@.drop_last() == g1.states@
    &&& g2.board@ == spec_make(g1.board@, mov, g2.board.checkers)
    &&& g2.redo_stack@ == g1.redo_stack@
    &&& g2.player_is_white == g1.player_is_white
    &&& g2.start_fen == g1.start_fen
    &&& g2.search_time_ms == g1.search_time_ms
    &&& g2.advanced_stats == g1.advanced_stats
}

/// `g2` is `g1` with the last undone move taken off the redo stack and, when it can still
/// be played, played again.
pub open spec fn redone(g1: ChessGame, g2: ChessGame) -> bool {
    let e = g1.redo_stack@.last();
    let g1p = ChessGame { redo_stack: g2.redo_stack, ..g1 };
    &&& g1.redo_stack@.len() > 0
    &&& g2.redo_stack@ == g1.redo_stack@.drop_last()
    &&& (g2 == g1p || played(g1p, g2, e.mov))
}

/// The moves of history `h` are, in order, the first moves of `moves` given by their bits,
/// none of them zero.
pub open spec fn bits_played(h: Seq<HistoryEntry>, moves: Seq<i32>) -> bool {
    &&& h.len() <= moves.len()
    &&& forall|k: int| 0 <= k < h.len() ==> #[trigger] moves[k] != 0
    &&& forall|k: int| 0 <= k < h.len() ==> #[trigger] h[k].mov.0 == moves[k] as u16
}

/// Taking back a move just played gives back the position and piece ids it was played
/// from: the state that undoing the last move restores is the one before the move.
pub proof fn lemma_undo_restores(g1: ChessGame, g2: ChessGame, mov: Move)
    requires
        g1.game_ok(),
        g2.game_ok(),
        played(g1, g2, mov),
    ensures
        g2.states@[g2.history@.len() - 1] == (g1.board, g1.piece_ids@),
{
    let n = g1.history@.len();
    assert(g2.states@.drop_last()[n as int] == g2.states@[n as int]);
}

/// Whether the move with bits `v` (its low 16 bits) can be played in game `g` now.
pub open spec fn bits_playable(g: ChessGame, v: i32) -> bool {
    Move(v as u16).wf() && can_play(g, Move(v as u16))
}

/// Whether game `g` can play `m` now: both kings on the board, room left in the move
/// counters and in the history (whose move index a snapshot reports as a 32-bit
/// integer), and `m` a legal move among the pseudo-legal ones (the
/// evasions when in check).
pub open spec fn can_play(g: ChessGame, m: Move) -> bool {
    &&& kings_on(g.board)
    &&& g.board.half_move_clock < 255
    &&& g.board.ply < 65535
    &&& g.history@.len() < 0x7fff_fffe
    &&& produces(g.board, move_pass(g.board), m)
    &&& spec_legal(g.board, m, pins(g.board))
}

/// Whether the side to move in `g` is the player's.
pub open spec fn player_turn(g: ChessGame) -> bool {
    (g.board.to_play == Color::White) == g.player_is_white
}

impl ChessGame {
    /// The recorded states are the positions before each move played, then the current
    /// one, each move leading from one to the next.
    pub open spec fn game_ok(&self) -> bool {
        &&& self.board.wf()
        &&& ids_consistent(self.board.mailbox@, self.piece_ids@)
        &&& self.states@.len() == self.history@.len() + 1
        &&& self.history@.len() < 0x7fff_ffff
        &&& self.states@.last() == (self.board, self.piece_ids@)
        &&& forall|k: int|
            0 <= k < self.history@.len() ==> step_ok(
                #[trigger] self.states@[k],
                self.history@[k],
                self.states@[k + 1],
            )
    }

    /// A game from the starting position, the player on White's side when
    /// `player_is_white`.
    pub fn new(player_is_white: bool) -> (r: Self)
        ensures
            r.game_ok(),
            r.history@.len() == 0,
            r.redo_stack@.len() == 0,
            r.player_is_white == player_is_white,
            r.piece_ids@ == initial_ids(r.board.mailbox@),
            crate::fen::board_of_fen(r.board, crate::fen::start_data()),
            r.start_fen@ == crate::fen::START_POS_FEN@,
    {
        let board = Board::start_pos();
        let piece_ids = init_piece_ids(&board);
        let start_fen = board.to_fen();
        proof {
            crate::fen::lemma_start_fen_text();
        }
        let states: Ghost<Seq<(Board, Seq<u8>)>> = Ghost(Seq::empty().push((board, piece_ids@)));
        ChessGame {
            board,
            start_fen,
            piece_ids,
            history: Vec::new(),
            redo_stack: Vec::new(),
            player_is_white,
            search_time_ms: 0,
            advanced_stats: String::new(),
            states,
        }
    }

    /// The current position.
    pub fn board(&self) -> (r: &Board)
        ensures
            *r == self.board,
    {
        &self.board
    }

    /// Records the time and report of the last search (an empty report keeps the former).
    pub fn record_search_stats(&mut self, time_ms: u64, advanced_stats: String)
        ensures
            final(self).search_time_ms == time_ms,
            advanced_stats@.len() > 0 ==> final(self).advanced_stats@ == advanced_stats@,
            advanced_stats@.len() == 0 ==> final(self).advanced_stats@ == old(self).advanced_stats@,
            final(self).board == old(self).board,
            final(self).piece_ids@ == old(self).piece_ids@,
            final(self).history@ == old(self).history@,
            final(self).redo_stack@ == old(self).redo_stack@,
            final(self).states == old(self).states,
    {
        self.search_time_ms = time_ms;
        if advanced_stats.unicode_len() > 0 {
            self.advanced_stats = advanced_stats;
        }
    }

    /// Whether `mov` can be played now: a generated, legal move, with room left in the
    /// move counters and both kings on the board.
    fn playable(&self, mov: Move) -> (r: bool)
        requires
            self.game_ok(),
        ensures
            r ==> move_ok(self.board, mov) && king_bb(self.board, opponent(self.board.to_play)) != 0
                && self.history@.len() < 0x7fff_fffe,
            r == can_play(*self, mov),
    {
        if self.board.color_piece(Piece::King, self.board.to_play) == 0
            || self.board.color_piece(Piece::King, self.board.to_play.not()) == 0 {
            return false;
        }
        if self.board.half_move_clock >= 255 || self.board.ply >= 65535 || self.history.len() >= 0x7fff_fffe {
            return false;
        }
        let moves = gen_all_moves(&self.board);
        let mut i: usize = 0;
        while i < moves.moves.len()
            invariant
                i <= moves.moves@.len(),
                list_ok(self.board, moves.moves@, 0),
                self.board.wf(),
                king_bb(self.board, self.board.to_play) != 0,
                king_bb(self.board, opponent(self.board.to_play)) != 0,
                self.board.half_move_clock < 255,
                self.board.ply < 65535,
                self.history@.len() < 0x7fff_fffe,
                crate::movegen::all_produced(self.board, move_pass(self.board), moves.moves@, 0),
                forall|j: int| 0 <= j < i ==> #[trigger] moves.moves@[j].mov != mov,
            decreases moves.moves@.len() - i,
        {
            if moves.moves[i].mov == mov {
                assert(generated_ok(self.board, moves.moves@[i as int].mov));
                proof {
                    lemma_move_classes(mov);
                    assert(produces(self.board, move_pass(self.board), moves.moves@[i as int].mov));
                }
                return self.board.legal(mov);
            }
            i += 1;
        }
        proof {
            if produces(self.board, move_pass(self.board), mov) {
                assert(listed(moves.moves@, 0, mov));
                let j = choose|j: int| 0 <= j < moves.moves@.len() && #[trigger] moves.moves@[j].mov == mov;
                assert(moves.moves@[j].mov != mov);
            }
        }
        false
    }

    /// Plays `mov`, moving the piece ids along and recording how to take it back.
    fn apply_move_internal(&mut self, mov: Move)
        requires
            old(self).game_ok(),
            move_ok(old(self).board, mov),
            king_bb(old(self).board, opponent(old(self).board.to_play)) != 0,
            old(self).history@.len() < 0x7fff_fffe,
        ensures
            final(self).game_ok(),
            played(*old(self), *final(self), mov),
    {
        let ghost s0 = (self.board, self.piece_ids@);
        proof {
            lemma_ids_roundtrip(self.board, self.piece_ids@, mov);
        }
        let us = self.board.to_play;
        let captured_id = move_ids(&mut self.piece_ids, mov, us);
        let undo_info = self.board.make_move(mov);
        self.history.push(HistoryEntry { mov, undo_info, captured_id });
        proof {
            self.states@ = self.states@.push((self.board, self.piece_ids@));
            assert(self.states@.drop_last() =~= old(self).states@);
            assert(self.history@.drop_last() =~= old(self).history@);
            assert forall|k: int| 0 <= k < self.history@.len() implies step_ok(
                #[trigger] self.states@[k],
                self.history@[k],
                self.states@[k + 1],
            ) by {
                if k < old(self).history@.len() {
                    assert(self.states@[k] == old(self).states@[k]);
                    assert(self.states@[k + 1] == old(self).states@[k + 1]);
                    assert(self.history@[k] == old(self).history@[k]);
                } else {
                    reveal(step_ok);
                }
            }
        }
    }

    /// Takes back the last move played, if any, restoring the position and the piece ids as
    /// they were before it and putting the move on the redo stack.
    pub fn undo_single_ply(&mut self) -> (r: bool)
        requires
            old(self).game_ok(),
        ensures
            final(self).game_ok(),
            r == (old(self).history@.len() > 0),
            r ==> final(self).board == old(self).states@[old(self).history@.len() - 1].0,
            r ==> final(self).piece_ids@ == old(self).states@[old(self).history@.len() - 1].1,
            r ==> final(self).history@ == old(self).history@.drop_last(),
            r ==> final(self).redo_stack@ == old(self).redo_stack@.push(old(self).history@.last()),
            r ==> final(self).states@ == old(self).states@.drop_last(),
            !r ==> *final(self) == *old(self),
            final(self).player_is_white == old(self).player_is_white,
            final(self).start_fen == old(self).start_fen,
            final(self).search_time_ms == old(self).search_time_ms,
            final(self).advanced_stats == old(self).advanced_stats,
    {
        if self.history.len() == 0 {
            return false;
        }
        let entry = self.history.pop().unwrap();
        proof {
            let n = old(self).history@.len();
            assert(step_ok(old(self).states@[n - 1], entry, old(self).states@[n as int]));
            reveal(step_ok);
        }
        let ghost n = old(self).history@.len();
        let ghost prev = old(self).states@[n - 1];
        let mov = entry.mov;
        proof {
            lemma_make_undo_roundtrip(prev.0, mov, self.board.checkers);
            lemma_ids_roundtrip(prev.0, prev.1, mov);
            lemma_move_classes(mov);
        }
        self.board.undo_move(mov, entry.undo_info);
        proof {
            lemma_view_determines(self.board, prev.0);
        }
        let us = self.board.to_play;
        unmove_ids(&mut self.piece_ids, mov, us, entry.captured_id);
        assert(self.piece_ids@ =~= prev.1);
        self.redo_stack.push(entry);
        proof {
            self.states@ = self.states@.drop_last();
            assert forall|k: int| 0 <= k < self.history@.len() implies step_ok(
                #[trigger] self.states@[k],
                self.history@[k],
                self.states@[k + 1],
            ) by {
                assert(self.states@[k] == old(self).states@[k]);
                assert(self.states@[k + 1] == old(self).states@[k + 1]);
                assert(self.history@[k] == old(self).history@[k]);
            }
        }
        true
    }
}


/// The packed description of the piece `cp` with id `id` on square index `s`: id in the
/// low byte, then the square, the kind, and one for White.
pub open spec fn packed_piece(id: u8, s: int, cp: ColoredPiece) -> i32 {
    (id as int + s * 256 + (cp.piece as u8 as int) * 65536 + (if cp.color == Color::White {
        16777216int
    } else {
        0int
    })) as i32
}

/// The packed pieces on the first `n` squares, in square order.
pub open spec fn packed_pieces(mb: Seq<Option<ColoredPiece>>, ids: Seq<u8>, n: int) -> Seq<i32>
    decreases n,
{
    if n <= 0 {
        Seq::empty()
    } else {
        match mb[n - 1] {
            Some(cp) => packed_pieces(mb, ids, n - 1).push(packed_piece(ids[n - 1], n - 1, cp)),
            None => packed_pieces(mb, ids, n - 1),
        }
    }
}

/// The moves of a game as a snapshot lists them: those played, then those undone, most
/// recently undone first.
pub open spec fn moves_list(history: Seq<HistoryEntry>, redo: Seq<HistoryEntry>) -> Seq<i32> {
    Seq::new(history.len(), |i: int| history[i].mov.0 as i32) + Seq::new(
        redo.len(),
        |i: int| redo[redo.len() - 1 - i].mov.0 as i32,
    )
}

/// White's evaluation in centipawns: the evaluation for the side to move, negated when
/// Black is to move, a pawn (400) counting one hundred.
pub open spec fn spec_board_evaluation(b: Board) -> i32 {
    let raw = crate::eval::spec_eval(b) as int;
    let white = if b.to_play == Color::White {
        raw
    } else {
        -raw
    };
    crate::history::trunc_div(white * 100, 400) as i32
}

/// Whether `v` is the bits of a generated move from square index `sq` of `b` that is legal.
pub open spec fn is_move_bits(v: i32, sq: int, b: Board) -> bool {
    exists|m: Move|
        m.0 as i32 == v && m.from_idx() == sq && #[trigger] generated_ok(b, m) && spec_legal(b, m, pins(b))
}

impl ChessGame {
    /// White's evaluation of the position in centipawns (see [`spec_board_evaluation`]).
    pub fn get_board_evaluation(&self) -> (r: i32)
        ensures
            r == spec_board_evaluation(self.board),
    {
        let raw = eval_board(&self.board) as i32;
        let white_score = if self.board.to_play == Color::White {
            raw
        } else {
            -raw
        };
        let scaled = white_score * 100;
        if scaled >= 0 {
            scaled / 400
        } else {
            -((-scaled) / 400)
        }
    }

    /// The FEN of the current position.
    pub fn get_current_fen(&self) -> (r: String)
        ensures
            r@ == crate::fen::spec_to_fen(self.board),
    {
        self.board.to_fen()
    }

    /// The FEN the game started from.
    pub fn get_start_fen(&self) -> (r: String)
        ensures
            r@ == self.start_fen@,
    {
        self.start_fen.clone()
    }

    /// What the user interface shows of the game.
    pub fn get_snapshot(&self) -> (r: BoardSnapshot)
        requires
            self.game_ok(),
        ensures
            shows(r, *self),
    {
        let mut pieces: Vec<i32> = Vec::new();
        let mut s: usize = 0;
        while s < 64
            invariant
                s <= 64,
                self.game_ok(),
                pieces@ == packed_pieces(self.board.mailbox@, self.piece_ids@, s as int),
            decreases 64 - s,
        {
            match self.board.mailbox[s] {
                Some(cp) => {
                    let id = self.piece_ids[s] as i32;
                    let white: i32 = if cp.color() == Color::White {
                        1
                    } else {
                        0
                    };
                    pieces.push(id + (s as i32) * 256 + (cp.piece() as u8 as i32) * 65536 + white * 16777216);
                },
                None => {},
            }
            s += 1;
        }
        let mut moves_history: Vec<i32> = Vec::new();
        let mut i: usize = 0;
        while i < self.history.len()
            invariant
                i <= self.history@.len(),
                moves_history@ == Seq::new(i as nat, |k: int| self.history@[k].mov.0 as i32),
            decreases self.history@.len() - i,
        {
            moves_history.push(self.history[i].mov.0 as i32);
            i += 1;
            assert(moves_history@ =~= Seq::new(i as nat, |k: int| self.history@[k].mov.0 as i32));
        }
        let n = self.redo_stack.len();
        let mut j: usize = 0;
        while j < n
            invariant
                j <= n,
                n == self.redo_stack@.len(),
                moves_history@ == Seq::new(self.history@.len(), |k: int| self.history@[k].mov.0 as i32)
                    + Seq::new(j as nat, |k: int| self.redo_stack@[n - 1 - k].mov.0 as i32),
            decreases n - j,
        {
            moves_history.push(self.redo_stack[n - 1 - j].mov.0 as i32);
            j += 1;
            assert(moves_history@ =~= Seq::new(self.history@.len(), |k: int| self.history@[k].mov.0 as i32)
                + Seq::new(j as nat, |k: int| self.redo_stack@[n - 1 - k].mov.0 as i32));
        }
        let state = calculate_game_state(&self.board);
        BoardSnapshot {
            game_state: state.code(),
            eval_score: self.get_board_evaluation(),
            search_time_ms: self.search_time_ms as i64,
            uci_info: self.advanced_stats.clone(),
            is_white_turn: self.board.to_play == Color::White,
            current_move_index: self.history.len() as i32 - 1,
            pieces,
            moves_history,
        }
    }

    /// Plays the move with bits `move_content` when it is playable now (see
    /// [`ChessGame::playable`]), forgetting the undone moves; returns the snapshot either
    /// way.
    pub fn make_move(&mut self, move_content: i32) -> (r: BoardSnapshot)
        requires
            old(self).game_ok(),
        ensures
            final(self).game_ok(),
            shows(r, *final(self)),
            *final(self) == *old(self) || (played(
                ChessGame { redo_stack: final(self).redo_stack, ..*old(self) },
                *final(self),
                Move(move_content as u16),
            ) && final(self).redo_stack@.len() == 0),
            !Move(move_content as u16).wf() ==> *final(self) == *old(self),
            if Move(move_content as u16).wf() && can_play(
                *old(self),
                Move(move_content as u16),
            ) {
                *final(self) != *old(self)
            } else {
                *final(self) == *old(self)
            },
    {
        let mov = match Move::from_bits(move_content as u16) {
            Some(m) => m,
            None => return self.get_snapshot(),
        };
        if !self.playable(mov) {
            return self.get_snapshot();
        }
        self.apply_move_internal(mov);
        self.redo_stack.clear();
        self.get_snapshot()
    }

    /// Replays the last undone move, when it can still be played.
    fn redo_single_ply(&mut self) -> (r: bool)
        requires
            old(self).game_ok(),
        ensures
            final(self).game_ok(),
            old(self).redo_stack@.len() == 0 ==> !r && *final(self) == *old(self),
            old(self).redo_stack@.len() > 0 ==> redone(*old(self), *final(self)),
            r ==> played(
                ChessGame { redo_stack: final(self).redo_stack, ..*old(self) },
                *final(self),
                old(self).redo_stack@.last().mov,
            ),
    {
        if self.redo_stack.len() == 0 {
            return false;
        }
        let entry = match self.redo_stack.pop() {
            Some(e) => e,
            None => return false,
        };
        if !self.playable(entry.mov) {
            return false;
        }
        self.apply_move_internal(entry.mov);
        true
    }

    /// Takes back the last move, and the one before it when that gives the turn back to
    /// the player; `None` when no move was played.
    pub fn undo(&mut self) -> (r: Option<BoardSnapshot>)
        requires
            old(self).game_ok(),
        ensures
            final(self).game_ok(),
            r is None <==> old(self).history@.len() == 0,
            r is None ==> *final(self) == *old(self),
            r matches Some(snap) ==> shows(snap, *final(self)),
            r is Some ==> ({
                let n = old(self).history@.len();
                let two = n >= 2 && (old(self).states@[n - 1].0.to_play == Color::White)
                    != old(self).player_is_white;
                let k = if two { n - 2 } else { n - 1 };
                &&& final(self).history@ == old(self).history@.subrange(0, k)
                &&& final(self).board == old(self).states@[k].0
                &&& final(self).piece_ids@ == old(self).states@[k].1
                &&& final(self).redo_stack@ == if two {
                    old(self).redo_stack@.push(old(self).history@[n - 1]).push(old(self).history@[n - 2])
                } else {
                    old(self).redo_stack@.push(old(self).history@[n - 1])
                }
                &&& final(self).player_is_white == old(self).player_is_white
            }),
    {
        if self.history.len() == 0 {
            return None;
        }
        let ghost g0 = *self;
        self.undo_single_ply();
        assert(self.history@ =~= g0.history@.subrange(0, g0.history@.len() - 1));
        let is_player_turn = (self.board.to_play == Color::White) == self.player_is_white;
        if !is_player_turn && self.history.len() > 0 {
            let ghost g1 = *self;
            self.undo_single_ply();
            assert(self.history@ =~= g0.history@.subrange(0, g0.history@.len() - 2));
            assert(g1.states@[g1.history@.len() - 1] == g0.states@[g0.history@.len() - 2]);
        }
        Some(self.get_snapshot())
    }

    /// Replays the last undone move, and the next one when that gives the turn back to
    /// the player; `None` when no move was undone.
    pub fn redo(&mut self) -> (r: Option<BoardSnapshot>)
        requires
            old(self).game_ok(),
        ensures
            final(self).game_ok(),
            r is None <==> old(self).redo_stack@.len() == 0,
            r is None ==> *final(self) == *old(self),
            r matches Some(snap) ==> shows(snap, *final(self)),
            r is Some ==> exists|mid: ChessGame|
                #[trigger] redone(*old(self), mid) && if !player_turn(mid) && mid.redo_stack@.len() > 0 {
                    redone(mid, *final(self))
                } else {
                    *final(self) == mid
                },
    {
        if self.redo_stack.len() == 0 {
            return None;
        }
        self.redo_single_ply();
        let ghost mid = *self;
        let is_player_turn = (self.board.to_play == Color::White) == self.player_is_white;
        if !is_player_turn && self.redo_stack.len() > 0 {
            self.redo_single_ply();
        }
        assert(redone(*old(self), mid) && if !player_turn(mid) && mid.redo_stack@.len() > 0 {
            redone(mid, *self)
        } else {
            *self == mid
        });
        Some(self.get_snapshot())
    }

    /// The bits of the legal moves of the piece on the square with raw index
    /// `square_raw`; none for an index off the board.
    pub fn get_possible_moves(&self, square_raw: u8) -> (r: Vec<i32>)
        requires
            self.game_ok(),
        ensures
            square_raw >= 64 ==> r@.len() == 0,
            forall|i: int| 0 <= i < r@.len() ==> #[trigger] is_move_bits(r@[i], square_raw as int, self.board),
            king_bb(self.board, self.board.to_play) != 0 ==> forall|m: Move|
                #[trigger] produces(self.board, move_pass(self.board), m) && m.from_idx() == square_raw
                    && spec_legal(self.board, m, pins(self.board)) ==> r@.contains(m.0 as i32),
    {
        let sq = match Sq::from_raw(square_raw) {
            Some(s) => s,
            None => {
                proof {
                    assert forall|m: Move| #[trigger] produces(self.board, move_pass(self.board), m)
                        implies m.from_idx() != square_raw by {
                        lemma_move_classes(m);
                    }
                }
                return Vec::new();
            },
        };
        let mut out: Vec<i32> = Vec::new();
        if self.board.color_piece(Piece::King, self.board.to_play) == 0 {
            return out;
        }
        let moves = gen_all_moves(&self.board);
        let mut i: usize = 0;
        while i < moves.moves.len()
            invariant
                i <= moves.moves@.len(),
                list_ok(self.board, moves.moves@, 0),
                self.board.wf(),
                king_bb(self.board, self.board.to_play) != 0,
                sq as u8 == square_raw,
                forall|k: int| 0 <= k < out@.len() ==> #[trigger] is_move_bits(out@[k], square_raw as int, self.board),
                forall|j: int|
                    0 <= j < i && (#[trigger] moves.moves@[j]).mov.from_idx() == square_raw && spec_legal(
                        self.board,
                        moves.moves@[j].mov,
                        pins(self.board),
                    ) ==> out@.contains(moves.moves@[j].mov.0 as i32),
                forall|m: Move| #[trigger] produces(self.board, move_pass(self.board), m) ==> listed(moves.moves@, 0, m),
            decreases moves.moves@.len() - i,
        {
            let ghost out0 = out@;
            let m = moves.moves[i].mov;
            assert(generated_ok(self.board, moves.moves@[i as int].mov));
            proof {
                lemma_move_classes(m);
            }
            if m.from() as u8 == sq as u8 && self.board.legal(m) {
                let ghost before = out@;
                out.push(m.bits() as i32);
                assert(m.0 as i32 == out@.last() && m.from_idx() == square_raw && generated_ok(self.board, m));
                assert(is_move_bits(out@.last(), square_raw as int, self.board));
                assert forall|k: int| 0 <= k < out@.len() implies #[trigger] is_move_bits(out@[k], square_raw as int, self.board) by {
                    if k < before.len() {
                        assert(out@[k] == before[k]);
                    }
                }
            }
            proof {
                assert forall|j: int|
                    0 <= j < i + 1 && (#[trigger] moves.moves@[j]).mov.from_idx() == square_raw && spec_legal(
                        self.board,
                        moves.moves@[j].mov,
                        pins(self.board),
                    ) implies out@.contains(moves.moves@[j].mov.0 as i32) by {
                    if j < i {
                        assert(out0.contains(moves.moves@[j].mov.0 as i32));
                        let w = choose|w: int| 0 <= w < out0.len() && out0[w] == moves.moves@[j].mov.0 as i32;
                        assert(out@[w] == out0[w]);
                    } else {
                        assert(out@.last() == moves.moves@[j].mov.0 as i32);
                        assert(out@[out@.len() - 1] == moves.moves@[j].mov.0 as i32);
                    }
                }
            }
            i += 1;
        }
        proof {
            assert forall|m: Move|
                #[trigger] produces(self.board, move_pass(self.board), m)
                    && m.from_idx() == square_raw && spec_legal(self.board, m, pins(self.board))
                    implies out@.contains(m.0 as i32) by {
                assert(listed(moves.moves@, 0, m));
                let j = choose|j: int| 0 <= j < moves.moves@.len() && #[trigger] moves.moves@[j].mov == m;
                assert(moves.moves@[j].mov.from_idx() == square_raw);
            }
        }
        out
    }

    /// Sets up the position of `fen`, plays the moves given by their bits (up to the first
    /// zero) and returns the snapshot; `None` when the FEN is not one or a move cannot be
    /// played (the moves before it stay played).
    pub fn load_fen_moves(&mut self, fen: &str, moves: &[i32], player_is_white: bool) -> (r: Option<BoardSnapshot>)
        requires
            old(self).game_ok(),
        ensures
            final(self).game_ok(),
            crate::fen::spec_fen(fen@) is None ==> r is None && *final(self) == *old(self),
            crate::fen::spec_fen(fen@) is Some ==> ({
                let h = final(self).history@;
                &&& crate::fen::board_of_fen(final(self).states@[0].0, crate::fen::spec_fen(fen@).unwrap())
                &&& final(self).states@[0].1 == initial_ids(final(self).states@[0].0.mailbox@)
                &&& final(self).start_fen@ == fen@
                &&& final(self).player_is_white == player_is_white
                &&& final(self).redo_stack@.len() == 0
                &&& final(self).search_time_ms == 0
                &&& final(self).advanced_stats@.len() == 0
                &&& bits_played(h, moves@)
                &&& (r is Some <==> (h.len() == moves@.len() || moves@[h.len() as int] == 0))
                &&& (r is None ==> h.len() < moves@.len() && !bits_playable(*final(self), moves@[h.len() as int]))
            }),
            r matches Some(snap) ==> shows(snap, *final(self)),
    {
        let board = match Board::from_fen(fen) {
            Some(b) => b,
            None => return None,
        };
        self.board = board;
        self.start_fen = String::from_str(fen);
        self.piece_ids = init_piece_ids(&self.board);
        self.history.clear();
        self.redo_stack.clear();
        self.player_is_white = player_is_white;
        self.search_time_ms = 0;
        self.advanced_stats = String::new();
        proof {
            self.states@ = Seq::empty().push((self.board, self.piece_ids@));
        }
        if self.play_bits(moves) {
            Some(self.get_snapshot())
        } else {
            None
        }
    }

    /// Plays the moves given by their bits, up to the first zero, from a game with no move
    /// played or undone; `false` when one cannot be decoded or played (the moves before it
    /// stay played).
    fn play_bits(&mut self, moves: &[i32]) -> (ok: bool)
        requires
            old(self).game_ok(),
            old(self).history@.len() == 0,
            old(self).redo_stack@.len() == 0,
        ensures
            final(self).game_ok(),
            final(self).states@[0] == old(self).states@[0],
            final(self).start_fen == old(self).start_fen,
            final(self).player_is_white == old(self).player_is_white,
            final(self).redo_stack@.len() == 0,
            final(self).search_time_ms == old(self).search_time_ms,
            final(self).advanced_stats == old(self).advanced_stats,
            bits_played(final(self).history@, moves@),
            ok <==> (final(self).history@.len() == moves@.len() || moves@[final(self).history@.len() as int] == 0),
            !ok ==> final(self).history@.len() < moves@.len() && !bits_playable(
                *final(self),
                moves@[final(self).history@.len() as int],
            ),
    {
        let ghost g0 = *self;
        let mut i: usize = 0;
        while i < moves.len()
            invariant
                i <= moves@.len(),
                self.game_ok(),
                i == self.history@.len(),
                g0 == *old(self),
                g0.states@.len() > 0,
                self.states@[0] == g0.states@[0],
                self.start_fen == g0.start_fen,
                self.player_is_white == g0.player_is_white,
                self.redo_stack@.len() == 0,
                self.search_time_ms == g0.search_time_ms,
                self.advanced_stats == g0.advanced_stats,
                bits_played(self.history@, moves@),
            ensures
                i == moves@.len() || moves@[i as int] == 0,
            decreases moves@.len() - i,
        {
            let m_int = moves[i];
            if m_int == 0 {
                break;
            }
            let mov = match Move::from_bits(m_int as u16) {
                Some(m) => m,
                None => return false,
            };
            if !self.playable(mov) {
                return false;
            }
            let ghost before = *self;
            self.apply_move_internal(mov);
            proof {
                assert(self.states@.drop_last() == before.states@);
                assert(self.states@[0] == self.states@.drop_last()[0]);
                assert(self.history@.drop_last() == before.history@);
                assert forall|k: int| 0 <= k < self.history@.len() implies #[trigger] self.history@[k].mov.0
                    == moves@[k] as u16 by {
                    if k < i {
                        assert(self.history@[k] == self.history@.drop_last()[k]);
                        assert(before.history@[k].mov.0 == moves@[k] as u16);
                    } else {
                        assert(self.history@[k].mov == mov);
                    }
                }
                assert forall|k: int| 0 <= k < self.history@.len() implies #[trigger] moves@[k] != 0 by {
                    if k < i {
                        assert(before.history@.len() == i);
                    }
                }
                assert(self.history@.len() <= moves@.len());
                assert(bits_played(self.history@, moves@));
            }
            i += 1;
        }
        true
    }
}



/// A game down to the two kings and at most one knight or bishop (no pawns, rooks or
/// queens) is drawn.
pub proof fn lemma_lone_minor_game_drawn(b: Board)
    requires
        b.bit_pieces[0] == 0,
        b.bit_pieces[3] == 0,
        b.bit_pieces[4] == 0,
        popcount(b.bit_pieces[1] | b.bit_pieces[2]) <= 1,
        popcount(occ_of(b)) <= 3,
    ensures
        spec_game_state(b) == GameState::Draw,
{
    crate::legality::lemma_lone_minor_draws(b);
}

} // verus!
