use crate::bitboard::{RANK_2, RANK_7};
use crate::board::{
    king_bb, lemma_make_undo_roundtrip, lemma_same_mailbox_bits, lemma_view_determines, move_ok,
    pseudo_ok, Board,
};
use crate::legality::legal_pre;
use crate::chess_move::{lemma_move_classes, move_none, Move};
use crate::color::{opponent, Color};
use crate::eval::{eval_board, spec_eval};
use crate::generator::{progressed, stage_rank, yielded_ok, GenStage, MoveGenerator, MoveListPtr};
use crate::history::{
    history_depth_bonus, ContHistKeys, ContinuationHistoryTable, HistoryTable, QuietsTried,
};
use crate::movegen::{
    gen_all_moves, generated_ok, is_special, lemma_plain_pseudo_ok, list_ok, move_pass, produces,
    MoveList,
};
use crate::params::{
    piece_value, DELTA_MARGIN, EVAL_NONE, FUTILITY_MARGIN, FUTILITY_MAX_DEPTH,
    GLOBAL_DELTA_MARGIN, INFINITY, MATE_THRESHOLD, MAX_PLY, NMP_EVAL_DIVISOR, NMP_MIN_REDUCTION,
    RFP_DEPTH, RFP_MARGIN, SEE_CAPTURE_MARGIN, SEE_QSEARCH_MARGIN, ASPIRATION_FLUCTUATION,
    ASPIRATION_INITIAL_DELTA, ASPIRATION_MIN_DEPTH,
};
use crate::piece::Piece;
use crate::scoring::see_ge;
use crate::stack::{SearchStack, StackEntry};
use crate::stop::{request_stop, stop_requested};
use crate::time::{elapsed_ns, TimeManager};
use crate::text::{decimal, push_char, push_decimal};
use crate::uci::{format_move, format_score, spec_format_move, spec_format_score};
use crate::legality::{spec_is_draw, spec_legal, spec_pinned};
use crate::transposition::{flag_code, flag_of_bits, spec_probe, spec_store, TTEntry, TTFlag, TranspositionTable};
use std::sync::atomic::AtomicBool;
use vstd::prelude::*;

verus! {

/// The limits are looked at once every this many nodes (plus one).
pub const TIME_CHECK_MASK: u64 = 1023;

/// The state of a running search.
pub struct Searcher {
    pub nodes_searched: u64,
    pub root_ply: u16,
    pub selective_depth: u8,
    pub stopped: bool,
    pub board: Board,
    pub time_manager: TimeManager,
    pub stack: SearchStack,
    pub pv_table: Vec<Move>,
    pub history: HistoryTable,
    pub cont_history: ContinuationHistoryTable,
    pub buffer: MoveList,
}

/// Whether `b` can be searched: consistent, both kings on the board.
pub open spec fn searchable(b: Board) -> bool {
    &&& b.wf()
    &&& king_bb(b, Color::White) != 0
    &&& king_bb(b, Color::Black) != 0
}

impl Searcher {
    /// The distance of the current node from the root.
    pub open spec fn spec_ply(&self) -> int {
        self.board.ply - self.root_ply
    }

    /// The tables have their sizes and bounds, the position can be searched, and the
    /// current node is at most [`MAX_PLY`] plies from the root.
    pub open spec fn ok(&self) -> bool {
        &&& searchable(self.board)
        &&& self.root_ply <= self.board.ply
        &&& self.board.ply - self.root_ply <= MAX_PLY
        &&& self.stack.wf()
        &&& self.pv_table@.len() == 4096
        &&& self.history.wf()
        &&& self.cont_history.wf()
    }

    /// A search of `board` within the limits of `time_manager`; already stopped when a
    /// stop is requested.
    pub fn new(board: Board, stop: &AtomicBool, time_manager: TimeManager) -> (r: Self)
        requires
            searchable(board),
        ensures
            r.ok(),
            r.board == board,
            r.root_ply == board.ply,
            r.nodes_searched == 0,
    {
        let root_ply = board.ply;
        let stopped = stop_requested(stop);
        let mut pv_table: Vec<Move> = Vec::new();
        let mut i: usize = 0;
        while i < 4096
            invariant
                i <= 4096,
                pv_table@.len() == i,
            decreases 4096 - i,
        {
            pv_table.push(Move::none());
            i += 1;
        }
        Searcher {
            nodes_searched: 0,
            root_ply,
            selective_depth: 0,
            stopped,
            board,
            time_manager,
            stack: SearchStack::new(),
            pv_table,
            history: HistoryTable::new(),
            cont_history: ContinuationHistoryTable::new(),
            buffer: MoveList::new(),
        }
    }

    /// The distance of the current node from the root.
    fn ply(&self) -> (r: u16)
        requires
            self.ok(),
        ensures
            r == self.spec_ply(),
            r <= MAX_PLY,
    {
        self.board.ply - self.root_ply
    }

    /// Every so many nodes, stops the search when a stop is requested or a hard limit is
    /// reached, and then requests a stop from the other searches too.
    fn check_limits(&mut self, stop: &AtomicBool)
        ensures
            *final(self) == (Searcher { stopped: final(self).stopped, ..*old(self) }),
            old(self).stopped ==> final(self).stopped,
    {
        if self.nodes_searched & TIME_CHECK_MASK == 0 && (stop_requested(stop)
            || self.time_manager.is_hard_limit_exceeded(self.nodes_searched)) {
            self.stopped = true;
            request_stop(stop);
        }
    }

    /// The static evaluation of the current position for the side to move, kept clear of
    /// the mate scores.
    fn eval_position(&self) -> (r: i16)
        ensures
            -MATE_THRESHOLD < r < MATE_THRESHOLD,
            r == position_eval(self.board),
    {
        let e = eval_board(&self.board);
        if e >= MATE_THRESHOLD {
            MATE_THRESHOLD - 1
        } else if e <= -MATE_THRESHOLD {
            -MATE_THRESHOLD + 1
        } else {
            e
        }
    }

    /// Stores a search result for the current position unless the search was stopped.
    fn store_tt(&self, tt: &mut TranspositionTable, mov: Move, score: i16, eval: i16, depth: u8, flag: TTFlag)
        requires
            self.ok(),
            old(tt).wf(),
            -INFINITY <= score <= INFINITY,
        ensures
            final(tt).wf(),
            self.stopped ==> *final(tt) == *old(tt),
            !self.stopped ==> final(tt).age == old(tt).age && final(tt).slots@ == spec_store(
                old(tt).slots@,
                old(tt).age,
                self.board.hash,
                TTEntry { mov, eval, value: score, depth, flag_age: flag_code(flag) },
                self.spec_ply() as u16,
            ),
    {
        if self.stopped {
            return;
        }
        let entry = TTEntry::new(mov, score, eval, depth, flag);
        tt.store(self.board.hash, entry, self.ply());
    }

    /// Makes `mov` the first move of the principal variation of ply `ply`, followed by that
    /// of the next ply.
    #[verifier::loop_isolation(false)]
    fn update_pv(&mut self, ply: u16, mov: Move)
        requires
            old(self).ok(),
            ply < MAX_PLY - 1,
        ensures
            final(self).ok(),
            final(self).board == old(self).board,
            final(self).root_ply == old(self).root_ply,
            final(self).buffer == old(self).buffer,
            final(self).stopped == old(self).stopped,
    {
        let row = ply as usize * 64;
        self.pv_table.set(row, mov);
        let next = self.stack.get(ply + 1).pv_length as usize;
        let cap = (MAX_PLY - 1 - ply) as usize;
        let next_len = if next < cap {
            next
        } else {
            cap
        };
        let mut i: usize = 0;
        while i < next_len
            invariant
                i <= next_len,
                next_len <= 63 - ply,
                ply < MAX_PLY - 1,
                row == ply * 64,
                self.pv_table@.len() == 4096,
                self.ok(),
                self.board == old(self).board,
                self.root_ply == old(self).root_ply,
                self.buffer == old(self).buffer,
                self.stopped == old(self).stopped,
            decreases next_len - i,
        {
            let m = self.pv_table[row + 64 + i];
            self.pv_table.set(row + 1 + i, m);
            i += 1;
        }
        let mut e = self.stack.get(ply);
        e.pv_length = (next_len + 1) as u16;
        self.stack.set(ply, e);
    }
}


/// Whether a move the generator handed out may be played: room in the move counters, and
/// not a king flagged as a double pawn push.
fn can_make(board: &Board, mov: Move) -> (r: bool)
    requires
        searchable(*board),
        yielded_ok(*board, mov),
    ensures
        r ==> move_ok(*board, mov) && legal_pre(*board, mov),
{
    proof {
        lemma_move_classes(mov);
    }
    if board.half_move_clock >= 255 || board.ply >= 65535 {
        return false;
    }
    if mov.flags_bits() == 1 {
        match board.mailbox[mov.from() as usize] {
            Some(p) => {
                if p.piece() == Piece::King {
                    return false;
                }
            },
            None => {},
        }
    }
    proof {
        if !generated_ok(*board, mov) {
            lemma_plain_pseudo_ok(*board, mov);
        }
    }
    true
}

/// Whether both kings are on the board.
fn kings_present(board: &Board) -> (r: bool)
    ensures
        r == (king_bb(*board, Color::White) != 0 && king_bb(*board, Color::Black) != 0),
{
    board.color_piece(Piece::King, Color::White) != 0 && board.color_piece(Piece::King, Color::Black) != 0
}

/// The buffer keeps its first `n` moves.
pub open spec fn keeps_prefix(old_buf: Seq<crate::movegen::ScoredMove>, new_buf: Seq<crate::movegen::ScoredMove>, n: int) -> bool {
    &&& new_buf.len() >= n
    &&& forall|i: int| 0 <= i < n ==> new_buf[i] == old_buf[i]
}

impl Searcher {
    /// Plays `mov` (generated for the current position), or does nothing and returns
    /// `None` when that would take a king.
    fn play(&mut self, mov: Move) -> (r: Option<crate::board::UndoInfo>)
        requires
            old(self).ok(),
            old(self).spec_ply() < MAX_PLY,
            move_ok(old(self).board, mov),
        ensures
            r is None ==> *final(self) == *old(self),
            r matches Some(u) ==> final(self).ok() && final(self).spec_ply() == old(self).spec_ply() + 1
                && final(self).board@ == crate::board::spec_make(old(self).board@, mov, final(self).board.checkers)
                && u == crate::board::undo_of(old(self).board, mov),
            *final(self) == (Searcher { board: final(self).board, ..*old(self) }),
    {
        let ghost b0 = self.board;
        let undo = self.board.make_move(mov);
        if !kings_present(&self.board) {
            proof {
                lemma_make_undo_roundtrip(b0, mov, self.board.checkers);
            }
            self.board.undo_move(mov, undo);
            proof {
                lemma_view_determines(self.board, b0);
            }
            return None;
        }
        Some(undo)
    }

    /// Takes back `mov`, played with [`Searcher::play`] from position `b0`.
    fn unplay(&mut self, mov: Move, undo: crate::board::UndoInfo, Ghost(b0): Ghost<Board>)
        requires
            searchable(b0),
            move_ok(b0, mov),
            old(self).board.wf(),
            old(self).board@ == crate::board::spec_make(b0@, mov, old(self).board.checkers),
            undo == crate::board::undo_of(b0, mov),
        ensures
            *final(self) == (Searcher { board: b0, ..*old(self) }),
    {
        proof {
            lemma_make_undo_roundtrip(b0, mov, self.board.checkers);
        }
        self.board.undo_move(mov, undo);
        proof {
            lemma_view_determines(self.board, b0);
        }
    }
}


impl Searcher {
    /// The quiescence search: from a stand-pat score (unless in check), tries the
    /// captures and promotions (all evasions in check) worth trying, and returns the best
    /// score within the window; 0 once stopped.
    #[verifier::rlimit(100)]
    pub fn qsearch(
        &mut self,
        tt: &mut TranspositionTable,
        stop: &AtomicBool,
        move_buffer: MoveListPtr,
        alpha: i16,
        beta: i16,
    ) -> (r: i16)
        requires
            old(self).ok(),
            old(tt).wf(),
            move_buffer.0 <= old(self).buffer.moves@.len(),
            -INFINITY <= alpha < beta <= INFINITY,
        ensures
            final(self).ok(),
            final(tt).wf(),
            final(self).board == old(self).board,
            final(self).root_ply == old(self).root_ply,
            keeps_prefix(old(self).buffer.moves@, final(self).buffer.moves@, move_buffer.0 as int),
            -INFINITY <= r <= INFINITY,
            (!final(self).stopped && old(self).spec_ply() < MAX_PLY - 1 && spec_probe(
                old(tt).slots@,
                old(self).board.hash,
                old(self).spec_ply() as u16,
            ) is None && old(self).board.checkers == 0 && position_eval(old(self).board) >= beta) ==> {
                &&& r == position_eval(old(self).board)
                &&& final(tt).slots@ == spec_store(
                    old(tt).slots@,
                    old(tt).age,
                    old(self).board.hash,
                    TTEntry {
                        mov: move_none(),
                        eval: r,
                        value: r,
                        depth: 0,
                        flag_age: flag_code(TTFlag::LowerBound),
                    },
                    old(self).spec_ply() as u16,
                )
            },
        decreases MAX_PLY - old(self).spec_ply(), 0int,
    {
        let mut alpha = alpha;
        self.nodes_searched = self.nodes_searched.saturating_add(1);
        self.check_limits(stop);
        if self.stopped {
            return 0;
        }
        let ply = self.ply();
        if ply >= MAX_PLY - 1 {
            return self.eval_position();
        }
        if ply > self.selective_depth as u16 {
            self.selective_depth = ply as u8;
        }
        let (tt_move, mut static_eval) = match tt.probe(self.board.hash, ply) {
            Some(entry) => {
                match cutoff(&entry, 0, alpha, beta) {
                    Some(score) => {
                        return clamp_score(score);
                    },
                    None => {},
                }
                (entry.mov, entry.eval)
            },
            None => (Move::none(), EVAL_NONE),
        };
        let orig_alpha = alpha;
        let in_check = self.board.in_check();
        let mut best_score: i16 = if in_check {
            -INFINITY + ply as i16
        } else {
            if static_eval == EVAL_NONE || static_eval >= MATE_THRESHOLD || static_eval <= -MATE_THRESHOLD {
                static_eval = self.eval_position();
            }
            if static_eval >= beta {
                self.store_tt(tt, Move::none(), static_eval, static_eval, 0, TTFlag::LowerBound);
                return static_eval;
            }
            if static_eval > alpha {
                alpha = static_eval;
            }
            let our_pawns = self.board.color_piece(Piece::Pawn, self.board.to_play);
            let has_promoting_pawns = if self.board.to_play == Color::White {
                (our_pawns & RANK_7) != 0
            } else {
                (our_pawns & RANK_2) != 0
            };
            if !has_promoting_pawns && static_eval < alpha - GLOBAL_DELTA_MARGIN {
                return static_eval;
            }
            static_eval
        };
        let ghost standpat_case = spec_probe(old(tt).slots@, old(self).board.hash, old(self).spec_ply() as u16) is None
            && old(self).board.checkers == 0 && position_eval(old(self).board) >= beta;
        assert(!standpat_case);
        let mut moves = MoveGenerator::quiescence(move_buffer, tt_move);
        let mut best_move = Move::none();
        let killer_moves = self.stack.get_killers(ply);
        let no_conthist: ContHistKeys = [None, None];
        let ghost b0 = self.board;
        let ghost root = self.root_ply;
        loop
            invariant
                !standpat_case,
                standpat_case == (spec_probe(old(tt).slots@, old(self).board.hash, old(self).spec_ply() as u16) is None
                    && old(self).board.checkers == 0 && position_eval(old(self).board) >= beta),
                self.ok(),
                tt.wf(),
                self.board == b0,
                self.root_ply == root,
                root == old(self).root_ply,
                b0 == old(self).board,
                ply == self.spec_ply(),
                ply < MAX_PLY - 1,
                moves.gen_ok(b0, self.buffer.moves@),
                moves.start_ptr == move_buffer,
                keeps_prefix(old(self).buffer.moves@, self.buffer.moves@, move_buffer.0 as int),
                -INFINITY <= alpha < beta <= INFINITY,
                -INFINITY <= best_score <= INFINITY,
                in_check || -MATE_THRESHOLD < static_eval < MATE_THRESHOLD,
                in_check == (b0.checkers != 0),
            decreases stage_rank(moves.stage), moves.spec_len() - moves.list_index,
        {
            let ghost before = moves;
            let scored_mov = match moves.next(&self.board, &mut self.buffer, killer_moves, &self.history, &self.cont_history, &no_conthist) {
                Some(sm) => sm,
                None => {
                    break;
                },
            };
            let mov = scored_mov.mov;
            proof {
                lemma_move_classes(mov);
            }
            if !in_check && !mov.is_tactical() {
                continue;
            }
            if !in_check {
                let victim_val = if mov.flags_bits() == 5 {
                    piece_value(Piece::Pawn)
                } else {
                    match self.board.mailbox[mov.to() as usize] {
                        Some(p) => piece_value(p.piece()),
                        None => 0,
                    }
                };
                let promo_val = if mov.is_promotion() {
                    piece_value(Piece::Queen) - piece_value(Piece::Pawn)
                } else {
                    0
                };
                if sat_add(static_eval, victim_val + promo_val + DELTA_MARGIN) < alpha {
                    continue;
                }
                if tt_move != mov && scored_mov.is_bad_capture() && !see_ge(mov, &self.board, SEE_QSEARCH_MARGIN) {
                    continue;
                }
            }
            if !can_make(&self.board, mov) {
                continue;
            }
            if !self.board.legal(mov) {
                continue;
            }
            let moved_piece = self.board.mailbox[mov.from() as usize];
            let undo = match self.play(mov) {
                Some(u) => u,
                None => {
                    continue;
                },
            };
            let child_ply = ply + 1;
            let mut child = self.stack.get(child_ply);
            child.set_move(mov, moved_piece, undo.captured_piece);
            self.stack.set(child_ply, child);
            let ghost buf_before = self.buffer.moves@;
            let child_score = self.qsearch(tt, stop, moves.next_ptr(), -beta, -alpha);
            let score = -child_score;
            self.unplay(mov, undo, Ghost(b0));
            proof {
                assert(crate::generator::list_range_ok(b0, self.buffer.moves@, moves.start_ptr.0 as int, moves.end_ptr.0 as int)) by {
                    assert forall|i: int| moves.start_ptr.0 <= i < moves.end_ptr.0 implies #[trigger] generated_ok(b0, self.buffer.moves@[i].mov) by {
                        assert(self.buffer.moves@[i] == buf_before[i]);
                    }
                }
            }
            if self.stopped {
                return 0;
            }
            if score > best_score {
                best_score = score;
                best_move = mov;
                if score > alpha {
                    alpha = score;
                }
            }
            if score >= beta {
                self.store_tt(tt, mov, best_score, static_eval, 0, TTFlag::LowerBound);
                return best_score;
            }
        }
        if best_score <= orig_alpha {
            self.store_tt(tt, Move::none(), best_score, static_eval, 0, TTFlag::UpperBound);
        } else if in_check {
            self.store_tt(tt, best_move, best_score, static_eval, 0, TTFlag::Exact);
        }
        best_score
    }
}


/// Whether `mov`, read from the transposition table, can be played in `board`: a
/// pseudo-legal move that [`can_make`] accepts.
fn tt_move_playable(board: &Board, mov: Move) -> (r: bool)
    requires
        searchable(*board),
    ensures
        r ==> move_ok(*board, mov) && legal_pre(*board, mov),
{
    if mov.is_none() || !board.pseudo_legal(mov) {
        return false;
    }
    can_make(board, mov)
}

impl Searcher {
    /// Rewards the quiet move `best` that caused a cutoff and penalises the quiet moves
    /// tried before it, in the history and continuation-history tables.
    fn update_quiet_history(&mut self, best: Move, tried: &[Move], keys: &ContHistKeys, depth: u8)
        requires
            old(self).ok(),
        ensures
            final(self).ok(),
            *final(self) == (Searcher {
                history: final(self).history,
                cont_history: final(self).cont_history,
                ..*old(self)
            }),
    {
        let side = self.board.to_play;
        self.history.update_bonus(side, best.from(), best.to(), depth);
        let mut i: usize = 0;
        while i < tried.len()
            invariant
                self.ok(),
                *self == (Searcher { history: self.history, cont_history: self.cont_history, ..*old(self) }),
            decreases tried@.len() - i,
        {
            self.history.update_malus(side, tried[i].from(), tried[i].to(), depth);
            i += 1;
        }
        let bonus = history_depth_bonus(depth);
        let half = bonus >> 1;
        assert(0 <= half <= 5000) by (bit_vector)
            requires
                half == bonus >> 1,
                0 <= bonus <= 10_000,
        ;
        let curr_piece = match self.board.mailbox[best.from() as usize] {
            Some(p) => p.piece(),
            None => Piece::Pawn,
        };
        self.cont_history.update(keys[0], curr_piece, best.to(), bonus);
        self.cont_history.update(keys[1], curr_piece, best.to(), half);
        let mut j: usize = 0;
        while j < tried.len()
            invariant
                self.ok(),
                0 <= bonus <= 10_000,
                0 <= half <= 5000,
                *self == (Searcher { history: self.history, cont_history: self.cont_history, ..*old(self) }),
            decreases tried@.len() - j,
        {
            let m = tried[j];
            let piece = match self.board.mailbox[m.from() as usize] {
                Some(p) => p.piece(),
                None => Piece::Pawn,
            };
            self.cont_history.update(keys[0], piece, m.to(), -bonus);
            self.cont_history.update(keys[1], piece, m.to(), -half);
            j += 1;
        }
    }

    /// Tries a null move: passes the turn and searches the reply at reduced depth with a
    /// null window at `beta`; returns whether that proves a score of at least `beta`.
    fn null_move_cutoff(
        &mut self,
        tt: &mut TranspositionTable,
        stop: &AtomicBool,
        move_buffer: MoveListPtr,
        beta: i16,
        depth: u8,
        static_eval: i16,
    ) -> (r: bool)
        requires
            old(self).ok(),
            old(tt).wf(),
            old(self).spec_ply() < MAX_PLY - 1,
            old(self).board.checkers == 0,
            move_buffer.0 <= old(self).buffer.moves@.len(),
            -INFINITY < beta <= INFINITY,
            static_eval >= beta,
            static_eval < MATE_THRESHOLD,
        ensures
            final(self).ok(),
            final(tt).wf(),
            final(self).board == old(self).board,
            final(self).root_ply == old(self).root_ply,
            keeps_prefix(old(self).buffer.moves@, final(self).buffer.moves@, move_buffer.0 as int),
        decreases MAX_PLY - old(self).spec_ply(), 0int,
    {
        if self.board.half_move_clock >= 255 || self.board.ply >= 65535 {
            return false;
        }
        let ghost b0 = self.board;
        let ply = self.ply();
        let undo = self.board.make_null_move();
        proof {
            lemma_same_mailbox_bits(self.board, b0);
        }
        let mut child = self.stack.get(ply + 1);
        child.set_null_move();
        self.stack.set(ply + 1, child);
        let eval_margin = static_eval as i32 - beta as i32;
        let reduction = NMP_MIN_REDUCTION as i32 + eval_margin / NMP_EVAL_DIVISOR as i32;
        let child_depth: u8 = if (depth as i32) > reduction {
            (depth as i32 - reduction) as u8
        } else {
            0
        };
        let child_score = self.nega_max(tt, stop, move_buffer, -beta, -beta + 1, child_depth, false, false);
        self.board.undo_null_move(undo);
        proof {
            assert(self.board@ == b0@);
            lemma_view_determines(self.board, b0);
        }
        if self.stopped {
            return false;
        }
        -child_score >= beta
    }

    /// The negamax alpha-beta search of the current position to `depth` within the window
    /// (`alpha`, `beta`), `is_pv` on the principal variation, `can_null` when a null move
    /// may be tried; returns the best score found (0 once stopped), leaving the position as
    /// it was.
    #[verifier::rlimit(100)]
    pub fn nega_max(
        &mut self,
        tt: &mut TranspositionTable,
        stop: &AtomicBool,
        move_buffer: MoveListPtr,
        alpha: i16,
        beta: i16,
        depth: u8,
        can_null: bool,
        is_pv: bool,
    ) -> (r: i16)
        requires
            old(self).ok(),
            old(tt).wf(),
            move_buffer.0 <= old(self).buffer.moves@.len(),
            -INFINITY <= alpha < beta <= INFINITY,
        ensures
            final(self).ok(),
            final(tt).wf(),
            final(self).board == old(self).board,
            final(self).root_ply == old(self).root_ply,
            keeps_prefix(old(self).buffer.moves@, final(self).buffer.moves@, move_buffer.0 as int),
            -INFINITY <= r <= INFINITY,
            (!final(self).stopped && old(self).spec_ply() < MAX_PLY - 1 && depth >= 1 && (
            old(self).spec_ply() == 0 || !spec_is_draw(old(self).board)) && spec_probe(
                old(tt).slots@,
                old(self).board.hash,
                old(self).spec_ply() as u16,
            ) is None && (old(self).board.checkers != 0 || is_pv) && !has_root_move(old(self).board))
                ==> {
                &&& r == no_move_score(old(self).board, old(self).spec_ply())
                &&& final(tt).slots@ == spec_store(
                    old(tt).slots@,
                    old(tt).age,
                    old(self).board.hash,
                    TTEntry {
                        mov: move_none(),
                        eval: if old(self).board.checkers != 0 {
                            EVAL_NONE
                        } else {
                            position_eval(old(self).board)
                        },
                        value: r,
                        depth,
                        flag_age: flag_code(TTFlag::Exact),
                    },
                    old(self).spec_ply() as u16,
                )
            },
        decreases MAX_PLY - old(self).spec_ply(), 1int,
    {
        let mut alpha = alpha;
        let ply = self.ply();
        if ply >= MAX_PLY - 1 {
            return self.eval_position();
        }
        let in_check = self.board.in_check();
        let has_non_pawn = self.board.has_non_pawn_material(self.board.to_play);
        let mut here = self.stack.get(ply);
        here.pv_length = 0;
        self.stack.set(ply, here);
        self.stack.clear_killers(ply + 1);
        self.nodes_searched = self.nodes_searched.saturating_add(1);
        self.check_limits(stop);
        if self.stopped || (ply > 0 && self.board.is_draw()) {
            return 0;
        }
        if depth == 0 {
            return self.qsearch(tt, stop, move_buffer, alpha, beta);
        }
        let (tt_move, mut static_eval) = match tt.probe(self.board.hash, ply) {
            Some(entry) => {
                if ply > 0 {
                    match cutoff(&entry, depth, alpha, beta) {
                        Some(score) => {
                            if !is_pv {
                                return clamp_score(score);
                            }
                            if entry.flag() == TTFlag::Exact {
                                if tt_move_playable(&self.board, entry.mov) && self.board.legal(entry.mov) {
                                    self.pv_table.set(ply as usize * 64, entry.mov);
                                    let mut e = self.stack.get(ply);
                                    e.pv_length = 1;
                                    self.stack.set(ply, e);
                                }
                                return clamp_score(score);
                            }
                        },
                        None => {},
                    }
                }
                (entry.mov, entry.eval)
            },
            None => (Move::none(), EVAL_NONE),
        };
        if !in_check && (static_eval == EVAL_NONE || static_eval >= MATE_THRESHOLD || static_eval <= -MATE_THRESHOLD) {
            static_eval = self.eval_position();
        }
        let mut here = self.stack.get(ply);
        here.eval = static_eval;
        self.stack.set(ply, here);
        if !is_pv && !in_check && depth <= RFP_DEPTH && beta < MATE_THRESHOLD
            && (tt_move.is_none() || !tt_move.is_tactical()) && has_non_pawn
            && static_eval >= sat_add(beta, RFP_MARGIN * depth as i16) {
            return ((static_eval as i32 + beta as i32) / 2) as i16;
        }
        if !is_pv && !in_check && can_null && depth >= NMP_MIN_REDUCTION && static_eval >= beta
            && beta < MATE_THRESHOLD && has_non_pawn {
            if self.null_move_cutoff(tt, stop, move_buffer, beta, depth, static_eval) {
                return beta;
            }
            if self.stopped {
                return 0;
            }
        }
        let fut = FUTILITY_MARGIN as i32 * depth as i32;
        let futility_margin_eval = sat_add(static_eval, if fut > 32767 {
            32767
        } else {
            fut as i16
        });
        let orig_alpha = alpha;
        let mut moves = MoveGenerator::new(move_buffer, tt_move);
        let mut legal_moves: u32 = 0;
        let mut quiets_tried = QuietsTried::new();
        let mut skip_quiets = false;
        let mut best_score: i16 = -INFINITY;
        let mut best_move = Move::none();
        let killer_moves = self.stack.get_killers(ply);
        let keys: ContHistKeys = [self.stack.get(ply).stack_move.piece_to(), self.stack.relative(ply, -1).stack_move.piece_to()];
        let ghost b0 = self.board;
        let ghost root = self.root_ply;
        let ghost tt0 = *tt;
        let ghost mate_case = spec_probe(old(tt).slots@, old(self).board.hash, old(self).spec_ply() as u16) is None
            && (in_check || is_pv) && !has_root_move(old(self).board);
        assert(mate_case ==> tt_move == move_none() && tt0 == *old(tt));
        assert(mate_case ==> static_eval == (if in_check { EVAL_NONE } else { position_eval(b0) }));
        loop
            invariant
                mate_case == (spec_probe(old(tt).slots@, old(self).board.hash, old(self).spec_ply() as u16) is None
                    && (in_check || is_pv) && !has_root_move(old(self).board)),
                mate_case ==> tt_move == move_none() && tt0 == *old(tt),
                mate_case ==> static_eval == (if in_check { EVAL_NONE } else { position_eval(b0) }),
                mate_case ==> legal_moves == 0,
                legal_moves == 0 ==> *tt == tt0,
                moves.tt_move == tt_move,
                in_check == (b0.checkers != 0),
                mate_case ==> !has_root_move(b0),
                self.ok(),
                tt.wf(),
                self.board == b0,
                self.root_ply == root,
                root == old(self).root_ply,
                b0 == old(self).board,
                ply == self.spec_ply(),
                ply < MAX_PLY - 1,
                moves.gen_ok(b0, self.buffer.moves@),
                moves.start_ptr == move_buffer,
                keeps_prefix(old(self).buffer.moves@, self.buffer.moves@, move_buffer.0 as int),
                -INFINITY <= alpha < beta <= INFINITY,
                -INFINITY <= best_score <= INFINITY,
                legal_moves <= 0x7fff_ffff,
                depth >= 1,
            decreases stage_rank(moves.stage), moves.spec_len() - moves.list_index,
        {
            let scored_mov = match moves.next(&self.board, &mut self.buffer, killer_moves, &self.history, &self.cont_history, &keys) {
                Some(sm) => sm,
                None => {
                    break;
                },
            };
            if self.stopped {
                return 0;
            }
            let mov = scored_mov.mov;
            proof {
                lemma_move_classes(mov);
            }
            if !can_make(&self.board, mov) {
                continue;
            }
            if !self.board.legal(mov) {
                continue;
            }
            proof {
                if mate_case {
                    crate::chess_move::lemma_none_code();
                    assert(mov != tt_move);
                    assert(produces(b0, move_pass(b0), mov));
                    assert(legal_root_move(b0, mov));
                    assert(has_root_move(b0));
                }
            }
            if legal_moves < 0x7fff_ffff {
                legal_moves += 1;
            }
            if !is_pv && mov.is_capture() && scored_mov.is_bad_capture()
                && !see_ge(mov, &self.board, depth as i32 * SEE_CAPTURE_MARGIN) {
                continue;
            }
            let move_gives_check = self.board.gives_check(mov);
            if skip_quiets && !mov.is_tactical() && !move_gives_check {
                continue;
            }
            if !is_pv && depth < FUTILITY_MAX_DEPTH && legal_moves > 1 && !(alpha > MATE_THRESHOLD)
                && !in_check && futility_margin_eval <= alpha && !mov.is_tactical()
                && mov.flags_bits() != 1 && !move_gives_check {
                if static_eval > best_score && static_eval <= INFINITY {
                    best_score = static_eval;
                }
                skip_quiets = true;
                continue;
            }
            let moved_piece = self.board.mailbox[mov.from() as usize];
            let undo = match self.play(mov) {
                Some(u) => u,
                None => {
                    continue;
                },
            };
            let child_ply = ply + 1;
            let mut child = self.stack.get(child_ply);
            child.set_move(mov, moved_piece, undo.captured_piece);
            self.stack.set(child_ply, child);
            let ghost buf_before = self.buffer.moves@;
            let next_ptr = moves.next_ptr();
            let mut score: i16 = -INFINITY;
            let mut do_full_search = true;
            if legal_moves > 1 {
                do_full_search = false;
                let s = self.nega_max(tt, stop, next_ptr, -alpha - 1, -alpha, depth - 1, true, false);
                score = -s;
                if is_pv && score > alpha && score < beta {
                    do_full_search = true;
                }
            }
            if do_full_search {
                let s = self.nega_max(tt, stop, next_ptr, -beta, -alpha, depth - 1, true, is_pv);
                score = -s;
            }
            self.unplay(mov, undo, Ghost(b0));
            proof {
                assert(crate::generator::list_range_ok(b0, self.buffer.moves@, moves.start_ptr.0 as int, moves.end_ptr.0 as int)) by {
                    assert forall|i: int| moves.start_ptr.0 <= i < moves.end_ptr.0 implies #[trigger] generated_ok(b0, self.buffer.moves@[i].mov) by {
                        assert(self.buffer.moves@[i] == buf_before[i]);
                    }
                }
            }
            if self.stopped {
                return 0;
            }
            if score > best_score {
                best_score = score;
                if score > alpha {
                    alpha = score;
                    best_move = mov;
                    if is_pv {
                        self.update_pv(ply, mov);
                    }
                }
            }
            if score >= beta {
                if mov.is_quiet() {
                    self.stack.set_killer(ply, mov);
                    self.update_quiet_history(mov, quiets_tried.as_slice(), &keys, depth);
                }
                self.store_tt(tt, mov, best_score, static_eval, depth, TTFlag::LowerBound);
                return best_score;
            }
            if mov.is_quiet() {
                quiets_tried.push_move(mov);
            }
        }
        if legal_moves == 0 {
            let score = if in_check {
                -INFINITY + ply as i16
            } else {
                0
            };
            self.store_tt(tt, Move::none(), score, static_eval, depth, TTFlag::Exact);
            return score;
        }
        if best_score <= orig_alpha {
            self.store_tt(tt, Move::none(), best_score, static_eval, depth, TTFlag::UpperBound);
        } else {
            self.store_tt(tt, best_move, best_score, static_eval, depth, TTFlag::Exact);
        }
        best_score
    }
}


/// The static evaluation the search uses: that of [`spec_eval`], kept clear of the mate
/// scores.
pub open spec fn position_eval(b: Board) -> i16 {
    let e = spec_eval(b);
    if e >= MATE_THRESHOLD {
        (MATE_THRESHOLD - 1) as i16
    } else if e <= -MATE_THRESHOLD {
        (-MATE_THRESHOLD + 1) as i16
    } else {
        e
    }
}

/// The score of a position without a legal move at distance `ply` from the root: mated
/// (the sooner the worse) in check, a draw (stalemate) otherwise.
pub open spec fn no_move_score(b: Board, ply: int) -> i16 {
    if b.checkers != 0 {
        (-INFINITY + ply) as i16
    } else {
        0
    }
}

/// A legal move of `b`: produced by the move generator, and leaving the mover's king safe.
pub open spec fn legal_root_move(b: Board, m: Move) -> bool {
    produces(b, move_pass(b), m) && generated_ok(b, m) && spec_legal(b, m, if b.pinned == crate::board::UNCOMPUTED_PINNED {
        spec_pinned(b)
    } else {
        b.pinned
    })
}

/// How many moves of the principal variation an `info` line shows: its length, at most 64.
pub open spec fn pv_shown(len: u16) -> int {
    if len < 64 {
        len as int
    } else {
        64
    }
}

/// The moves of `pv` in coordinate notation, separated by spaces.
pub open spec fn pv_text(pv: Seq<Move>) -> Seq<char>
    decreases pv.len(),
{
    if pv.len() == 0 {
        Seq::empty()
    } else if pv.len() == 1 {
        spec_format_move(pv[0])
    } else {
        pv_text(pv.drop_last()) + seq![' '] + spec_format_move(pv.last())
    }
}

/// The `info` line reporting a finished depth: depth, selective depth, score, time in
/// milliseconds, nodes per second, nodes, table use, and the principal variation.
pub open spec fn spec_info_line(
    depth: u8,
    seldepth: u8,
    score: i16,
    elapsed_ms: u64,
    nodes: u64,
    hashfull: int,
    pv: Seq<Move>,
) -> Seq<char> {
    "info depth "@ + decimal(depth as nat) + " seldepth "@ + decimal(seldepth as nat) + " score "@
        + spec_format_score(score) + " time "@ + decimal(elapsed_ms as nat) + " nps "@ + decimal(
        ((nodes as int * 1000 / elapsed_ms as int) as u64) as nat,
    ) + " nodes "@ + decimal(nodes as nat) + " hashfull "@ + decimal(hashfull as nat) + " pv "@
        + pv_text(pv)
}

/// Writes the `info` line of a finished depth (see [`spec_info_line`]) with the first `n`
/// moves of `pv`.
pub fn info_line(
    depth: u8,
    seldepth: u8,
    score: i16,
    elapsed_ms: u64,
    nodes: u64,
    hashfull: usize,
    pv: &Vec<Move>,
    n: usize,
) -> (r: String)
    requires
        elapsed_ms >= 1,
        n <= pv@.len(),
    ensures
        r@ == spec_info_line(depth, seldepth, score, elapsed_ms, nodes, hashfull as int, pv@.subrange(0, n as int)),
{
    let mut s = String::new();
    let nps = (nodes as u128 * 1000 / elapsed_ms as u128) as u64;
    push_text(&mut s, "info depth ");
    push_decimal(&mut s, depth as u64);
    push_text(&mut s, " seldepth ");
    push_decimal(&mut s, seldepth as u64);
    push_text(&mut s, " score ");
    let sc = format_score(score);
    push_text(&mut s, sc.as_str());
    push_text(&mut s, " time ");
    push_decimal(&mut s, elapsed_ms);
    push_text(&mut s, " nps ");
    push_decimal(&mut s, nps);
    push_text(&mut s, " nodes ");
    push_decimal(&mut s, nodes);
    push_text(&mut s, " hashfull ");
    push_decimal(&mut s, hashfull as u64);
    push_text(&mut s, " pv ");
    let ghost head = s@;
    let mut i: usize = 0;
    while i < n
        invariant
            i <= n <= pv@.len(),
            s@ == head + pv_text(pv@.subrange(0, i as int)),
        decreases n - i,
    {
        if i > 0 {
            push_char(&mut s, ' ');
        }
        let m = format_move(pv[i]);
        push_text(&mut s, m.as_str());
        assert(pv@.subrange(0, i + 1).drop_last() =~= pv@.subrange(0, i as int));
        i += 1;
    }
    assert(s@ =~= spec_info_line(depth, seldepth, score, elapsed_ms, nodes, hashfull as int, pv@.subrange(0, n as int)));
    s
}

/// Whether `b` has a legal move: a move other than the null move, among those generated for
/// the side to move, that is legal.
pub open spec fn has_root_move(b: Board) -> bool {
    exists|m: Move| #[trigger] produces(b, move_pass(b), m) && m != move_none() && legal_root_move(b, m)
}

/// Whether `mov` is among the generated moves of `board` and legal there.
fn is_legal_move(board: &Board, mov: Move) -> (r: bool)
    requires
        searchable(*board),
    ensures
        r == legal_root_move(*board, mov),
{
    let moves = gen_all_moves(board);
    let mut i: usize = 0;
    while i < moves.moves.len()
        invariant
            i <= moves.moves@.len(),
            list_ok(*board, moves.moves@, 0),
            crate::movegen::all_produced(*board, move_pass(*board), moves.moves@, 0),
            searchable(*board),
            forall|j: int| 0 <= j < i ==> moves.moves@[j].mov != mov,
        decreases moves.moves@.len() - i,
    {
        if moves.moves[i].mov == mov {
            assert(generated_ok(*board, moves.moves@[i as int].mov));
            assert(produces(*board, move_pass(*board), moves.moves@[i as int].mov));
            proof {
                lemma_move_classes(mov);
            }
            return board.legal(mov);
        }
        i += 1;
    }
    assert(!crate::movegen::listed(moves.moves@, 0, mov));
    false
}

fn push_text(s: &mut String, t: &str)
    ensures
        final(s)@ == old(s)@ + t@,
{
    s.append(t);
}

impl Searcher {
    /// Searches to `depth` with a window around the previous score, widening it on each
    /// failure (fully once it grew past [`ASPIRATION_FLUCTUATION`] or the score is a mate);
    /// returns the previous score when stopped.
    pub fn aspiration_search(
        &mut self,
        tt: &mut TranspositionTable,
        stop: &AtomicBool,
        move_ptr: MoveListPtr,
        depth: u8,
        prev_score: i16,
    ) -> (r: i16)
        requires
            old(self).ok(),
            old(tt).wf(),
            move_ptr.0 <= old(self).buffer.moves@.len(),
            -INFINITY <= prev_score <= INFINITY,
        ensures
            final(self).ok(),
            final(tt).wf(),
            final(self).board == old(self).board,
            final(self).root_ply == old(self).root_ply,
            keeps_prefix(old(self).buffer.moves@, final(self).buffer.moves@, move_ptr.0 as int),
            -INFINITY <= r <= INFINITY,
    {
        let mut alpha: i16 = -INFINITY;
        let mut beta: i16 = INFINITY;
        let mut delta: i16 = ASPIRATION_INITIAL_DELTA;
        if depth >= ASPIRATION_MIN_DEPTH {
            alpha = if prev_score as i32 - (delta as i32) < -INFINITY as i32 {
                -INFINITY
            } else {
                prev_score - delta
            };
            beta = if prev_score as i32 + delta as i32 > INFINITY as i32 {
                INFINITY
            } else {
                prev_score + delta
            };
        }
        loop
            invariant
                self.ok(),
                tt.wf(),
                self.board == old(self).board,
                self.root_ply == old(self).root_ply,
                move_ptr.0 <= self.buffer.moves@.len(),
                keeps_prefix(old(self).buffer.moves@, self.buffer.moves@, move_ptr.0 as int),
                -INFINITY <= alpha < beta <= INFINITY,
                100 <= delta <= 32767,
                !(alpha == -INFINITY && beta == INFINITY) ==> delta <= ASPIRATION_FLUCTUATION,
                -INFINITY <= prev_score <= INFINITY,
            decreases (if alpha == -INFINITY && beta == INFINITY {
                0int
            } else {
                3000 - delta
            }),
        {
            let ghost buf0 = self.buffer.moves@;
            let score = self.nega_max(tt, stop, move_ptr, alpha, beta, depth, true, true);
            if self.stopped {
                return prev_score;
            }
            if score <= alpha && alpha > -INFINITY {
                beta = ((alpha as i32 + beta as i32) / 2) as i16;
                delta = if delta as i32 + (delta / 2) as i32 > 32767 {
                    32767
                } else {
                    delta + delta / 2
                };
                if delta > ASPIRATION_FLUCTUATION || score < -MATE_THRESHOLD {
                    alpha = -INFINITY;
                    beta = INFINITY;
                } else {
                    alpha = if score as i32 - (delta as i32) < -INFINITY as i32 {
                        -INFINITY
                    } else {
                        score - delta
                    };
                }
            } else if score >= beta && beta < INFINITY {
                delta = if delta as i32 + (delta / 2) as i32 > 32767 {
                    32767
                } else {
                    delta + delta / 2
                };
                if delta > ASPIRATION_FLUCTUATION || score > MATE_THRESHOLD {
                    alpha = -INFINITY;
                    beta = INFINITY;
                } else {
                    beta = if score as i32 + delta as i32 > INFINITY as i32 {
                        INFINITY
                    } else {
                        score + delta
                    };
                }
            } else {
                return score;
            }
        }
    }

    /// The `info` line of a finished iteration: depth, selective depth, score, time, speed,
    /// nodes, table use and principal variation.
    pub fn uci_info(&self, tt: &TranspositionTable, depth: u8, score: i16) -> (r: String)
        requires
            self.ok(),
            tt.wf(),
        ensures
            exists|elapsed_ms: u64|
                elapsed_ms >= 1 && r@ == #[trigger] spec_info_line(
                    depth,
                    self.selective_depth,
                    score,
                    elapsed_ms,
                    self.nodes_searched,
                    crate::transposition::recent_count(
                        tt.slots@,
                        tt.age,
                        crate::transposition::hash_sample(tt.slots@.len()) * 4,
                    ) * 1000 / (crate::transposition::hash_sample(tt.slots@.len()) * 4),
                    self.pv_table@.subrange(0, pv_shown(self.stack.at(0).pv_length)),
                ),
    {
        let elapsed_ms0 = elapsed_ns(&self.time_manager.start_time) / 1_000_000;
        let elapsed_ms = if elapsed_ms0 < 1 {
            1
        } else {
            elapsed_ms0
        };
        let len = self.stack.get(0).pv_length as usize;
        let n = if len < 64 {
            len
        } else {
            64
        };
        let r = info_line(
            depth,
            self.selective_depth,
            score,
            elapsed_ms,
            self.nodes_searched,
            tt.hashfull(),
            &self.pv_table,
            n,
        );
        assert(r@ == spec_info_line(
            depth,
            self.selective_depth,
            score,
            elapsed_ms,
            self.nodes_searched,
            crate::transposition::recent_count(
                tt.slots@,
                tt.age,
                crate::transposition::hash_sample(tt.slots@.len()) * 4,
            ) * 1000 / (crate::transposition::hash_sample(tt.slots@.len()) * 4),
            self.pv_table@.subrange(0, pv_shown(self.stack.at(0).pv_length)),
        ));
        r
    }

    /// The move to play: `best` when legal, else the first move of the principal variation,
    /// else the table's move, else the first legal generated move; none without any.
    pub fn resolve_best_move(&self, tt: &TranspositionTable, best: Move) -> (r: Move)
        requires
            self.ok(),
            tt.wf(),
        ensures
            r != move_none() ==> legal_root_move(self.board, r),
            r == move_none() ==> !has_root_move(self.board),
            best != move_none() && legal_root_move(self.board, best) ==> r == best,
    {
        if !best.is_none() && is_legal_move(&self.board, best) {
            return best;
        }
        let pv_move = self.pv_table[0];
        if !pv_move.is_none() && is_legal_move(&self.board, pv_move) {
            return pv_move;
        }
        match tt.probe(self.board.hash, 0) {
            Some(e) => {
                if !e.mov.is_none() && is_legal_move(&self.board, e.mov) {
                    return e.mov;
                }
            },
            None => {},
        }
        let moves = gen_all_moves(&self.board);
        let mut i: usize = 0;
        while i < moves.moves.len()
            invariant
                i <= moves.moves@.len(),
                list_ok(self.board, moves.moves@, 0),
                crate::movegen::all_produced(self.board, move_pass(self.board), moves.moves@, 0),
                searchable(self.board),
                !(best != move_none() && legal_root_move(self.board, best)),
                forall|j: int|
                    0 <= j < i && (#[trigger] moves.moves@[j]).mov != move_none() ==> !legal_root_move(
                        self.board,
                        moves.moves@[j].mov,
                    ),
            decreases moves.moves@.len() - i,
        {
            let m = moves.moves[i].mov;
            assert(generated_ok(self.board, moves.moves@[i as int].mov));
            assert(produces(self.board, move_pass(self.board), moves.moves@[i as int].mov));
            proof {
                lemma_move_classes(m);
            }
            if !m.is_none() && self.board.legal(m) {
                return m;
            }
            i += 1;
        }
        proof {
            assert forall|m: Move|
                #[trigger] produces(self.board, move_pass(self.board), m) && m != move_none() implies !legal_root_move(
                    self.board,
                    m,
                ) by {
                assert(crate::movegen::listed(moves.moves@, 0, m));
                let j = choose|j: int| 0 <= j < moves.moves@.len() && #[trigger] moves.moves@[j].mov == m;
                assert(moves.moves@[j].mov == m);
            }
        }
        Move::none()
    }
}

/// Searches `board` by iterative deepening within the limits of `time_manager` until
/// they are reached or a stop is requested through `stop`; appends an `info` line to
/// `info` after each completed depth and returns the move to play: a legal move, or none
/// when the position has no legal move.
pub fn search(
    board: Board,
    time_manager: TimeManager,
    stop: &AtomicBool,
    tt: &mut TranspositionTable,
    info: &mut Vec<String>,
) -> (r: Move)
    requires
        searchable(board),
        old(tt).wf(),
    ensures
        final(tt).wf(),
        r != move_none() ==> legal_root_move(board, r),
        r == move_none() ==> !has_root_move(board),
        old(info)@.len() <= final(info)@.len() <= old(info)@.len() + time_manager.limits.max_depth,
        forall|i: int| 0 <= i < old(info)@.len() ==> final(info)@[i] == old(info)@[i],
        forall|k: int|
            0 <= k < final(info)@.len() - old(info)@.len() ==> depth_line(
                #[trigger] final(info)@[old(info)@.len() + k]@,
                (k + 1) as u8,
            ),
{
    let max_depth = time_manager.limits.max_depth;
    let mut search = Searcher::new(board, stop, time_manager);
    let move_ptr = MoveListPtr(0);
    let mut best_score: i16 = -INFINITY;
    let mut completed_best_move = Move::none();
    let mut prev_best_move = Move::none();
    let mut current_depth: u8 = 1;
    while current_depth <= max_depth
        invariant_except_break
            info@.len() == old(info)@.len() + current_depth - 1,
        invariant
            search.ok(),
            tt.wf(),
            search.board == board,
            -INFINITY <= best_score <= INFINITY,
            1 <= current_depth,
            move_ptr.0 == 0,
            max_depth == time_manager.limits.max_depth,
            old(info)@.len() + current_depth - 1 <= info@.len() <= old(info)@.len() + current_depth,
            info@.len() <= old(info)@.len() + max_depth,
            current_depth <= 255,
            forall|i: int| 0 <= i < old(info)@.len() ==> info@[i] == old(info)@[i],
            forall|k: int|
                0 <= k < info@.len() - old(info)@.len() ==> depth_line(
                    #[trigger] info@[old(info)@.len() + k]@,
                    (k + 1) as u8,
                ),
        decreases 256 - current_depth,
    {
        search.selective_depth = 0;
        best_score = search.aspiration_search(tt, stop, move_ptr, current_depth, best_score);
        if search.stopped {
            break;
        }
        let current_best_move = search.pv_table[0];
        if !current_best_move.is_none() && is_legal_move(&search.board, current_best_move) {
            completed_best_move = current_best_move;
        }
        let line = search.uci_info(tt, current_depth, best_score);
        proof {
            lemma_depth_line(
                line@,
                current_depth,
                search.selective_depth,
                best_score,
                search.nodes_searched,
                crate::transposition::recent_count(
                    tt.slots@,
                    tt.age,
                    crate::transposition::hash_sample(tt.slots@.len()) * 4,
                ) * 1000 / (crate::transposition::hash_sample(tt.slots@.len()) * 4),
                search.pv_table@.subrange(0, pv_shown(search.stack.at(0).pv_length)),
            );
        }
        let ghost before = info@;
        info.push(line);
        proof {
            assert forall|k: int| 0 <= k < info@.len() - old(info)@.len() implies depth_line(
                #[trigger] info@[old(info)@.len() + k]@,
                (k + 1) as u8,
            ) by {
                if old(info)@.len() + k < before.len() {
                    assert(info@[old(info)@.len() + k] == before[old(info)@.len() + k]);
                }
            }
        }
        let move_is_stable = current_best_move == prev_best_move;
        prev_best_move = current_best_move;
        if stop_requested(stop) || search.time_manager.should_stop_after_depth(current_depth, move_is_stable) {
            search.stopped = true;
            break;
        }
        if current_depth == 255 {
            break;
        }
        current_depth = current_depth + 1;
    }
    search.resolve_best_move(tt, completed_best_move)
}

/// Whether `s` is the `info` line of finished depth `depth` (see [`spec_info_line`]).
pub open spec fn depth_line(s: Seq<char>, depth: u8) -> bool {
    exists|sd: u8, score: i16, elapsed_ms: u64, nodes: u64, hashfull: int, pv: Seq<Move>|
        elapsed_ms >= 1 && s == #[trigger] spec_info_line(depth, sd, score, elapsed_ms, nodes, hashfull, pv)
}

proof fn lemma_depth_line(s: Seq<char>, depth: u8, sd: u8, score: i16, nodes: u64, hashfull: int, pv: Seq<Move>)
    requires
        exists|elapsed_ms: u64|
            elapsed_ms >= 1 && s == #[trigger] spec_info_line(depth, sd, score, elapsed_ms, nodes, hashfull, pv),
    ensures
        depth_line(s, depth),
{
    let e = choose|elapsed_ms: u64|
        elapsed_ms >= 1 && s == #[trigger] spec_info_line(depth, sd, score, elapsed_ms, nodes, hashfull, pv);
    assert(spec_info_line(depth, sd, score, e, nodes, hashfull, pv) == s);
}

/// The score a transposition-table entry proves for a search of `depth` in the window
/// (`alpha`, `beta`): its score when deep enough and exact, or a bound outside the window.
pub open spec fn spec_cutoff(e: TTEntry, depth: u8, alpha: i16, beta: i16) -> Option<i16> {
    if e.depth >= depth && (flag_of_bits(e.flag_age) == TTFlag::Exact || (flag_of_bits(e.flag_age)
        == TTFlag::LowerBound && e.value >= beta) || (flag_of_bits(e.flag_age) == TTFlag::UpperBound
        && e.value <= alpha)) {
        Some(e.value)
    } else {
        None
    }
}

/// See [`spec_cutoff`].
pub fn cutoff(e: &TTEntry, depth: u8, alpha: i16, beta: i16) -> (r: Option<i16>)
    ensures
        r == spec_cutoff(*e, depth, alpha, beta),
{
    if e.depth < depth {
        return None;
    }
    match e.flag() {
        TTFlag::Exact => Some(e.value),
        TTFlag::LowerBound => if e.value >= beta {
            Some(e.value)
        } else {
            None
        },
        TTFlag::UpperBound => if e.value <= alpha {
            Some(e.value)
        } else {
            None
        },
    }
}

/// `a + b`, saturated at the bounds of `i16`.
pub open spec fn spec_sat_add(a: i16, b: i16) -> i16 {
    if a + b > 32767 {
        32767i16
    } else if a + b < -32768 {
        -32768i16
    } else {
        (a + b) as i16
    }
}

/// `a + b`, saturated at the bounds of `i16`.
fn sat_add(a: i16, b: i16) -> (r: i16)
    ensures
        r == spec_sat_add(a, b),
{
    let s = a as i32 + b as i32;
    if s > 32767 {
        32767
    } else if s < -32768 {
        -32768
    } else {
        s as i16
    }
}

/// `v` clamped into the score range.
fn clamp_score(v: i16) -> (r: i16)
    ensures
        -INFINITY <= r <= INFINITY,
        -INFINITY <= v <= INFINITY ==> r == v,
{
    if v > INFINITY {
        INFINITY
    } else if v < -INFINITY {
        -INFINITY
    } else {
        v
    }
}

} // verus!
