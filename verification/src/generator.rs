use crate::board::Board;
use crate::chess_move::{lemma_move_classes, Move};
use crate::color::Color;
use crate::history::{
    cont_get, ContHistKeys, ContinuationHistoryTable, HistoryTable, KillerMoves,
};
use crate::movegen::{
    all_produced, extends, generate_moves, generated_ok, is_special, lemma_pass_within, list_ok,
    listed, move_pass, produces, spec_pseudo, spec_pseudo_plain, GenType, MoveList, ScoredMove,
};
use crate::scoring::{score_capture, score_quiet};
use vstd::prelude::*;

verus! {

/// A position in the move buffer shared by the nodes of a search: each node's generator
/// writes its moves from such a position on, and hands the position after them to the
/// node below.
#[derive(Copy, Clone, Debug, PartialEq, Eq, Structural)]
pub struct MoveListPtr(pub usize);

/// The stage a staged move generator is in.
#[derive(Copy, Clone, Debug, PartialEq, Eq, Structural)]
pub enum GenStage {
    Init,
    Captures,
    Quiets,
    Evasions,
    Done,
}

/// Stages still to come after `s`, counting `s`: every stage change lowers it.
pub open spec fn stage_rank(s: GenStage) -> int {
    match s {
        GenStage::Init => 4,
        GenStage::Captures => 3,
        GenStage::Evasions => 2,
        GenStage::Quiets => 1,
        GenStage::Done => 0,
    }
}

/// The generator `g` has just written the moves of pass `gen` on `b` into `buf` from
/// position `at` up to its end: every one of them is produced by the pass, and every move
/// the pass produces is among them.
pub open spec fn stage_lists(b: Board, gen: GenType, g: MoveGenerator, buf: Seq<ScoredMove>, at: int) -> bool {
    &&& g.end_ptr.0 == buf.len()
    &&& all_produced(b, gen, buf, at)
    &&& forall|m: Move| produces(b, gen, m) ==> #[trigger] listed(buf, at, m)
}

/// Hands out the moves of a position in stages, best ordered first: the transposition-table
/// move, then captures (good ones before quiet moves, bad ones last), then quiet moves; or,
/// in check, all evasions.
pub struct MoveGenerator {
    pub start_ptr: MoveListPtr,
    pub end_ptr: MoveListPtr,
    pub stage: GenStage,
    pub list_index: usize,
    pub quiescence: bool,
    pub tt_move: Move,
}

/// Whether generator `a` has less work left than `b`: an earlier stage, or the same stage
/// with fewer moves left to hand out.
pub open spec fn progressed(a: MoveGenerator, b: MoveGenerator) -> bool {
    stage_rank(a.stage) < stage_rank(b.stage) || (stage_rank(a.stage) == stage_rank(b.stage)
        && a.spec_len() - a.list_index < b.spec_len() - b.list_index)
}

/// What a generator may hand out on `b`: a generated move, or a plain move that
/// [`Board::pseudo_legal`] accepts.
pub open spec fn yielded_ok(b: Board, m: Move) -> bool {
    generated_ok(b, m) || (!is_special(m) && spec_pseudo_plain(b, m))
}

impl MoveGenerator {
    /// Number of moves generated so far.
    pub open spec fn spec_len(&self) -> int {
        self.end_ptr.0 - self.start_ptr.0
    }

    /// The generator's moves lie in the buffer, each a generated move of `b`, and the next
    /// move to hand out lies among them.
    pub open spec fn gen_ok(&self, b: Board, buf: Seq<ScoredMove>) -> bool {
        &&& self.start_ptr.0 <= self.end_ptr.0 <= buf.len()
        &&& self.list_index <= self.spec_len()
        &&& list_range_ok(b, buf, self.start_ptr.0 as int, self.end_ptr.0 as int)
        &&& range_produced(b, buf, self.start_ptr.0 as int, self.end_ptr.0 as int)
        &&& (self.stage == GenStage::Captures || self.stage == GenStage::Quiets) ==> b.checkers == 0
        &&& self.stage == GenStage::Evasions ==> b.checkers != 0
        &&& (self.stage == GenStage::Init || self.stage == GenStage::Captures || self.stage
            == GenStage::Evasions) ==> self.end_ptr.0 == self.start_ptr.0
    }

    /// A generator writing from `move_buffer` on, which hands out `tt_move` first when it
    /// is pseudo-legal.
    pub fn new(move_buffer: MoveListPtr, tt_move: Move) -> (r: Self)
        ensures
            r.start_ptr == move_buffer,
            r.end_ptr == move_buffer,
            r.stage == GenStage::Init,
            r.list_index == 0,
            !r.quiescence,
            r.tt_move == tt_move,
    {
        MoveGenerator {
            start_ptr: move_buffer,
            end_ptr: move_buffer,
            stage: GenStage::Init,
            list_index: 0,
            quiescence: false,
            tt_move,
        }
    }

    /// A generator for the quiescence search: as [`MoveGenerator::new`], but quiet moves
    /// are generated only in check.
    pub fn quiescence(move_buffer: MoveListPtr, tt_move: Move) -> (r: Self)
        ensures
            r.start_ptr == move_buffer,
            r.end_ptr == move_buffer,
            r.stage == GenStage::Init,
            r.list_index == 0,
            r.quiescence,
            r.tt_move == tt_move,
    {
        let mut g = Self::new(move_buffer, tt_move);
        g.quiescence = true;
        g
    }

    /// Where the node below may write its moves: just after this generator's moves.
    pub fn next_ptr(&self) -> (r: MoveListPtr)
        ensures
            r == self.end_ptr,
    {
        self.end_ptr
    }

    fn len(&self) -> (r: usize)
        requires
            self.start_ptr.0 <= self.end_ptr.0,
        ensures
            r == self.spec_len(),
    {
        self.end_ptr.0 - self.start_ptr.0
    }

    /// Hands out the best-scored move not yet handed out, moving it into place.
    fn pick_next(&mut self, b: &Board, buf: &mut MoveList) -> (r: ScoredMove)
        requires
            old(self).gen_ok(*b, old(buf).moves@),
            old(self).list_index < old(self).spec_len(),
        ensures
            final(self).gen_ok(*b, final(buf).moves@),
            *final(self) == (MoveGenerator { list_index: (old(self).list_index + 1) as usize, ..*old(self) }),
            final(buf).moves@.len() == old(buf).moves@.len(),
            forall|i: int| 0 <= i < old(self).start_ptr.0 ==> final(buf).moves@[i] == old(buf).moves@[i],
            generated_ok(*b, r.mov),
            produces(*b, move_pass(*b), r.mov),
            r == final(buf).moves@[old(self).start_ptr.0 + old(self).list_index],
            forall|j: int|
                final(self).start_ptr.0 + final(self).list_index <= j < final(self).end_ptr.0
                    ==> #[trigger] final(buf).moves@[j].score <= r.score,
    {
        let first = self.start_ptr.0 + self.list_index;
        let end = self.end_ptr.0;
        let mut best_index = first;
        let mut best_move = buf.moves[first];
        let mut i = first + 1;
        while i < end
            invariant
                first < end <= buf.moves@.len(),
                first <= best_index < end,
                first + 1 <= i <= end,
                best_move == buf.moves@[best_index as int],
                forall|j: int| first <= j < i ==> #[trigger] buf.moves@[j].score <= best_move.score,
            decreases end - i,
        {
            let m = buf.moves[i];
            if m.score > best_move.score {
                best_move = m;
                best_index = i;
            }
            i += 1;
        }
        let tmp = buf.moves[first];
        let ghost pre = buf.moves@;
        buf.moves.set(first, best_move);
        buf.moves.set(best_index, tmp);
        assert forall|j: int| first + 1 <= j < end implies #[trigger] buf.moves@[j].score <= best_move.score by {
            if j == best_index {
                assert(buf.moves@[j] == pre[first as int]);
            } else {
                assert(buf.moves@[j] == pre[j]);
            }
        }
        self.list_index = self.list_index + 1;
        assert(generated_ok(*b, old(buf).moves@[best_index as int].mov));
        assert(produces(*b, move_pass(*b), old(buf).moves@[best_index as int].mov));
        assert forall|j: int| self.start_ptr.0 <= j < self.end_ptr.0 implies #[trigger] produces(
            *b,
            move_pass(*b),
            buf.moves@[j].mov,
        ) by {
            if j == first {
            } else if j == best_index {
                assert(produces(*b, move_pass(*b), old(buf).moves@[first as int].mov));
            } else {
                assert(buf.moves@[j] == old(buf).moves@[j]);
            }
        }
        assert forall|j: int| self.start_ptr.0 <= j < self.end_ptr.0 implies #[trigger] generated_ok(
            *b,
            buf.moves@[j].mov,
        ) by {
            if j == first {
            } else if j == best_index {
                assert(generated_ok(*b, old(buf).moves@[first as int].mov));
            } else {
                assert(buf.moves@[j] == old(buf).moves@[j]);
            }
        }
        best_move
    }

    /// Moves to the next stage, generating and scoring its moves; on leaving the first
    /// stage hands out the transposition-table move when it is pseudo-legal.
    #[verifier::rlimit(60)]
    fn advance_stage(
        &mut self,
        board: &Board,
        buf: &mut MoveList,
        killer_moves: KillerMoves,
        history: &HistoryTable,
        cont_history: &ContinuationHistoryTable,
        keys: &ContHistKeys,
    ) -> (r: Option<ScoredMove>)
        requires
            old(self).gen_ok(*board, old(buf).moves@),
            old(self).stage != GenStage::Done,
            history.wf(),
            cont_history.wf(),
        ensures
            final(self).gen_ok(*board, final(buf).moves@),
            final(self).start_ptr == old(self).start_ptr,
            final(self).tt_move == old(self).tt_move,
            final(self).quiescence == old(self).quiescence,
            stage_rank(final(self).stage) < stage_rank(old(self).stage),
            final(buf).moves@.len() >= old(self).start_ptr.0,
            forall|i: int| 0 <= i < old(self).start_ptr.0 ==> final(buf).moves@[i] == old(buf).moves@[i],
            r matches Some(sm) ==> sm.mov == old(self).tt_move && yielded_ok(*board, sm.mov),
            r matches Some(sm) ==> sm.score == 32767 && old(self).stage == GenStage::Init,
            old(self).stage == GenStage::Init && !is_special(old(self).tt_move) && spec_pseudo_plain(
                *board,
                old(self).tt_move,
            ) ==> r == Some(ScoredMove { mov: old(self).tt_move, score: 32767 }),
            old(self).stage == GenStage::Init ==> final(self).stage == (if board.checkers != 0 {
                GenStage::Evasions
            } else {
                GenStage::Captures
            }),
            old(self).stage == GenStage::Init ==> final(buf).moves@ == old(buf).moves@
                && final(self).end_ptr == final(self).start_ptr && final(self).list_index == 0,
            old(self).stage == GenStage::Init ==> r == (if spec_pseudo(*board, old(self).tt_move) {
                Some(ScoredMove { mov: old(self).tt_move, score: 32767 })
            } else {
                None
            }),
            old(self).stage != GenStage::Init ==> r is None,
            old(self).stage == GenStage::Captures ==> stage_lists(*board, GenType::Captures, *final(self), final(buf).moves@, old(self).start_ptr.0 as int),
            old(self).stage == GenStage::Evasions ==> stage_lists(*board, GenType::Evasions, *final(self), final(buf).moves@, old(self).start_ptr.0 as int),
            old(self).stage == GenStage::Quiets ==> stage_lists(
                *board,
                GenType::Quiets,
                *final(self),
                final(buf).moves@,
                if old(self).list_index == old(self).spec_len() {
                    old(self).start_ptr.0 as int
                } else {
                    old(self).end_ptr.0 as int
                },
            ),
    {
        if self.list_index == self.len() {
            self.end_ptr = self.start_ptr;
            self.list_index = 0;
        }
        match self.stage {
            GenStage::Init => {
                self.stage = if board.checkers != 0 {
                    GenStage::Evasions
                } else {
                    GenStage::Captures
                };
                if board.pseudo_legal(self.tt_move) {
                    return Some(ScoredMove { mov: self.tt_move, score: 32767 });
                }
            },
            GenStage::Captures => {
                let end = generate_at(board, GenType::Captures, buf, self.start_ptr.0);
                proof {
                    lemma_pass_range(*board, GenType::Captures, buf.moves@, self.start_ptr.0 as int);
                }
                let ghost generated = buf.moves@;
                self.end_ptr = MoveListPtr(end);
                score_range(board, buf, self.start_ptr.0, end, true, killer_moves, history, cont_history, keys);
                proof {
                    lemma_movs_kept(*board, GenType::Captures, generated, buf.moves@, self.start_ptr.0 as int, self.start_ptr.0 as int, end as int);
                }
                self.stage = if self.quiescence {
                    GenStage::Done
                } else {
                    GenStage::Quiets
                };
            },
            GenStage::Quiets => {
                let remaining = self.end_ptr.0;
                let ghost before = buf.moves@;
                let end = generate_at(board, GenType::Quiets, buf, remaining);
                assert(list_range_ok(*board, buf.moves@, self.start_ptr.0 as int, end as int)) by {
                    assert forall|i: int| self.start_ptr.0 <= i < end implies #[trigger] generated_ok(
                        *board,
                        buf.moves@[i].mov,
                    ) by {
                        if i < remaining {
                            assert(buf.moves@[i] == before[i]);
                        }
                    }
                }
                proof {
                    lemma_pass_range(*board, GenType::Quiets, buf.moves@, remaining as int);
                    assert forall|i: int| self.start_ptr.0 <= i < end implies #[trigger] produces(
                        *board,
                        move_pass(*board),
                        buf.moves@[i].mov,
                    ) by {
                        if i < remaining {
                            assert(buf.moves@[i] == before[i]);
                        }
                    }
                }
                let ghost generated = buf.moves@;
                self.end_ptr = MoveListPtr(end);
                score_range(board, buf, remaining, end, false, killer_moves, history, cont_history, keys);
                proof {
                    lemma_movs_kept(*board, GenType::Quiets, generated, buf.moves@, remaining as int, self.start_ptr.0 as int, end as int);
                }
                self.stage = GenStage::Done;
            },
            GenStage::Evasions => {
                let end = generate_at(board, GenType::Evasions, buf, self.start_ptr.0);
                proof {
                    lemma_pass_range(*board, GenType::Evasions, buf.moves@, self.start_ptr.0 as int);
                }
                let ghost generated = buf.moves@;
                self.end_ptr = MoveListPtr(end);
                score_range(board, buf, self.start_ptr.0, end, false, killer_moves, history, cont_history, keys);
                proof {
                    lemma_movs_kept(*board, GenType::Evasions, generated, buf.moves@, self.start_ptr.0 as int, self.start_ptr.0 as int, end as int);
                }
                self.stage = GenStage::Done;
            },
            GenStage::Done => {},
        }
        None
    }

    /// The next move in order, or `None` when every stage is exhausted. The
    /// transposition-table move comes first (when pseudo-legal) and is not handed out again;
    /// bad captures wait until the quiet moves are generated.
    pub fn next(
        &mut self,
        board: &Board,
        buf: &mut MoveList,
        killer_moves: KillerMoves,
        history: &HistoryTable,
        cont_history: &ContinuationHistoryTable,
        conthist_keys: &ContHistKeys,
    ) -> (r: Option<ScoredMove>)
        requires
            old(self).gen_ok(*board, old(buf).moves@),
            history.wf(),
            cont_history.wf(),
        ensures
            final(self).gen_ok(*board, final(buf).moves@),
            final(self).start_ptr == old(self).start_ptr,
            final(self).tt_move == old(self).tt_move,
            final(self).quiescence == old(self).quiescence,
            final(buf).moves@.len() >= old(self).start_ptr.0,
            forall|i: int| 0 <= i < old(self).start_ptr.0 ==> final(buf).moves@[i] == old(buf).moves@[i],
            r matches Some(sm) ==> yielded_ok(*board, sm.mov),
            r is Some && r.unwrap().mov != old(self).tt_move ==> produces(*board, move_pass(*board), r.unwrap().mov)
                && generated_ok(*board, r.unwrap().mov),
            r is Some && r.unwrap().mov == old(self).tt_move ==> spec_pseudo(*board, old(self).tt_move),
            r matches Some(sm) && sm.mov == old(self).tt_move ==> old(self).stage == GenStage::Init,
            r matches Some(sm) && sm.score < 0 ==> final(self).stage == GenStage::Done,
            r is Some && r.unwrap().mov != old(self).tt_move ==> forall|j: int|
                final(self).start_ptr.0 + final(self).list_index <= j < final(self).end_ptr.0
                    ==> #[trigger] final(buf).moves@[j].score <= r.unwrap().score,
            old(self).stage == GenStage::Init && !is_special(old(self).tt_move) && spec_pseudo_plain(
                *board,
                old(self).tt_move,
            ) ==> r == Some(ScoredMove { mov: old(self).tt_move, score: 32767 }),
            r is Some ==> progressed(*final(self), *old(self)),
            r is None ==> final(self).stage == GenStage::Done && final(self).list_index == final(self).spec_len(),
    {
        loop
            invariant
                self.gen_ok(*board, buf.moves@),
                *self == *old(self) || progressed(*self, *old(self)),
                self.start_ptr == old(self).start_ptr,
                self.tt_move == old(self).tt_move,
                self.quiescence == old(self).quiescence,
                history.wf(),
                cont_history.wf(),
                buf.moves@.len() >= old(self).start_ptr.0,
                forall|i: int| 0 <= i < old(self).start_ptr.0 ==> buf.moves@[i] == old(buf).moves@[i],
                self.stage == GenStage::Init ==> *self == *old(self),
                old(self).stage == GenStage::Init && !is_special(old(self).tt_move) && spec_pseudo_plain(
                    *board,
                    old(self).tt_move,
                ) ==> *self == *old(self),
            decreases stage_rank(self.stage), self.spec_len() - self.list_index,
        {
            if self.list_index < self.len() {
                let mov = self.pick_next(board, buf);
                if mov.mov == self.tt_move {
                    continue;
                }
                if self.stage != GenStage::Done && mov.score < 0 {
                    self.list_index = self.list_index - 1;
                    let _ = self.advance_stage(board, buf, killer_moves, history, cont_history, conthist_keys);
                    continue;
                }
                return Some(mov);
            }
            if self.stage == GenStage::Done {
                return None;
            }
            match self.advance_stage(board, buf, killer_moves, history, cont_history, conthist_keys) {
                Some(m) => {
                    return Some(m);
                },
                None => {},
            }
        }
    }
}

/// Writes the moves of pass `gen` from position `at` of the buffer on; returns where they end.
fn generate_at(board: &Board, gen: GenType, buf: &mut MoveList, at: usize) -> (end: usize)
    requires
        at <= old(buf).moves@.len(),
    ensures
        at <= end == final(buf).moves@.len(),
        forall|i: int| 0 <= i < at ==> final(buf).moves@[i] == old(buf).moves@[i],
        list_range_ok(*board, final(buf).moves@, at as int, end as int),
        all_produced(*board, gen, final(buf).moves@, at as int),
        forall|m: Move| produces(*board, gen, m) ==> #[trigger] listed(final(buf).moves@, at as int, m),
{
    buf.truncate(at);
    let ghost mid = buf.moves@;
    generate_moves(board, gen, buf);
    proof {
        assert forall|i: int| at <= i < buf.moves@.len() implies #[trigger] generated_ok(
            *board,
            buf.moves@[i].mov,
        ) by {
            assert(list_ok(*board, buf.moves@, mid.len() as int));
        }
    }
    buf.moves.len()
}

/// Scores the quiet move `mov`: killers first, then history plus continuation history.
fn quiet_score(
    board: &Board,
    mov: Move,
    killer_moves: KillerMoves,
    history: &HistoryTable,
    cont_history: &ContinuationHistoryTable,
    keys: &ContHistKeys,
) -> (r: i16)
    requires
        history.wf(),
        cont_history.wf(),
        generated_ok(*board, mov),
{
    let score = score_quiet(mov, killer_moves, history, board.to_play);
    if mov != killer_moves[0] && mov != killer_moves[1] {
        let piece = match board.mailbox[mov.from() as usize] {
            Some(p) => p.piece(),
            None => crate::piece::Piece::Pawn,
        };
        score + cont_history.score(keys, piece, mov.to())
    } else {
        score
    }
}

/// Sets the scores of the moves from position `a` up to `end`: captures and promotions by
/// [`score_capture`] when `all_tactical` or the move is tactical, quiet moves by
/// history.
fn score_range(
    board: &Board,
    buf: &mut MoveList,
    a: usize,
    end: usize,
    all_tactical: bool,
    killer_moves: KillerMoves,
    history: &HistoryTable,
    cont_history: &ContinuationHistoryTable,
    keys: &ContHistKeys,
)
    requires
        a <= end <= old(buf).moves@.len(),
        list_range_ok(*board, old(buf).moves@, a as int, end as int),
        history.wf(),
        cont_history.wf(),
    ensures
        final(buf).moves@.len() == old(buf).moves@.len(),
        forall|i: int| 0 <= i < old(buf).moves@.len() ==> (#[trigger] final(buf).moves@[i]).mov
            == old(buf).moves@[i].mov,
        forall|i: int| (0 <= i < a || end <= i < old(buf).moves@.len()) ==> final(buf).moves@[i]
            == old(buf).moves@[i],
{
    let mut i = a;
    while i < end
        invariant
            a <= i <= end <= buf.moves@.len(),
            buf.moves@.len() == old(buf).moves@.len(),
            list_range_ok(*board, old(buf).moves@, a as int, end as int),
            history.wf(),
            cont_history.wf(),
            forall|j: int| 0 <= j < old(buf).moves@.len() ==> (#[trigger] buf.moves@[j]).mov
                == old(buf).moves@[j].mov,
            forall|j: int| (0 <= j < a || i <= j < old(buf).moves@.len()) ==> buf.moves@[j]
                == old(buf).moves@[j],
        decreases end - i,
    {
        let mov = buf.moves[i].mov;
        assert(generated_ok(*board, old(buf).moves@[i as int].mov));
        proof {
            lemma_move_classes(mov);
        }
        let score = if all_tactical || mov.is_tactical() {
            score_capture(mov, board)
        } else {
            quiet_score(board, mov, killer_moves, history, cont_history, keys)
        };
        buf.moves.set(i, ScoredMove { mov, score });
        i += 1;
    }
}

/// The moves a capture or quiet pass wrote from `at` on, when not in check, are produced by
/// the pass for all moves.
proof fn lemma_pass_range(b: Board, gen: GenType, buf: Seq<ScoredMove>, at: int)
    requires
        gen == GenType::Captures || gen == GenType::Quiets ==> b.checkers == 0,
        gen == GenType::Evasions ==> b.checkers != 0,
        gen != GenType::NonEvasions,
        all_produced(b, gen, buf, at),
    ensures
        range_produced(b, buf, at, buf.len() as int),
{
    assert forall|i: int| at <= i < buf.len() implies #[trigger] produces(b, move_pass(b), buf[i].mov) by {
        assert(produces(b, gen, buf[i].mov));
        if gen != GenType::Evasions {
            lemma_pass_within(b, gen, buf[i].mov);
        }
    }
}

/// Rescoring keeps what a list of moves says about a pass.
proof fn lemma_movs_kept(b: Board, gen: GenType, x: Seq<ScoredMove>, y: Seq<ScoredMove>, at: int, s: int, e: int)
    requires
        x.len() == y.len(),
        forall|i: int| 0 <= i < x.len() ==> (#[trigger] y[i]).mov == x[i].mov,
        0 <= at,
        0 <= s <= e <= x.len(),
    ensures
        all_produced(b, gen, x, at) ==> all_produced(b, gen, y, at),
        (forall|m: Move| produces(b, gen, m) ==> #[trigger] listed(x, at, m)) ==> (forall|m: Move|
            produces(b, gen, m) ==> #[trigger] listed(y, at, m)),
        range_produced(b, x, s, e) ==> range_produced(b, y, s, e),
{
    if all_produced(b, gen, x, at) {
        assert forall|i: int| at <= i < y.len() implies #[trigger] produces(b, gen, y[i].mov) by {
            assert(produces(b, gen, x[i].mov));
        }
    }
    if forall|m: Move| produces(b, gen, m) ==> #[trigger] listed(x, at, m) {
        assert forall|m: Move| produces(b, gen, m) implies #[trigger] listed(y, at, m) by {
            assert(listed(x, at, m));
            let i = choose|i: int| at <= i < x.len() && #[trigger] x[i].mov == m;
            assert(y[i].mov == m);
        }
    }
    if range_produced(b, x, s, e) {
        assert forall|i: int| s <= i < e implies #[trigger] produces(b, move_pass(b), y[i].mov) by {
            assert(produces(b, move_pass(b), x[i].mov));
        }
    }
}

/// Every move of `buf` from position `start` up to `end` is one that the pass for all
/// moves of `b` (the evasions in check) produces.
pub open spec fn range_produced(b: Board, buf: Seq<ScoredMove>, start: int, end: int) -> bool {
    forall|i: int| start <= i < end ==> #[trigger] produces(b, move_pass(b), buf[i].mov)
}

/// Every move of `buf` from position `start` up to `end` is a generated move of `b`.
pub open spec fn list_range_ok(b: Board, buf: Seq<ScoredMove>, start: int, end: int) -> bool {
    forall|i: int| start <= i < end ==> #[trigger] generated_ok(b, buf[i].mov)
}

} // verus!
