use crate::chess_move::{move_none, Move};
use crate::history::KillerMoves;
use crate::params::{EVAL_NONE, MAX_PLY};
use crate::piece::{ColoredPiece, Piece};
use crate::square::Sq;
use vstd::prelude::*;

verus! {

/// Extra entries around the plies of a search, so that a node may look a few plies back or
/// ahead.
pub const STACK_ENTRIES_EXTRA_SIZE: usize = 32;

/// Position of ply zero among the entries.
pub const STACK_OFFSET: usize = 16;

/// Number of entries.
pub const STACK_SIZE: usize = 96;

/// The move that led to a node: the move, the piece that moved and the piece it took.
#[derive(Copy, Clone, Debug, PartialEq, Eq, Structural)]
pub struct StackMove {
    pub mov: Move,
    pub moved_piece: Option<ColoredPiece>,
    pub captured: Option<ColoredPiece>,
}

impl StackMove {
    /// The record of `mov`, which moved `moved_piece` and took `captured`.
    pub fn new(mov: Move, moved_piece: Option<ColoredPiece>, captured: Option<ColoredPiece>) -> (r: Self)
        ensures
            r == (StackMove { mov, moved_piece, captured }),
    {
        StackMove { mov, moved_piece, captured }
    }

    /// No move (a null move, or the root).
    pub fn none() -> (r: Self)
        ensures
            r == (StackMove { mov: move_none(), moved_piece: None, captured: None }),
    {
        StackMove { mov: Move::none(), moved_piece: None, captured: None }
    }

    /// The kind of the piece that moved and its target square, when a piece moved.
    pub fn piece_to(&self) -> (r: Option<(Piece, Sq)>)
        ensures
            self.moved_piece is None ==> r is None,
            self.moved_piece matches Some(cp) ==> r matches Some((p, s)) && p == cp.piece && s.idx()
                == self.mov.to_idx(),
    {
        match self.moved_piece {
            Some(cp) => Some((cp.piece(), self.mov.to())),
            None => None,
        }
    }
}

/// What the search records for a ply.
#[derive(Copy, Clone, Debug)]
pub struct StackEntry {
    pub killer_moves: KillerMoves,
    pub eval: i16,
    pub pv_length: u16,
    pub stack_move: StackMove,
    pub hash: u64,
}

impl StackEntry {
    /// A fresh entry: no killers, no evaluation, empty principal variation, no move.
    pub fn new() -> (r: Self)
        ensures
            r == Self::new_spec(),
    {
        StackEntry {
            killer_moves: [Move::none(), Move::none()],
            eval: EVAL_NONE,
            pv_length: 0,
            stack_move: StackMove::none(),
            hash: 0,
        }
    }

    /// Records the move that led here.
    pub fn set_move(&mut self, mov: Move, moved_piece: Option<ColoredPiece>, captured: Option<ColoredPiece>)
        ensures
            *final(self) == (StackEntry { stack_move: StackMove { mov, moved_piece, captured }, ..*old(self) }),
    {
        self.stack_move = StackMove::new(mov, moved_piece, captured);
    }

    /// Records that a null move led here.
    pub fn set_null_move(&mut self)
        ensures
            *final(self) == (StackEntry {
                stack_move: StackMove { mov: move_none(), moved_piece: None, captured: None },
                ..*old(self)
            }),
    {
        self.stack_move = StackMove::none();
    }
}

/// The killers after `mov` caused a cutoff: it becomes the first killer and the former
/// first becomes the second, unless it already was the first.
pub open spec fn killers_after(k: KillerMoves, mov: Move) -> (Move, Move) {
    if k[0] == mov {
        (k[0], k[1])
    } else {
        (mov, k[0])
    }
}

/// The per-ply records of a search, ply zero at entry [`STACK_OFFSET`].
pub struct SearchStack {
    pub entries: Vec<StackEntry>,
}

impl SearchStack {
    /// Exactly [`STACK_SIZE`] entries.
    pub open spec fn wf(&self) -> bool {
        self.entries@.len() == STACK_SIZE
    }

    /// The record of ply `ply`.
    pub open spec fn at(&self, ply: int) -> StackEntry {
        self.entries@[STACK_OFFSET + ply]
    }

    /// A stack of fresh entries.
    pub fn new() -> (r: Self)
        ensures
            r.wf(),
            forall|i: int| 0 <= i < STACK_SIZE ==> #[trigger] r.entries@[i] == StackEntry::new_spec(),
    {
        let mut entries: Vec<StackEntry> = Vec::new();
        let mut i: usize = 0;
        while i < STACK_SIZE
            invariant
                i <= STACK_SIZE,
                entries@.len() == i,
                forall|j: int| 0 <= j < i ==> #[trigger] entries@[j] == StackEntry::new_spec(),
            decreases STACK_SIZE - i,
        {
            entries.push(StackEntry::new());
            i += 1;
        }
        SearchStack { entries }
    }

    /// The record of ply `ply`.
    pub fn get(&self, ply: u16) -> (r: StackEntry)
        requires
            self.wf(),
            STACK_OFFSET + ply < STACK_SIZE,
        ensures
            r == self.at(ply as int),
    {
        self.entries[STACK_OFFSET + ply as usize]
    }

    /// The record `offset` plies away from ply `ply`.
    pub fn relative(&self, ply: u16, offset: i32) -> (r: StackEntry)
        requires
            self.wf(),
            0 <= STACK_OFFSET + ply + offset < STACK_SIZE,
        ensures
            r == self.at(ply + offset),
    {
        let idx = (STACK_OFFSET as i32 + ply as i32 + offset) as usize;
        self.entries[idx]
    }

    /// Replaces the record of ply `ply`.
    pub fn set(&mut self, ply: u16, entry: StackEntry)
        requires
            old(self).wf(),
            STACK_OFFSET + ply < STACK_SIZE,
        ensures
            final(self).wf(),
            final(self).entries@ == old(self).entries@.update(STACK_OFFSET + ply, entry),
    {
        self.entries.set(STACK_OFFSET + ply as usize, entry);
    }

    /// Forgets the killers of ply `ply`.
    pub fn clear_killers(&mut self, ply: u16)
        requires
            old(self).wf(),
            STACK_OFFSET + ply < STACK_SIZE,
        ensures
            final(self).wf(),
            final(self).entries@ == old(self).entries@.update(
                STACK_OFFSET + ply,
                StackEntry { killer_moves: [move_none(), move_none()], ..old(self).at(ply as int) },
            ),
    {
        let mut e = self.get(ply);
        e.killer_moves = [Move::none(), Move::none()];
        self.set(ply, e);
    }

    /// The killers of ply `ply`.
    pub fn get_killers(&self, ply: u16) -> (r: KillerMoves)
        requires
            self.wf(),
            STACK_OFFSET + ply < STACK_SIZE,
        ensures
            r == self.at(ply as int).killer_moves,
    {
        self.get(ply).killer_moves
    }

    /// Records that `mov` caused a cutoff at ply `ply` (see [`killers_after`]).
    pub fn set_killer(&mut self, ply: u16, mov: Move)
        requires
            old(self).wf(),
            STACK_OFFSET + ply < STACK_SIZE,
        ensures
            final(self).wf(),
            final(self).at(ply as int).killer_moves[0] == killers_after(old(self).at(ply as int).killer_moves, mov).0,
            final(self).at(ply as int).killer_moves[1] == killers_after(old(self).at(ply as int).killer_moves, mov).1,
            final(self).at(ply as int).eval == old(self).at(ply as int).eval,
            final(self).at(ply as int).pv_length == old(self).at(ply as int).pv_length,
            final(self).at(ply as int).stack_move == old(self).at(ply as int).stack_move,
            final(self).at(ply as int).hash == old(self).at(ply as int).hash,
            forall|i: int| 0 <= i < STACK_SIZE && i != STACK_OFFSET + ply ==> final(self).entries@[i] == old(self).entries@[i],
    {
        let mut e = self.get(ply);
        if e.killer_moves[0] == mov {
            return;
        }
        e.killer_moves = [mov, e.killer_moves[0]];
        self.set(ply, e);
    }
}

impl StackEntry {
    /// The fresh entry of [`StackEntry::new`].
    pub open spec fn new_spec() -> StackEntry {
        StackEntry {
            killer_moves: [move_none(), move_none()],
            eval: EVAL_NONE,
            pv_length: 0,
            stack_move: StackMove { mov: move_none(), moved_piece: None, captured: None },
            hash: 0,
        }
    }
}

} // verus!
