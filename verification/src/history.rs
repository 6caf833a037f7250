use crate::chess_move::Move;
use crate::color::Color;
use crate::params::{MAX_HISTORY, MAX_KILLER_MOVES};
use crate::piece::Piece;
use crate::square::Sq;
use vstd::prelude::*;

verus! {

/// Integer division rounding toward zero, as Rust's `/` does.
pub open spec fn trunc_div(a: int, b: int) -> int {
    if a >= 0 {
        a / b
    } else {
        -((-a) / b)
    }
}

/// `v` clamped into `lo..=hi`.
pub open spec fn clamp(v: int, lo: int, hi: int) -> int {
    if v < lo {
        lo
    } else if v > hi {
        hi
    } else {
        v
    }
}

/// A history score after the bonus `bonus` (a malus when negative): the bonus is added and
/// the score is pulled back toward zero in proportion to the bonus's size, so that the
/// score stays within `-MAX_HISTORY..=MAX_HISTORY`.
pub open spec fn gravity_value(current: int, bonus: int) -> int {
    let abs = if bonus < 0 {
        -bonus
    } else {
        bonus
    };
    let abs = if abs > MAX_HISTORY {
        MAX_HISTORY as int
    } else {
        abs
    };
    clamp(
        current + bonus - trunc_div(current * abs, MAX_HISTORY as int),
        -MAX_HISTORY as int,
        MAX_HISTORY as int,
    )
}

/// Applies the bonus `bonus` to the history score `entry` (see [`gravity_value`]).
fn gravity(entry: i16, bonus: i32) -> (r: i16)
    ensures
        r as int == gravity_value(entry as int, bonus as int),
        -MAX_HISTORY <= r <= MAX_HISTORY,
{
    let current = entry as i64;
    let b = bonus as i64;
    let mut abs: i64 = if b < 0 {
        -b
    } else {
        b
    };
    if abs > 10_000 {
        abs = 10_000;
    }
    assert(-327_680_000 <= current * abs <= 327_670_000) by (nonlinear_arith)
        requires
            -32768 <= current <= 32767,
            0 <= abs <= 10_000,
    ;
    let prod = current * abs;
    let q: i64 = if prod >= 0 {
        prod / 10_000
    } else {
        -((-prod) / 10_000)
    };
    let v = current + b - q;
    let c: i64 = if v < -10_000 {
        -10_000
    } else if v > 10_000 {
        10_000
    } else {
        v
    };
    c as i16
}

/// The history bonus earned at depth `depth`: its square, at most `MAX_HISTORY`.
pub open spec fn spec_depth_bonus(depth: u8) -> i32 {
    if depth as int * depth as int > MAX_HISTORY {
        MAX_HISTORY
    } else {
        (depth as int * depth as int) as i32
    }
}

/// The history bonus earned at depth `depth`: its square, at most `MAX_HISTORY`.
pub fn history_depth_bonus(depth: u8) -> (r: i32)
    ensures
        r == spec_depth_bonus(depth),
        0 <= r <= MAX_HISTORY,
{
    let d = depth as i32;
    assert(0 <= d * d <= 65025) by (nonlinear_arith)
        requires
            0 <= d <= 255,
    ;
    let sq = d * d;
    if sq > MAX_HISTORY {
        MAX_HISTORY
    } else {
        sq
    }
}

/// Position of the (side, from, to) score in a [`HistoryTable`].
pub open spec fn hist_idx(side: Color, from: Sq, to: Sq) -> int {
    side as u8 as int * 4096 + from.idx() * 64 + to.idx()
}

/// Whether every score of `s` lies within `-MAX_HISTORY..=MAX_HISTORY`.
pub open spec fn scores_bounded(s: Seq<i16>) -> bool {
    forall|i: int| 0 <= i < s.len() ==> -MAX_HISTORY <= #[trigger] s[i] <= MAX_HISTORY
}

/// Butterfly history: a score for each side and (from, to) pair of quiet moves.
pub struct HistoryTable {
    pub table: Vec<i16>,
}

impl HistoryTable {
    /// A table of the right size whose scores are all bounded.
    pub open spec fn wf(&self) -> bool {
        self.table@.len() == 8192 && scores_bounded(self.table@)
    }

    /// The empty table.
    pub fn new() -> (r: Self)
        ensures
            r.wf(),
            forall|i: int| 0 <= i < 8192 ==> r.table@[i] == 0,
    {
        let mut table: Vec<i16> = Vec::new();
        let mut i: usize = 0;
        while i < 8192
            invariant
                i <= 8192,
                table@.len() == i,
                forall|j: int| 0 <= j < i ==> table@[j] == 0,
            decreases 8192 - i,
        {
            table.push(0);
            i += 1;
        }
        HistoryTable { table }
    }

    /// Resets every score to zero.
    pub fn clear(&mut self)
        ensures
            final(self).wf(),
            forall|i: int| 0 <= i < 8192 ==> final(self).table@[i] == 0,
    {
        *self = Self::new();
    }

    /// The score of the quiet move `from`-`to` of `side`.
    pub fn get(&self, side: Color, from: Sq, to: Sq) -> (r: i16)
        requires
            self.wf(),
        ensures
            r == self.table@[hist_idx(side, from, to)],
            -MAX_HISTORY <= r <= MAX_HISTORY,
    {
        let i = side as usize * 4096 + from as usize * 64 + to as usize;
        self.table[i]
    }

    /// Rewards the quiet move `from`-`to` of `side` with the bonus of depth `depth`.
    #[verifier::rlimit(40)]
    pub fn update_bonus(&mut self, side: Color, from: Sq, to: Sq, depth: u8)
        requires
            old(self).wf(),
        ensures
            final(self).wf(),
            final(self).table@ == old(self).table@.update(
                hist_idx(side, from, to),
                gravity_value(
                    old(self).table@[hist_idx(side, from, to)] as int,
                    spec_depth_bonus(depth) as int,
                ) as i16,
            ),
    {
        let i = side as usize * 4096 + from as usize * 64 + to as usize;
        let v = gravity(self.table[i], history_depth_bonus(depth));
        self.table[i] = v;
    }

    /// Penalises the quiet move `from`-`to` of `side` with the bonus of depth `depth`.
    #[verifier::rlimit(40)]
    pub fn update_malus(&mut self, side: Color, from: Sq, to: Sq, depth: u8)
        requires
            old(self).wf(),
        ensures
            final(self).wf(),
            final(self).table@ == old(self).table@.update(
                hist_idx(side, from, to),
                gravity_value(
                    old(self).table@[hist_idx(side, from, to)] as int,
                    -spec_depth_bonus(depth) as int,
                ) as i16,
            ),
    {
        let i = side as usize * 4096 + from as usize * 64 + to as usize;
        let v = gravity(self.table[i], -history_depth_bonus(depth));
        self.table[i] = v;
    }
}

/// The two killer moves of a ply.
pub type KillerMoves = [Move; MAX_KILLER_MOVES];

/// A continuation key: the piece kind and target square of an earlier move, if any.
pub type ContHistKey = Option<(Piece, Sq)>;

/// Continuation plies looked back at.
pub const CONTHIST_LAYERS: usize = 2;

/// The continuation keys of the plies looked back at.
pub type ContHistKeys = [ContHistKey; CONTHIST_LAYERS];

/// Position of the score of (piece, to) following (prev_p, prev_to).
pub open spec fn cont_idx(prev_p: Piece, prev_to: Sq, piece: Piece, to: Sq) -> int {
    ((prev_p as u8 as int * 64 + prev_to.idx()) * 6 + piece as u8 as int) * 64 + to.idx()
}

/// The continuation score of (piece, to) under key `key`; zero without a key.
pub open spec fn cont_get(t: Seq<i16>, key: ContHistKey, piece: Piece, to: Sq) -> int {
    match key {
        Some((p, s)) => t[cont_idx(p, s, piece, to)] as int,
        None => 0,
    }
}

/// Continuation history: a score for a (piece, target) pair following an earlier
/// (piece, target) pair.
pub struct ContinuationHistoryTable {
    pub table: Vec<i16>,
}

impl ContinuationHistoryTable {
    /// A table of the right size whose scores are all bounded.
    pub open spec fn wf(&self) -> bool {
        self.table@.len() == 147456 && scores_bounded(self.table@)
    }

    /// The empty table.
    pub fn new() -> (r: Self)
        ensures
            r.wf(),
            forall|i: int| 0 <= i < 147456 ==> r.table@[i] == 0,
    {
        let mut table: Vec<i16> = Vec::new();
        let mut i: usize = 0;
        while i < 147456
            invariant
                i <= 147456,
                table@.len() == i,
                forall|j: int| 0 <= j < i ==> table@[j] == 0,
            decreases 147456 - i,
        {
            table.push(0);
            i += 1;
        }
        ContinuationHistoryTable { table }
    }

    /// The score of `piece` moving to `to` after the move that `key` describes.
    pub fn get(&self, key: ContHistKey, piece: Piece, to: Sq) -> (r: i16)
        requires
            self.wf(),
        ensures
            r as int == cont_get(self.table@, key, piece, to),
            -MAX_HISTORY <= r <= MAX_HISTORY,
    {
        match key {
            Some((prev_p, prev_to)) => {
                let i = ((prev_p as usize * 64 + prev_to as usize) * 6 + piece as usize) * 64
                    + to as usize;
                self.table[i]
            },
            None => 0,
        }
    }

    /// The sum of the scores of `piece` moving to `to` under each key.
    pub fn score(&self, keys: &ContHistKeys, piece: Piece, to: Sq) -> (r: i16)
        requires
            self.wf(),
        ensures
            r as int == cont_get(self.table@, keys[0], piece, to) + cont_get(
                self.table@,
                keys[1],
                piece,
                to,
            ),
            -2 * MAX_HISTORY <= r <= 2 * MAX_HISTORY,
    {
        let a = self.get(keys[0], piece, to) as i32;
        let b = self.get(keys[1], piece, to) as i32;
        (a + b) as i16
    }

    /// Applies `bonus` to the score of `piece` moving to `to` under key `key`.
    #[verifier::rlimit(40)]
    pub fn update(&mut self, key: ContHistKey, piece: Piece, to: Sq, bonus: i32)
        requires
            old(self).wf(),
        ensures
            final(self).wf(),
            key is None ==> final(self).table@ == old(self).table@,
            key matches Some((p, s)) ==> final(self).table@ == old(self).table@.update(
                cont_idx(p, s, piece, to),
                gravity_value(
                    old(self).table@[cont_idx(p, s, piece, to)] as int,
                    bonus as int,
                ) as i16,
            ),
    {
        match key {
            Some((prev_p, prev_to)) => {
                let i = ((prev_p as usize * 64 + prev_to as usize) * 6 + piece as usize) * 64
                    + to as usize;
                let v = gravity(self.table[i], bonus);
                self.table[i] = v;
            },
            None => {},
        }
    }
}

/// The quiet moves tried at a node, at most 64 of them.
pub struct QuietsTried {
    pub moves: Vec<Move>,
}

impl QuietsTried {
    /// No moves tried yet.
    pub fn new() -> (r: Self)
        ensures
            r.moves@ == Seq::<Move>::empty(),
    {
        QuietsTried { moves: Vec::new() }
    }

    /// The moves tried, in order.
    pub fn as_slice(&self) -> (r: &[Move])
        ensures
            r@ == self.moves@,
    {
        self.moves.as_slice()
    }

    /// Records `mov`; once 64 moves are recorded further ones are dropped.
    pub fn push_move(&mut self, mov: Move)
        ensures
            old(self).moves@.len() < 64 ==> final(self).moves@ == old(self).moves@.push(mov),
            old(self).moves@.len() >= 64 ==> final(self).moves@ == old(self).moves@,
    {
        if self.moves.len() < 64 {
            self.moves.push(mov);
        }
    }
}

} // verus!
