use crate::piece::Piece;
use vstd::prelude::*;

verus! {

/// Marks a static evaluation that has not been computed.
pub const EVAL_NONE: i16 = 30_001;

/// A score beyond every reachable evaluation; being mated now scores its negation.
pub const INFINITY: i16 = 30_000;

/// Scores beyond this (in absolute value) announce a forced mate.
pub const MATE_THRESHOLD: i16 = 29_000;

/// Deepest ply the search descends to.
pub const MAX_PLY: u16 = 64;

/// Killer moves remembered per ply.
pub const MAX_KILLER_MOVES: usize = 2;

/// Bound on the magnitude of a history score.
pub const MAX_HISTORY: i32 = 10_000;

/// Divisor of the eval margin that deepens a null-move reduction.
pub const NMP_EVAL_DIVISOR: i16 = 250;

/// Smallest null-move reduction.
pub const NMP_MIN_REDUCTION: u8 = 3;

/// Futility margin per ply of depth (one pawn).
pub const FUTILITY_MARGIN: i16 = 400;

/// Futility pruning applies below this depth.
pub const FUTILITY_MAX_DEPTH: u8 = 8;

/// Reverse futility margin per ply of depth (one pawn).
pub const RFP_MARGIN: i16 = 400;

/// Reverse futility pruning applies up to this depth.
pub const RFP_DEPTH: u8 = 5;

/// Delta-pruning margin of the quiescence search (two pawns).
pub const DELTA_MARGIN: i16 = 800;

/// Global delta-pruning margin of the quiescence search (a queen).
pub const GLOBAL_DELTA_MARGIN: i16 = 2570;

/// First half-width of the aspiration window.
pub const ASPIRATION_INITIAL_DELTA: i16 = 100;

/// Half-width beyond which the aspiration window opens fully (three pawns).
pub const ASPIRATION_FLUCTUATION: i16 = 1200;

/// Aspiration windows are used from this depth on.
pub const ASPIRATION_MIN_DEPTH: u8 = 5;

/// Static exchange margin per ply for pruning captures.
pub const SEE_CAPTURE_MARGIN: i32 = -100;

/// Static exchange margin for pruning captures in the quiescence search.
pub const SEE_QSEARCH_MARGIN: i32 = -100;

/// Material value of a piece kind, on the scale of the evaluation (about 400 per pawn).
pub open spec fn spec_piece_value(piece: Piece) -> i16 {
    match piece {
        Piece::Pawn => 400,
        Piece::Knight => 1350,
        Piece::Bishop => 1450,
        Piece::Rook => 1750,
        Piece::Queen => 2570,
        Piece::King => 0,
    }
}

/// Material value of a piece kind, on the scale of the evaluation (about 400 per pawn).
pub fn piece_value(piece: Piece) -> (r: i16)
    ensures
        r == spec_piece_value(piece),
{
    match piece {
        Piece::Pawn => 400,
        Piece::Knight => 1350,
        Piece::Bishop => 1450,
        Piece::Rook => 1750,
        Piece::Queen => 2570,
        Piece::King => 0,
    }
}

} // verus!
