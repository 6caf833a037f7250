use crate::bitboard::{
    bb_count, bit, flip_bits, lemma_bit_ops, lemma_flip_and, lemma_flip_bit, lemma_mirror_total, lemma_mirror_xor,
    lemma_popcount_flip, mirror_sq, popcount, square_total,
};
use crate::board::Board;
use crate::color::{opponent, Color};
use crate::history::trunc_div;
use crate::piece::Piece;
use crate::square::{file_of, rank_of};
use vstd::prelude::*;

pub use crate::params::{INFINITY, MATE_THRESHOLD};

verus! {

/// Game-phase weight of each piece kind (pawn to king).
pub const PHASE_WEIGHTS: [i32; 6] = [0, 1, 1, 2, 4, 0];

/// The phase of a position with all minor and major pieces on the board.
pub const MAX_PHASE: i32 = 24;

/// Middlegame material value of each piece kind (pawn to king).
pub const PIECE_VALUES_MG: [i32; 6] = [82, 337, 365, 477, 1025, 0];

/// Endgame material value of each piece kind (pawn to king).
pub const PIECE_VALUES_EG: [i32; 6] = [94, 281, 297, 512, 936, 0];

/// Middlegame value of a queen.
pub const QUEEN_VALUE_MG: i32 = 1025;

/// The middlegame bonus of a pawn by square (a1 first, h8 last), seen from White.
pub const PAWN_PST_MG: [i32; 64] = [
       0,    0,    0,    0,    0,    0,    0,    0,
     -35,   -1,  -20,  -23,  -15,   24,   38,  -22,
     -26,   -4,   -4,  -10,    3,    3,   33,  -12,
     -27,   -2,   -5,   12,   17,    6,   10,  -25,
     -14,   13,    6,   21,   23,   12,   17,  -23,
      -6,    7,   26,   31,   65,   56,   25,  -20,
      98,  134,   61,   95,   68,  126,   34,  -11,
       0,    0,    0,    0,    0,    0,    0,    0,
];

/// The endgame bonus of a pawn by square (a1 first, h8 last), seen from White.
pub const PAWN_PST_EG: [i32; 64] = [
       0,    0,    0,    0,    0,    0,    0,    0,
      13,    8,    8,   10,   13,    0,    2,   -7,
       4,    7,   -6,    1,    0,   -5,   -1,   -8,
      13,    9,   -3,   -7,   -7,   -8,    3,   -1,
      32,   24,   13,    5,   -2,    4,   17,   17,
      94,  100,   85,   67,   56,   53,   82,   84,
     178,  173,  158,  134,  147,  132,  165,  187,
       0,    0,    0,    0,    0,    0,    0,    0,
];

/// The middlegame bonus of a knight by square (a1 first, h8 last), seen from White.
pub const KNIGHT_PST_MG: [i32; 64] = [
    -105,  -21,  -58,  -33,  -17,  -28,  -19,  -23,
     -29,  -53,  -12,   -3,   -1,   18,  -14,  -19,
     -23,   -9,   12,   10,   19,   17,   25,  -16,
     -13,    4,   16,   13,   28,   19,   21,   -8,
      -9,   17,   19,   53,   37,   69,   18,   22,
     -47,   60,   37,   65,   84,  129,   73,   44,
     -73,  -41,   72,   36,   23,   62,    7,  -17,
    -167,  -89,  -34,  -49,   61,  -97,  -15, -107,
];

/// The endgame bonus of a knight by square (a1 first, h8 last), seen from White.
pub const KNIGHT_PST_EG: [i32; 64] = [
     -29,  -51,  -23,  -15,  -22,  -18,  -50,  -64,
     -42,  -20,  -10,   -5,   -2,  -20,  -23,  -44,
     -23,   -3,   -1,   15,   10,   -3,  -20,  -22,
     -18,   -6,   16,   25,   16,   17,    4,  -18,
     -17,    3,   22,   22,   22,   11,    8,  -18,
     -24,  -20,   10,    9,   -1,   -9,  -19,  -41,
     -25,   -8,  -25,   -2,   -9,  -25,  -24,  -52,
     -58,  -38,  -13,  -28,  -31,  -27,  -63,  -99,
];

/// The middlegame bonus of a bishop by square (a1 first, h8 last), seen from White.
pub const BISHOP_PST_MG: [i32; 64] = [
     -33,   -3,  -14,  -21,  -13,  -12,  -39,  -21,
       4,   15,   16,    0,    7,   21,   33,    1,
       0,   15,   15,   15,   14,   27,   18,   10,
      -6,   13,   13,   26,   34,   12,   10,    4,
      -4,    5,   19,   50,   37,   37,    7,   -2,
     -16,   37,   43,   40,   35,   50,   37,   -2,
     -26,   16,  -18,  -13,   30,   59,   18,  -47,
     -29,    4,  -82,  -37,  -25,  -42,    7,   -8,
];

/// The endgame bonus of a bishop by square (a1 first, h8 last), seen from White.
pub const BISHOP_PST_EG: [i32; 64] = [
     -23,   -9,  -23,   -5,   -9,  -16,   -5,  -17,
     -14,  -18,   -7,   -1,    4,   -9,  -15,  -27,
     -12,   -3,    8,   10,   13,    3,   -7,  -15,
      -6,    3,   13,   19,    7,   10,   -3,   -9,
      -3,    9,   12,    9,   14,   10,    3,    2,
       2,   -8,    0,   -1,   -2,    6,    0,    4,
      -8,   -4,    7,  -12,   -3,  -13,   -4,  -14,
     -14,  -21,  -11,   -8,   -7,   -9,  -17,  -24,
];

/// The middlegame bonus of a rook by square (a1 first, h8 last), seen from White.
pub const ROOK_PST_MG: [i32; 64] = [
     -19,  -13,    1,   17,   16,    7,  -37,  -26,
     -44,  -16,  -20,   -9,   -1,   11,   -6,  -71,
     -45,  -25,  -16,  -17,    3,    0,   -5,  -33,
     -36,  -26,  -12,   -1,    9,   -7,    6,  -23,
     -24,  -11,    7,   26,   24,   35,   -8,  -20,
      -5,   19,   26,   36,   17,   45,   61,   16,
      27,   32,   58,   62,   80,   67,   26,   44,
      32,   42,   32,   51,   63,    9,   31,   43,
];

/// The endgame bonus of a rook by square (a1 first, h8 last), seen from White.
pub const ROOK_PST_EG: [i32; 64] = [
      -9,    2,    3,   -1,   -5,  -13,    4,  -20,
      -6,   -6,    0,    2,   -9,   -9,  -11,   -3,
      -4,    0,   -5,   -1,   -7,  -12,   -8,  -16,
       3,    5,    8,    4,   -5,   -6,   -8,  -11,
       4,    3,   13,    1,    2,    1,   -1,    2,
       7,    7,    7,    5,    4,   -3,   -5,   -3,
      11,   13,   13,   11,   -3,    3,    8,    3,
      13,   10,   18,   15,   12,   12,    8,    5,
];

/// The middlegame bonus of a queen by square (a1 first, h8 last), seen from White.
pub const QUEEN_PST_MG: [i32; 64] = [
      -1,  -18,   -9,   10,  -15,  -25,  -31,  -50,
     -35,   -8,   11,    2,    8,   15,   -3,    1,
     -14,    2,  -11,   -2,   -5,    2,   14,    5,
      -9,  -26,   -9,  -10,   -2,   -4,    3,   -3,
     -27,  -27,  -16,  -16,   -1,   17,   -2,    1,
     -13,  -17,    7,    8,   29,   56,   47,   57,
     -24,  -39,   -5,    1,  -16,   57,   28,   54,
     -28,    0,   29,   12,   59,   44,   43,   45,
];

/// The endgame bonus of a queen by square (a1 first, h8 last), seen from White.
pub const QUEEN_PST_EG: [i32; 64] = [
     -33,  -28,  -22,  -43,   -5,  -32,  -20,  -41,
     -22,  -23,  -30,  -16,  -16,  -23,  -36,  -32,
     -16,  -27,   15,    6,    9,   17,   10,    5,
     -18,   28,   19,   47,   31,   34,   39,   23,
       3,   22,   24,   45,   57,   40,   57,   36,
     -20,    6,    9,   49,   47,   35,   19,    9,
     -17,   20,   32,   41,   58,   25,   30,    0,
      -9,   22,   22,   27,   27,   19,   10,   20,
];

/// The middlegame bonus of a king by square (a1 first, h8 last), seen from White.
pub const KING_PST_MG: [i32; 64] = [
     -15,   36,   12,  -54,    8,  -28,   24,   14,
       1,    7,   -8,  -64,  -43,  -16,    9,    8,
     -14,  -14,  -22,  -46,  -44,  -30,  -15,  -27,
     -49,   -1,  -27,  -39,  -46,  -44,  -33,  -51,
     -17,  -20,  -12,  -27,  -30,  -25,  -14,  -36,
      -9,   24,    2,  -16,  -20,    6,   22,  -22,
      29,   -1,  -20,   -7,   -8,   -4,  -38,  -29,
     -65,   23,   16,  -15,  -56,  -34,    2,   13,
];

/// The endgame bonus of a king by square (a1 first, h8 last), seen from White.
pub const KING_PST_EG: [i32; 64] = [
     -53,  -34,  -21,  -11,  -28,  -14,  -24,  -43,
     -27,  -11,    4,   13,   14,    4,   -5,  -17,
     -19,   -3,   11,   21,   23,   16,    7,   -9,
     -18,   -4,   21,   24,   27,   23,    9,  -11,
      -8,   22,   24,   27,   26,   33,   26,    3,
      10,   17,   23,   15,   20,   45,   44,   13,
     -12,   17,   14,   17,   17,   38,   23,   11,
     -74,  -35,  -18,  -18,  -11,   15,    4,  -17,
];


/// The positional bonus of piece kind `p` on square index `s` seen from White, in the
/// middlegame (`mg`) or the endgame.
pub open spec fn pst(p: Piece, mg: bool, s: int) -> int {
    if mg {
        match p {
            Piece::Pawn => PAWN_PST_MG[s] as int,
            Piece::Knight => KNIGHT_PST_MG[s] as int,
            Piece::Bishop => BISHOP_PST_MG[s] as int,
            Piece::Rook => ROOK_PST_MG[s] as int,
            Piece::Queen => QUEEN_PST_MG[s] as int,
            Piece::King => KING_PST_MG[s] as int,
        }
    } else {
        match p {
            Piece::Pawn => PAWN_PST_EG[s] as int,
            Piece::Knight => KNIGHT_PST_EG[s] as int,
            Piece::Bishop => BISHOP_PST_EG[s] as int,
            Piece::Rook => ROOK_PST_EG[s] as int,
            Piece::Queen => QUEEN_PST_EG[s] as int,
            Piece::King => KING_PST_EG[s] as int,
        }
    }
}

/// The material value of piece kind `p` in the middlegame (`mg`) or the endgame.
pub open spec fn material(p: Piece, mg: bool) -> int {
    if mg {
        PIECE_VALUES_MG[p as u8 as int] as int
    } else {
        PIECE_VALUES_EG[p as u8 as int] as int
    }
}

/// Square index `s` seen from `c`'s side: Black's squares are mirrored rank-wise.
pub open spec fn relative_sq(c: Color, s: int) -> int {
    if c == Color::White {
        s
    } else {
        (7 - rank_of(s)) * 8 + file_of(s)
    }
}

/// The value of a piece of kind `p` and color `c` on square index `s`: material plus
/// positional bonus.
pub open spec fn piece_square_value(p: Piece, c: Color, s: int, mg: bool) -> int {
    material(p, mg) + pst(p, mg, relative_sq(c, s))
}

/// The piece kind with index `k`.
pub open spec fn kind_of(k: int) -> Piece {
    if k == 0 {
        Piece::Pawn
    } else if k == 1 {
        Piece::Knight
    } else if k == 2 {
        Piece::Bishop
    } else if k == 3 {
        Piece::Rook
    } else if k == 4 {
        Piece::Queen
    } else {
        Piece::King
    }
}

/// The values of `c`'s pieces of the first `k` kinds on square index `s`.
pub open spec fn square_sum(b: Board, c: Color, s: int, mg: bool, k: int) -> int
    decreases k,
{
    if k <= 0 {
        0
    } else {
        square_sum(b, c, s, mg, k - 1) + if bit(
            b.bit_colors[c as u8 as int] & b.bit_pieces[k - 1],
            s,
        ) {
            piece_square_value(kind_of(k - 1), c, s, mg)
        } else {
            0
        }
    }
}

/// The values of `c`'s pieces on the first `n` squares.
pub open spec fn side_sum(b: Board, c: Color, mg: bool, n: int) -> int
    decreases n,
{
    if n <= 0 {
        0
    } else {
        side_sum(b, c, mg, n - 1) + square_sum(b, c, n - 1, mg, 6)
    }
}

/// The game phase: knights and bishops count one, rooks two, queens four, up to 24.
pub open spec fn game_phase(b: Board) -> int {
    let p = popcount(b.bit_pieces[1]) + popcount(b.bit_pieces[2]) + 2 * popcount(b.bit_pieces[3])
        + 4 * popcount(b.bit_pieces[4]);
    if p > 24 {
        24
    } else {
        p as int
    }
}

/// The tapered evaluation from White's side: the middlegame and endgame balances weighted by
/// the game phase.
pub open spec fn white_score(b: Board) -> int {
    let mg = side_sum(b, Color::White, true, 64) - side_sum(b, Color::Black, true, 64);
    let eg = side_sum(b, Color::White, false, 64) - side_sum(b, Color::Black, false, 64);
    trunc_div(mg * game_phase(b) + eg * (24 - game_phase(b)), 24)
}

/// The evaluation from the side to move's point of view, as a 16-bit score.
pub open spec fn spec_eval(b: Board) -> i16 {
    if b.to_play == Color::White {
        white_score(b) as i16
    } else {
        (-white_score(b)) as i16
    }
}

fn pst_value(p: Piece, mg: bool, s: usize) -> (r: i32)
    requires
        s < 64,
    ensures
        r == pst(p, mg, s as int),
{
    if mg {
        match p {
            Piece::Pawn => PAWN_PST_MG[s],
            Piece::Knight => KNIGHT_PST_MG[s],
            Piece::Bishop => BISHOP_PST_MG[s],
            Piece::Rook => ROOK_PST_MG[s],
            Piece::Queen => QUEEN_PST_MG[s],
            Piece::King => KING_PST_MG[s],
        }
    } else {
        match p {
            Piece::Pawn => PAWN_PST_EG[s],
            Piece::Knight => KNIGHT_PST_EG[s],
            Piece::Bishop => BISHOP_PST_EG[s],
            Piece::Rook => ROOK_PST_EG[s],
            Piece::Queen => QUEEN_PST_EG[s],
            Piece::King => KING_PST_EG[s],
        }
    }
}

fn piece_square(p: Piece, c: Color, s: usize, mg: bool) -> (r: i64)
    requires
        s < 64,
    ensures
        r == piece_square_value(p, c, s as int, mg),
{
    let rel: usize = if c == Color::White {
        s
    } else {
        proof {
            lemma_mirror_xor(s as u64);
        }
        s ^ 56
    };
    let base = if mg {
        PIECE_VALUES_MG[p as usize]
    } else {
        PIECE_VALUES_EG[p as usize]
    };
    let v = pst_value(p, mg, rel);
    base as i64 + v as i64
}


/// The values of `c`'s pieces on square `s`, middlegame and endgame.
fn square_values(b: &Board, c: Color, s: usize) -> (r: (i64, i64))
    requires
        s < 64,
    ensures
        r.0 == square_sum(*b, c, s as int, true, 6),
        r.1 == square_sum(*b, c, s as int, false, 6),
        -0x1_0000_0000 * 6 <= r.0 <= 0x1_0000_0000 * 6,
        -0x1_0000_0000 * 6 <= r.1 <= 0x1_0000_0000 * 6,
{
    let mut mg: i64 = 0;
    let mut eg: i64 = 0;
    let mut k: usize = 0;
    while k < 6
        invariant
            k <= 6,
            s < 64,
            mg == square_sum(*b, c, s as int, true, k as int),
            eg == square_sum(*b, c, s as int, false, k as int),
            -0x1_0000_0000 * (k as int) <= mg <= 0x1_0000_0000 * (k as int),
            -0x1_0000_0000 * (k as int) <= eg <= 0x1_0000_0000 * (k as int),
        decreases 6 - k,
    {
        let piece = Piece::from_index(k);
        let bb = b.color_piece(piece, c);
        if (bb >> (s as u64)) & 1 == 1 {
            assert(kind_of(k as int) == piece);
            mg = mg + piece_square(piece, c, s, true);
            eg = eg + piece_square(piece, c, s, false);
        }
        k += 1;
    }
    (mg, eg)
}

/// Evaluates the position for the side to move with a tapered piece-square evaluation:
/// middlegame and endgame material-plus-position balances blended by the game phase
/// (see [`spec_eval`]).
pub fn eval_board(board: &Board) -> (r: i16)
    ensures
        r == spec_eval(*board),
{
    let mut w_mg: i64 = 0;
    let mut w_eg: i64 = 0;
    let mut b_mg: i64 = 0;
    let mut b_eg: i64 = 0;
    let mut s: usize = 0;
    while s < 64
        invariant
            s <= 64,
            w_mg == side_sum(*board, Color::White, true, s as int),
            w_eg == side_sum(*board, Color::White, false, s as int),
            b_mg == side_sum(*board, Color::Black, true, s as int),
            b_eg == side_sum(*board, Color::Black, false, s as int),
            -0x6_0000_0000 * (s as int) <= w_mg <= 0x6_0000_0000 * (s as int),
            -0x6_0000_0000 * (s as int) <= w_eg <= 0x6_0000_0000 * (s as int),
            -0x6_0000_0000 * (s as int) <= b_mg <= 0x6_0000_0000 * (s as int),
            -0x6_0000_0000 * (s as int) <= b_eg <= 0x6_0000_0000 * (s as int),
        decreases 64 - s,
    {
        let (wm, we) = square_values(board, Color::White, s);
        let (bm, be) = square_values(board, Color::Black, s);
        w_mg = w_mg + wm;
        w_eg = w_eg + we;
        b_mg = b_mg + bm;
        b_eg = b_eg + be;
        s += 1;
    }
    let mg = w_mg - b_mg;
    let eg = w_eg - b_eg;
    let raw = bb_count(board.pieces(Piece::Knight)) as i64 + bb_count(board.pieces(Piece::Bishop)) as i64
        + 2 * bb_count(board.pieces(Piece::Rook)) as i64 + 4 * bb_count(board.pieces(Piece::Queen)) as i64;
    let phase: i64 = if raw > 24 {
        24
    } else {
        raw
    };
    assert(-0x1_0000_0000 * 6 * 64 * 2 * 24 <= mg * phase <= 0x1_0000_0000 * 6 * 64 * 2 * 24) by (nonlinear_arith)
        requires
            -0x1_0000_0000 * 6 * 64 * 2 <= mg <= 0x1_0000_0000 * 6 * 64 * 2,
            0 <= phase <= 24,
    ;
    assert(-0x1_0000_0000 * 6 * 64 * 2 * 24 <= eg * (24 - phase) <= 0x1_0000_0000 * 6 * 64 * 2 * 24) by (nonlinear_arith)
        requires
            -0x1_0000_0000 * 6 * 64 * 2 <= eg <= 0x1_0000_0000 * 6 * 64 * 2,
            0 <= phase <= 24,
    ;
    let total = mg * phase + eg * (24 - phase);
    let score: i64 = if total >= 0 {
        total / 24
    } else {
        -((-total) / 24)
    };
    assert(score == white_score(*board));
    if board.to_play == Color::White {
        #[verifier::truncate]
        (score as i16)
    } else {
        #[verifier::truncate]
        ((-score) as i16)
    }
}

/// `m` is `b` seen in a mirror: each piece on the same file of the opposite rank and of the
/// other color, and the other side to move.
pub open spec fn color_mirror(b: Board, m: Board) -> bool {
    &&& m.bit_colors[0] == flip_bits(b.bit_colors[1])
    &&& m.bit_colors[1] == flip_bits(b.bit_colors[0])
    &&& forall|k: int| 0 <= k < 6 ==> #[trigger] m.bit_pieces[k] == flip_bits(b.bit_pieces[k])
    &&& m.to_play == opponent(b.to_play)
}

proof fn lemma_side_total(b: Board, c: Color, mg: bool, n: int)
    requires
        0 <= n <= 64,
    ensures
        side_sum(b, c, mg, n) == square_total(|s: int| square_sum(b, c, s, mg, 6), n),
    decreases n,
{
    if n > 0 {
        lemma_side_total(b, c, mg, n - 1);
    }
}

proof fn lemma_square_mirror(b: Board, m: Board, c: Color, s: int, mg: bool)
    requires
        color_mirror(b, m),
        0 <= s < 64,
    ensures
        square_sum(m, c, s, mg, 6) == square_sum(b, opponent(c), mirror_sq(s), mg, 6),
{
    reveal_with_fuel(square_sum, 7);
    let t = mirror_sq(s);
    assert((7 - t / 8) * 8 + t % 8 == s) by {
        assert(t / 8 == 7 - s / 8);
        assert(t % 8 == s % 8);
    }
    assert(relative_sq(c, s) == relative_sq(opponent(c), t));
    let cm = m.bit_colors[c as u8 as int];
    let cb = b.bit_colors[opponent(c) as u8 as int];
    assert(cm == flip_bits(cb));
    assert forall|k: int| 0 <= k < 6 implies bit(cm & m.bit_pieces[k], s) == bit(
        cb & b.bit_pieces[k],
        t,
    ) by {
        lemma_flip_and(cb, b.bit_pieces[k]);
        lemma_flip_bit(cb & b.bit_pieces[k], s);
    }
    assert(bit(cm & m.bit_pieces[0], s) == bit(cb & b.bit_pieces[0], t));
    assert(bit(cm & m.bit_pieces[1], s) == bit(cb & b.bit_pieces[1], t));
    assert(bit(cm & m.bit_pieces[2], s) == bit(cb & b.bit_pieces[2], t));
    assert(bit(cm & m.bit_pieces[3], s) == bit(cb & b.bit_pieces[3], t));
    assert(bit(cm & m.bit_pieces[4], s) == bit(cb & b.bit_pieces[4], t));
    assert(bit(cm & m.bit_pieces[5], s) == bit(cb & b.bit_pieces[5], t));
}

proof fn lemma_side_mirror(b: Board, m: Board, c: Color, mg: bool)
    requires
        color_mirror(b, m),
    ensures
        side_sum(m, c, mg, 64) == side_sum(b, opponent(c), mg, 64),
{
    let g = |s: int| square_sum(m, c, s, mg, 6);
    let h = |s: int| square_sum(b, opponent(c), s, mg, 6);
    lemma_side_total(m, c, mg, 64);
    lemma_side_total(b, opponent(c), mg, 64);
    assert forall|s: int| 0 <= s < 64 implies #[trigger] g(s) == h(mirror_sq(s)) by {
        lemma_square_mirror(b, m, c, s, mg);
    }
    lemma_mirror_total(g, h);
}

/// Color symmetry: the mirrored position, with colors and the side to move swapped, has
/// the same evaluation for its side to move.
pub proof fn lemma_eval_color_symmetry(b: Board, m: Board)
    requires
        color_mirror(b, m),
    ensures
        spec_eval(m) == spec_eval(b),
{
    lemma_side_mirror(b, m, Color::White, true);
    lemma_side_mirror(b, m, Color::Black, true);
    lemma_side_mirror(b, m, Color::White, false);
    lemma_side_mirror(b, m, Color::Black, false);
    lemma_popcount_flip(b.bit_pieces[1]);
    lemma_popcount_flip(b.bit_pieces[2]);
    lemma_popcount_flip(b.bit_pieces[3]);
    lemma_popcount_flip(b.bit_pieces[4]);
    assert(m.bit_pieces[1] == flip_bits(b.bit_pieces[1]));
    assert(m.bit_pieces[2] == flip_bits(b.bit_pieces[2]));
    assert(m.bit_pieces[3] == flip_bits(b.bit_pieces[3]));
    assert(m.bit_pieces[4] == flip_bits(b.bit_pieces[4]));
    assert(game_phase(m) == game_phase(b));
    let ph = game_phase(b);
    let mg = side_sum(b, Color::White, true, 64) - side_sum(b, Color::Black, true, 64);
    let eg = side_sum(b, Color::White, false, 64) - side_sum(b, Color::Black, false, 64);
    let total = mg * ph + eg * (24 - ph);
    assert((-mg) * ph + (-eg) * (24 - ph) == -total) by (nonlinear_arith)
        requires
            total == mg * ph + eg * (24 - ph),
    ;
    assert(white_score(b) == trunc_div(total, 24));
    assert(white_score(m) == trunc_div(-total, 24));
    assert(white_score(m) == -white_score(b));
}


proof fn lemma_square_same(b: Board, b2: Board, c: Color, s: int, mg: bool, k: int)
    requires
        b2.bit_colors == b.bit_colors,
        b2.bit_pieces == b.bit_pieces,
    ensures
        square_sum(b2, c, s, mg, k) == square_sum(b, c, s, mg, k),
    decreases k,
{
    if k > 0 {
        lemma_square_same(b, b2, c, s, mg, k - 1);
    }
}

proof fn lemma_side_same(b: Board, b2: Board, c: Color, mg: bool, n: int)
    requires
        b2.bit_colors == b.bit_colors,
        b2.bit_pieces == b.bit_pieces,
    ensures
        side_sum(b2, c, mg, n) == side_sum(b, c, mg, n),
    decreases n,
{
    if n > 0 {
        lemma_side_same(b, b2, c, mg, n - 1);
        lemma_square_same(b, b2, c, n - 1, mg, 6);
    }
}

/// The evaluation is that of the placement for the side to move: the same pieces with the
/// other side to move score the opposite (when the score is not -32768, whose opposite a
/// 16-bit score cannot hold).
pub proof fn lemma_eval_side_to_move(b: Board, b2: Board)
    requires
        b2.bit_colors == b.bit_colors,
        b2.bit_pieces == b.bit_pieces,
        b2.to_play != b.to_play,
        -32767 <= white_score(b) <= 32767,
    ensures
        spec_eval(b2) == -spec_eval(b),
{
    lemma_side_same(b, b2, Color::White, true, 64);
    lemma_side_same(b, b2, Color::Black, true, 64);
    lemma_side_same(b, b2, Color::White, false, 64);
    lemma_side_same(b, b2, Color::Black, false, 64);
    assert(white_score(b2) == white_score(b));
}


/// `b2` is `b` with a piece of kind `k` and color `c` put on the square `s`, empty in `b`,
/// the other squares unchanged (as the bitboards say).
pub open spec fn with_piece(b: Board, b2: Board, k: Piece, c: Color, s: int) -> bool {
    &&& 0 <= s < 64
    &&& !bit(b.bit_colors[0], s)
    &&& !bit(b.bit_colors[1], s)
    &&& forall|ci: int, t: int|
        0 <= ci < 2 && 0 <= t < 64 ==> (#[trigger] bit(b2.bit_colors[ci], t) <==> (if t == s {
            ci == c as u8 as int
        } else {
            bit(b.bit_colors[ci], t)
        }))
    &&& forall|ki: int, t: int|
        0 <= ki < 6 && 0 <= t < 64 ==> (#[trigger] bit(b2.bit_pieces[ki], t) <==> (if t == s {
            ki == k as u8 as int
        } else {
            bit(b.bit_pieces[ki], t)
        }))
}

proof fn lemma_square_other(b: Board, b2: Board, k: Piece, c: Color, s: int, cc: Color, t: int, mg: bool, j: int)
    requires
        with_piece(b, b2, k, c, s),
        0 <= t < 64,
        t != s,
        0 <= j <= 6,
    ensures
        square_sum(b2, cc, t, mg, j) == square_sum(b, cc, t, mg, j),
    decreases j,
{
    if j > 0 {
        lemma_square_other(b, b2, k, c, s, cc, t, mg, j - 1);
        let ci = cc as u8 as int;
        lemma_bit_ops(b2.bit_colors[ci], b2.bit_pieces[j - 1], 0);
        lemma_bit_ops(b.bit_colors[ci], b.bit_pieces[j - 1], 0);
        assert(bit(b2.bit_colors[ci], t) == bit(b.bit_colors[ci], t));
        assert(bit(b2.bit_pieces[j - 1], t) == bit(b.bit_pieces[j - 1], t));
    }
}

proof fn lemma_square_at(b: Board, b2: Board, k: Piece, c: Color, s: int, cc: Color, mg: bool, j: int)
    requires
        with_piece(b, b2, k, c, s),
        0 <= j <= 6,
    ensures
        square_sum(b, cc, s, mg, j) == 0,
        square_sum(b2, cc, s, mg, j) == (if cc == c && (k as u8) < j {
            piece_square_value(k, c, s, mg)
        } else {
            0
        }),
    decreases j,
{
    if j > 0 {
        lemma_square_at(b, b2, k, c, s, cc, mg, j - 1);
        let ci = cc as u8 as int;
        lemma_bit_ops(b2.bit_colors[ci], b2.bit_pieces[j - 1], 0);
        lemma_bit_ops(b.bit_colors[ci], b.bit_pieces[j - 1], 0);
        assert(!bit(b.bit_colors[ci], s));
        assert(bit(b2.bit_colors[ci], s) == (cc == c));
        assert(bit(b2.bit_pieces[j - 1], s) == (j - 1 == k as u8 as int));
        if j - 1 == k as u8 as int {
            assert(kind_of(j - 1) == k);
        }
    }
}

proof fn lemma_side_with(b: Board, b2: Board, k: Piece, c: Color, s: int, cc: Color, mg: bool, n: int)
    requires
        with_piece(b, b2, k, c, s),
        0 <= n <= 64,
    ensures
        side_sum(b2, cc, mg, n) == side_sum(b, cc, mg, n) + (if cc == c && s < n {
            piece_square_value(k, c, s, mg)
        } else {
            0
        }),
    decreases n,
{
    if n > 0 {
        lemma_side_with(b, b2, k, c, s, cc, mg, n - 1);
        if n - 1 == s {
            lemma_square_at(b, b2, k, c, s, cc, mg, 6);
        } else {
            lemma_square_other(b, b2, k, c, s, cc, n - 1, mg, 6);
        }
    }
}

/// Every piece counts its material: putting a piece of kind `k` and color `c` on an empty
/// square `s` adds to `c`'s middlegame and endgame sums exactly the piece's material value
/// (`PIECE_VALUES_MG` / `PIECE_VALUES_EG`) plus its square bonus, and leaves the other
/// side's sums unchanged.
pub proof fn lemma_piece_adds_its_value(b: Board, b2: Board, k: Piece, c: Color, s: int)
    requires
        with_piece(b, b2, k, c, s),
    ensures
        side_sum(b2, c, true, 64) == side_sum(b, c, true, 64) + PIECE_VALUES_MG[k as u8 as int]
            + pst(k, true, relative_sq(c, s)),
        side_sum(b2, c, false, 64) == side_sum(b, c, false, 64) + PIECE_VALUES_EG[k as u8 as int]
            + pst(k, false, relative_sq(c, s)),
        side_sum(b2, opponent(c), true, 64) == side_sum(b, opponent(c), true, 64),
        side_sum(b2, opponent(c), false, 64) == side_sum(b, opponent(c), false, 64),
{
    lemma_side_with(b, b2, k, c, s, c, true, 64);
    lemma_side_with(b, b2, k, c, s, c, false, 64);
    lemma_side_with(b, b2, k, c, s, opponent(c), true, 64);
    lemma_side_with(b, b2, k, c, s, opponent(c), false, 64);
}

} // verus!
