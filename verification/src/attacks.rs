use crate::bitboard::{
    bb_bishop_attacks, bb_rook_attacks, bishop_rays, bit, lands, lemma_leap_bits, leap_bb,
    leaper_attacks, rook_rays,
};
use crate::color::Color;
use crate::piece::Piece;
use crate::square::{file_dist, file_of, rank_dist, rank_of, Sq};
use vstd::prelude::*;

verus! {

/// Whether a knight jumps from square index `s` to square index `t`.
pub open spec fn knight_jump(s: int, t: int) -> bool {
    (file_dist(s, t) == 1 && rank_dist(s, t) == 2) || (file_dist(s, t) == 2 && rank_dist(s, t) == 1)
}

/// Whether a king steps from square index `s` to square index `t`.
pub open spec fn king_step(s: int, t: int) -> bool {
    file_dist(s, t) <= 1 && rank_dist(s, t) <= 1 && s != t
}

/// Whether a pawn of `color` on square index `s` attacks square index `t`: one file to
/// either side, one rank forward.
pub open spec fn pawn_hit(s: int, color: Color, t: int) -> bool {
    file_dist(s, t) == 1 && rank_of(t) == rank_of(s) + (if color == Color::White {
        1int
    } else {
        -1int
    })
}

/// The knight's jumps.
pub open spec fn knight_offsets() -> Seq<(i8, i8)> {
    seq![(1i8, 2i8), (2i8, 1i8), (2i8, -1i8), (1i8, -2i8), (-1i8, -2i8), (-2i8, -1i8), (-2i8, 1i8), (-1i8, 2i8)]
}

/// The king's steps.
pub open spec fn king_offsets() -> Seq<(i8, i8)> {
    seq![(0i8, 1i8), (1i8, 1i8), (1i8, 0i8), (1i8, -1i8), (0i8, -1i8), (-1i8, -1i8), (-1i8, 0i8), (-1i8, 1i8)]
}

/// A pawn's capture steps for `color`.
pub open spec fn pawn_offsets(color: Color) -> Seq<(i8, i8)> {
    if color == Color::White {
        seq![(-1i8, 1i8), (1i8, 1i8)]
    } else {
        seq![(-1i8, -1i8), (1i8, -1i8)]
    }
}

/// The squares a knight on `sq` attacks.
pub fn knight_attacks(sq: Sq) -> (r: u64)
    ensures
        r == leap_bb(file_of(sq.idx()), rank_of(sq.idx()), knight_offsets()),
        forall|t: int| 0 <= t < 64 ==> (bit(r, t) <==> knight_jump(sq.idx(), t)),
{
    let offs: [(i8, i8); 8] = [(1, 2), (2, 1), (2, -1), (1, -2), (-1, -2), (-2, -1), (-2, 1), (-1, 2)];
    assert(offs@ == knight_offsets());
    let r = leaper_attacks(sq, &offs);
    proof {
        let f = file_of(sq.idx());
        let k = rank_of(sq.idx());
        let o = knight_offsets();
        assert forall|t: int| 0 <= t < 64 implies (bit(r, t) <==> knight_jump(sq.idx(), t)) by {
            lemma_leap_bits(f, k, o, t);
            if knight_jump(sq.idx(), t) {
                let df = file_of(t) - f;
                let dr = rank_of(t) - k;
                let i: int = if df == 1 && dr == 2 { 0 } else if df == 2 && dr == 1 { 1 } else if df == 2 && dr == -1 { 2 } else if df == 1 && dr == -2 { 3 } else if df == -1 && dr == -2 { 4 } else if df == -2 && dr == -1 { 5 } else if df == -2 && dr == 1 { 6 } else { 7 };
                assert(lands(f, k, o[i], t));
            }
        }
    }
    r
}

/// The squares a king on `sq` attacks.
pub fn king_attacks(sq: Sq) -> (r: u64)
    ensures
        r == leap_bb(file_of(sq.idx()), rank_of(sq.idx()), king_offsets()),
        forall|t: int| 0 <= t < 64 ==> (bit(r, t) <==> king_step(sq.idx(), t)),
{
    let offs: [(i8, i8); 8] = [(0, 1), (1, 1), (1, 0), (1, -1), (0, -1), (-1, -1), (-1, 0), (-1, 1)];
    assert(offs@ == king_offsets());
    let r = leaper_attacks(sq, &offs);
    proof {
        let f = file_of(sq.idx());
        let k = rank_of(sq.idx());
        let o = king_offsets();
        assert forall|t: int| 0 <= t < 64 implies (bit(r, t) <==> king_step(sq.idx(), t)) by {
            lemma_leap_bits(f, k, o, t);
            if king_step(sq.idx(), t) {
                let df = file_of(t) - f;
                let dr = rank_of(t) - k;
                let i: int = if df == 0 && dr == 1 { 0 } else if df == 1 && dr == 1 { 1 } else if df == 1 && dr == 0 { 2 } else if df == 1 && dr == -1 { 3 } else if df == 0 && dr == -1 { 4 } else if df == -1 && dr == -1 { 5 } else if df == -1 && dr == 0 { 6 } else { 7 };
                assert(lands(f, k, o[i], t));
            }
        }
    }
    r
}

/// The squares a pawn of `color` on `sq` attacks.
pub fn pawn_attacks(sq: Sq, color: Color) -> (r: u64)
    ensures
        r == leap_bb(file_of(sq.idx()), rank_of(sq.idx()), pawn_offsets(color)),
        forall|t: int| 0 <= t < 64 ==> (bit(r, t) <==> pawn_hit(sq.idx(), color, t)),
{
    let r = if color == Color::White {
        let offs: [(i8, i8); 2] = [(-1, 1), (1, 1)];
        assert(offs@ == pawn_offsets(color));
        leaper_attacks(sq, &offs)
    } else {
        let offs: [(i8, i8); 2] = [(-1, -1), (1, -1)];
        assert(offs@ == pawn_offsets(color));
        leaper_attacks(sq, &offs)
    };
    proof {
        let f = file_of(sq.idx());
        let k = rank_of(sq.idx());
        let o = pawn_offsets(color);
        assert forall|t: int| 0 <= t < 64 implies (bit(r, t) <==> pawn_hit(sq.idx(), color, t)) by {
            lemma_leap_bits(f, k, o, t);
            if pawn_hit(sq.idx(), color, t) {
                let df = file_of(t) - f;
                let i: int = if df == -1 { 0 } else { 1 };
                assert(lands(f, k, o[i], t));
            }
        }
    }
    r
}

/// The squares a bishop on `sq` would reach on an empty board.
pub fn bishop_xray_attacks(sq: Sq) -> (r: u64)
    ensures
        r == bishop_rays(sq.idx(), 0),
{
    bb_bishop_attacks(sq, 0)
}

/// The squares a rook on `sq` would reach on an empty board.
pub fn rook_xray_attacks(sq: Sq) -> (r: u64)
    ensures
        r == rook_rays(sq.idx(), 0),
{
    bb_rook_attacks(sq, 0)
}

/// The squares a bishop on `sq` attacks with `blockers` occupied.
pub fn bishop_attacks(sq: Sq, blockers: u64) -> (r: u64)
    ensures
        r == bishop_rays(sq.idx(), blockers),
{
    bb_bishop_attacks(sq, blockers)
}

/// The squares a rook on `sq` attacks with `blockers` occupied.
pub fn rook_attacks(sq: Sq, blockers: u64) -> (r: u64)
    ensures
        r == rook_rays(sq.idx(), blockers),
{
    bb_rook_attacks(sq, blockers)
}

/// The squares a queen on `sq` attacks with `blockers` occupied.
pub fn queen_attacks(sq: Sq, blockers: u64) -> (r: u64)
    ensures
        r == bishop_rays(sq.idx(), blockers) | rook_rays(sq.idx(), blockers),
{
    bishop_attacks(sq, blockers) | rook_attacks(sq, blockers)
}

/// The squares that `piece` of `color` on `sq` attacks with `blockers` occupied.
pub open spec fn spec_piece_attack(piece: Piece, sq: Sq, color: Color, blockers: u64) -> u64 {
    match piece {
        Piece::Pawn => leap_bb(file_of(sq.idx()), rank_of(sq.idx()), pawn_offsets(color)),
        Piece::Knight => leap_bb(file_of(sq.idx()), rank_of(sq.idx()), knight_offsets()),
        Piece::Bishop => bishop_rays(sq.idx(), blockers),
        Piece::Rook => rook_rays(sq.idx(), blockers),
        Piece::Queen => bishop_rays(sq.idx(), blockers) | rook_rays(sq.idx(), blockers),
        Piece::King => leap_bb(file_of(sq.idx()), rank_of(sq.idx()), king_offsets()),
    }
}

/// The squares that `piece` of `color` on `sq` attacks with `blockers` occupied.
pub fn piece_attack(piece: Piece, sq: Sq, color: Color, blockers: u64) -> (r: u64)
    ensures
        r == spec_piece_attack(piece, sq, color, blockers),
{
    match piece {
        Piece::Pawn => pawn_attacks(sq, color),
        Piece::Knight => knight_attacks(sq),
        Piece::Bishop => bishop_attacks(sq, blockers),
        Piece::Rook => rook_attacks(sq, blockers),
        Piece::Queen => queen_attacks(sq, blockers),
        Piece::King => king_attacks(sq),
    }
}

} // verus!
