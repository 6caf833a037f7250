use crate::color::Color;
use crate::piece::ColoredPiece;
use crate::square::{file_of, rank_of, Sq};
use vstd::prelude::*;

verus! {

/// King buckets of the input layer.
pub const INPUT_BUCKETS: usize = 4;

/// Input features per bucket: one per (perspective-relative color, piece kind, square).
pub const FEATURES_PER_BUCKET: usize = 768;

/// Width of the hidden layer.
pub const HIDDEN_SIZE: usize = 1536;

/// Output buckets, chosen by the number of pieces.
pub const OUTPUT_BUCKETS: usize = 8;

/// The bucket of a king on each square of the queen-side half of the board (four files
/// by eight ranks, seen from its own side): its home corner, its home centre, the
/// midfield, and the enemy half.
pub const BUCKET_LAYOUT: [usize; 32] = [
    0, 0, 0, 1,
    0, 0, 0, 1,
    2, 2, 2, 2,
    2, 2, 2, 2,
    3, 3, 3, 3,
    3, 3, 3, 3,
    3, 3, 3, 3,
    3, 3, 3, 3,
];

/// The weights of the evaluation network: per bucket and input feature a hidden-layer
/// column, the hidden biases, and per output bucket the output weights (both
/// perspectives) and bias.
pub struct Network {
    pub feature_weights: Vec<i16>,
    pub feature_biases: Vec<i16>,
    pub output_weights: Vec<i16>,
    pub output_bias: Vec<i16>,
}

/// The square index `s` seen from `perspective`: mirrored rank-wise for Black.
pub open spec fn oriented(perspective: Color, s: int) -> int {
    if perspective == Color::White {
        s
    } else {
        (7 - rank_of(s)) * 8 + file_of(s)
    }
}

/// The king bucket of `perspective`'s king on square index `s`, and the mirror (7 for a
/// king on the king side, which is mirrored file-wise onto the queen side; 0 otherwise).
pub open spec fn spec_king_bucket(perspective: Color, s: int) -> (usize, u8) {
    let k = oriented(perspective, s);
    let flip: u8 = if file_of(k) > 3 { 7 } else { 0 };
    let f = if file_of(k) > 3 { 7 - file_of(k) } else { file_of(k) };
    (BUCKET_LAYOUT[rank_of(k) * 4 + f], flip)
}

/// The input feature of `piece` on square index `s` for `perspective`, with mirror
/// `flip`: own pieces first, then by kind, then by (mirrored) square.
pub open spec fn spec_feature_index(perspective: Color, piece: ColoredPiece, s: int, flip: u8) -> int {
    (if piece.color == perspective { 0int } else { 384int }) + piece.piece as u8 as int * 64 + (
    oriented(perspective, s) as u8 ^ flip) as int
}

impl Network {
    /// The king bucket and mirror for `perspective`'s king on `king_sq` (see
    /// [`spec_king_bucket`]).
    pub fn king_bucket_and_flip(perspective: Color, king_sq: Sq) -> (r: (usize, u8))
        ensures
            r == spec_king_bucket(perspective, king_sq.idx()),
            r.0 < INPUT_BUCKETS,
    {
        let sq = if perspective == Color::White {
            king_sq
        } else {
            king_sq.flip_vertical()
        };
        let file = sq.file();
        let rank = sq.rank();
        let flip: u8 = if file > 3 {
            7
        } else {
            0
        };
        let f = file ^ flip;
        assert(f < 4 && (file > 3 ==> f == 7 - file) && (file <= 3 ==> f == file)) by (bit_vector)
            requires
                file < 8,
                file > 3 ==> flip == 7,
                file <= 3 ==> flip == 0,
                f == file ^ flip,
        ;
        let index = rank * 4 + f;
        assert(index < 32);
        let b = BUCKET_LAYOUT[index as usize];
        assert(b < 4) by {
            assert(forall|i: int| 0 <= i < 32 ==> #[trigger] BUCKET_LAYOUT[i] < 4);
        }
        (b, flip)
    }

    /// The input feature of `piece` on `sq` for `perspective`, with mirror `flip` (see
    /// [`spec_feature_index`]).
    pub fn feature_index(perspective: Color, piece: ColoredPiece, sq: Sq, flip: u8) -> (r: usize)
        requires
            flip == 0 || flip == 7,
        ensures
            r == spec_feature_index(perspective, piece, sq.idx(), flip),
            r < FEATURES_PER_BUCKET,
    {
        let color_bit: usize = if piece.color() == perspective {
            0
        } else {
            1
        };
        let oriented_sq = if perspective == Color::White {
            sq
        } else {
            sq.flip_vertical()
        };
        let o = oriented_sq as u8;
        let x = o ^ flip;
        assert(x < 64) by (bit_vector)
            requires
                o < 64,
                flip == 0 || flip == 7,
                x == o ^ flip,
        ;
        color_bit * 384 + piece.piece() as usize * 64 + x as usize
    }

    /// The output bucket for a position with `piece_count` pieces: one bucket per four
    /// pieces beyond the two kings.
    pub fn bucket_index(piece_count: usize) -> (r: usize)
        requires
            2 <= piece_count <= 33,
        ensures
            r == (piece_count - 2) / 4,
            r < OUTPUT_BUCKETS,
    {
        (piece_count - 2) / 4
    }
}

} // verus!
