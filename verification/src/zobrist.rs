use crate::castling::CastlingRights;
use crate::color::Color;
use crate::piece::{ColoredPiece, Piece};
use crate::prng::{nth_output, output_of, state_after, xorshift, Prng, PRNG_SEED};
use crate::square::{file_of, Sq};
use vstd::prelude::*;

verus! {

/// Number of keys: one per (square, piece kind, color), one for the side to move, sixteen
/// for the castling-rights sets and eight for the en-passant files.
pub const ZOBRIST_KEY_COUNT: usize = 793;

/// Position in the key sequence of the key for `piece` standing on square index `sq`.
pub open spec fn piece_key_index(sq: int, piece: ColoredPiece) -> nat {
    ((sq * 6 + piece.kind() as u8 as int) * 2 + piece.side() as u8 as int) as nat
}

/// The key of `piece` on square index `sq`.
pub open spec fn piece_key(sq: int, piece: ColoredPiece) -> u64 {
    nth_output(piece_key_index(sq, piece))
}

/// The key that toggles the side to move.
pub open spec fn side_key() -> u64 {
    nth_output(768)
}

/// The key of a castling-rights set.
pub open spec fn castling_key(rights: u8) -> u64 {
    nth_output((769 + rights) as nat)
}

/// The key of an en-passant target on file `file`.
pub open spec fn en_passant_key(file: int) -> u64 {
    nth_output((785 + file) as nat)
}

/// The `k`-th output of a generator started from the fixed seed.
pub fn nth_random(k: u32) -> (r: u64)
    requires
        k < 1000,
    ensures
        r == nth_output(k as nat),
{
    let mut g = Prng::new();
    let mut i: u32 = 0;
    let mut v: u64 = g.random();
    assert(state_after(PRNG_SEED, 1) == xorshift(state_after(PRNG_SEED, 0)));
    while i < k
        invariant
            i <= k,
            g.seed == state_after(PRNG_SEED, (i + 1) as nat),
            v == output_of(g.seed),
        decreases k - i,
    {
        v = g.random();
        i += 1;
    }
    v
}

/// The key of `piece` on `sq`.
pub fn zobrist_piece(sq: Sq, piece: ColoredPiece) -> (r: u64)
    ensures
        r == piece_key(sq.idx(), piece),
{
    let k = ((sq as u32) * 6 + piece.piece() as u32) * 2 + piece.color() as u32;
    nth_random(k)
}

/// The side-to-move key.
pub fn zobrist_side() -> (r: u64)
    ensures
        r == side_key(),
{
    nth_random(768)
}

/// The key of a castling-rights set (only the low four bits are rights).
pub fn zobrist_castling(rights: CastlingRights) -> (r: u64)
    requires
        rights.0 < 16,
    ensures
        r == castling_key(rights.0),
{
    nth_random(769 + rights.0 as u32)
}

/// The key of an en-passant target square (it depends on the file only).
pub fn zobrist_en_passant(sq: Sq) -> (r: u64)
    ensures
        r == en_passant_key(file_of(sq.idx())),
{
    nth_random(785 + sq.file() as u32)
}

/// All Zobrist keys, computed once.
pub struct ZobristKeys {
    keys: Vec<u64>,
}

impl ZobristKeys {
    /// Whether the table holds the full key sequence.
    pub closed spec fn wf(&self) -> bool {
        self.keys.len() == 793 && forall|j: int| 0 <= j < 793 ==> self.keys[j] == nth_output(j as nat)
    }

    /// Generates every key from the fixed-seed generator.
    pub fn new() -> (r: Self)
        ensures
            r.wf(),
    {
        let mut g = Prng::new();
        let keys = g.random_array(ZOBRIST_KEY_COUNT);
        ZobristKeys { keys }
    }

    /// The key of `piece` on `sq`.
    pub fn piece(&self, sq: Sq, piece: ColoredPiece) -> (r: u64)
        requires
            self.wf(),
        ensures
            r == piece_key(sq.idx(), piece),
    {
        let k = ((sq as usize) * 6 + piece.piece() as usize) * 2 + piece.color() as usize;
        self.keys[k]
    }

    /// The side-to-move key.
    pub fn side(&self) -> (r: u64)
        requires
            self.wf(),
        ensures
            r == side_key(),
    {
        self.keys[768]
    }

    /// The key of a castling-rights set.
    pub fn castling(&self, rights: CastlingRights) -> (r: u64)
        requires
            self.wf(),
            rights.0 < 16,
        ensures
            r == castling_key(rights.0),
    {
        self.keys[769 + rights.0 as usize]
    }

    /// The key of an en-passant target square.
    pub fn en_passant(&self, sq: Sq) -> (r: u64)
        requires
            self.wf(),
        ensures
            r == en_passant_key(file_of(sq.idx())),
    {
        self.keys[785 + sq.file() as usize]
    }
}

} // verus!
