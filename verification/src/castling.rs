use crate::square::Sq;
use vstd::prelude::*;

verus! {

/// White may castle king side.
pub const WHITE_00: u8 = 1;
/// White may castle queen side.
pub const WHITE_000: u8 = 2;
/// Black may castle king side.
pub const BLACK_00: u8 = 4;
/// Black may castle queen side.
pub const BLACK_000: u8 = 8;
/// Both white rights.
pub const WHITE_ANY: u8 = 3;
/// Both black rights.
pub const BLACK_ANY: u8 = 12;
/// All four rights.
pub const ALL_RIGHTS: u8 = 15;

/// The castling rights still available, one bit per right (see the constants above).
#[derive(Copy, Clone, Debug, PartialEq, Eq, Structural, Default)]
pub struct CastlingRights(pub u8);

/// The rights that survive a move touching square `s`: moving from or to a king's or rook's
/// home square removes the rights that depend on it.
pub open spec fn square_mask(s: int) -> u8 {
    if s == 0 {
        13u8
    } else if s == 4 {
        12u8
    } else if s == 7 {
        14u8
    } else if s == 56 {
        7u8
    } else if s == 60 {
        3u8
    } else if s == 63 {
        11u8
    } else {
        15u8
    }
}

/// The rights that survive a move touching square `sq`.
pub fn rights_mask(sq: Sq) -> (r: u8)
    ensures
        r == square_mask(sq.idx()),
{
    match sq {
        Sq::A1 => 13,
        Sq::E1 => 12,
        Sq::H1 => 14,
        Sq::A8 => 7,
        Sq::E8 => 3,
        Sq::H8 => 11,
        _ => 15,
    }
}

impl CastlingRights {
    /// No rights at all.
    pub fn empty() -> (r: Self)
        ensures
            r.0 == 0,
    {
        CastlingRights(0)
    }

    /// All four rights.
    pub fn all() -> (r: Self)
        ensures
            r.0 == 15,
    {
        CastlingRights(ALL_RIGHTS)
    }

    /// The rights as bits.
    pub fn bits(self) -> (r: u8)
        ensures
            r == self.0,
    {
        self.0
    }

    /// Whether every right in `flags` is present.
    pub fn contains(self, flags: u8) -> (r: bool)
        ensures
            r == (self.0 & flags == flags),
    {
        self.0 & flags == flags
    }

    /// These rights with those of `flags` added.
    pub fn with(self, flags: u8) -> (r: Self)
        ensures
            r.0 == self.0 | flags,
    {
        CastlingRights(self.0 | flags)
    }

    /// The rights present in both.
    pub fn intersection(self, other: Self) -> (r: Self)
        ensures
            r.0 == self.0 & other.0,
    {
        CastlingRights(self.0 & other.0)
    }

    /// The rights that survive a move travelling from `from` to `to`: AND them with the
    /// current rights to clear those the move invalidates.
    pub fn mask_for_move(from: Sq, to: Sq) -> (r: CastlingRights)
        ensures
            r.0 == square_mask(from.idx()) & square_mask(to.idx()),
    {
        CastlingRights(rights_mask(from) & rights_mask(to))
    }
}

proof fn lemma_mask_bv(a: u8, b: u8, c: u8)
    by (bit_vector)
    ensures
        (a & b) & c == a & (b & c),
        (a & b) & b == a & b,
        a & 15u8 <= 15u8,
{
}

/// Rights never come back: applying a move's mask twice removes nothing more, and the
/// rights after a move are a subset of those before.
pub proof fn lemma_mask_monotone(rights: u8, from: int, to: int)
    ensures
        (rights & (square_mask(from) & square_mask(to))) & (square_mask(from) & square_mask(to))
            == rights & (square_mask(from) & square_mask(to)),
        (rights & (square_mask(from) & square_mask(to))) & rights == rights & (square_mask(from)
            & square_mask(to)),
{
    let m = square_mask(from) & square_mask(to);
    lemma_mask_bv(rights, m, m);
    assert((rights & m) & rights == rights & m) by (bit_vector);
}

} // verus!
