use vstd::prelude::*;

verus! {

/// The eight compass directions on the board; North is towards rank 8, East towards file H.
#[derive(Copy, Clone, Debug, PartialEq, Eq, Structural)]
pub enum Dir {
    North,
    South,
    East,
    West,
    NorthEast,
    NorthWest,
    SouthEast,
    SouthWest,
}

/// Number of directions.
pub const DIR_NB: usize = 8;

impl Dir {
    /// File change of one step in this direction.
    pub open spec fn df(self) -> int {
        match self {
            Dir::North | Dir::South => 0,
            Dir::East | Dir::NorthEast | Dir::SouthEast => 1,
            Dir::West | Dir::NorthWest | Dir::SouthWest => -1,
        }
    }

    /// Rank change of one step in this direction.
    pub open spec fn dr(self) -> int {
        match self {
            Dir::East | Dir::West => 0,
            Dir::North | Dir::NorthEast | Dir::NorthWest => 1,
            Dir::South | Dir::SouthEast | Dir::SouthWest => -1,
        }
    }

    /// Change of the square index for one step in this direction.
    pub open spec fn offset(self) -> int {
        self.dr() * 8 + self.df()
    }

    /// The direction pointing the other way.
    pub open spec fn spec_opposite(self) -> Dir {
        match self {
            Dir::North => Dir::South,
            Dir::South => Dir::North,
            Dir::East => Dir::West,
            Dir::West => Dir::East,
            Dir::NorthEast => Dir::SouthWest,
            Dir::NorthWest => Dir::SouthEast,
            Dir::SouthEast => Dir::NorthWest,
            Dir::SouthWest => Dir::NorthEast,
        }
    }

    /// The direction pointing the other way.
    pub fn opposite(self) -> (r: Dir)
        ensures
            r == self.spec_opposite(),
            r.df() == -self.df(),
            r.dr() == -self.dr(),
    {
        match self {
            Dir::North => Dir::South,
            Dir::South => Dir::North,
            Dir::East => Dir::West,
            Dir::West => Dir::East,
            Dir::NorthEast => Dir::SouthWest,
            Dir::NorthWest => Dir::SouthEast,
            Dir::SouthEast => Dir::NorthWest,
            Dir::SouthWest => Dir::NorthEast,
        }
    }

    /// The direction pointing the other way (older spelling kept for callers).
    pub fn oppsite(self) -> (r: Dir)
        ensures
            r == self.spec_opposite(),
    {
        self.opposite()
    }

    /// Whether a step in this direction increases the square index.
    pub fn is_forwards(self) -> (r: bool)
        ensures
            r == (self.offset() > 0),
    {
        match self {
            Dir::North | Dir::East | Dir::NorthWest | Dir::NorthEast => true,
            Dir::South | Dir::West | Dir::SouthEast | Dir::SouthWest => false,
        }
    }
}

/// Turning around twice restores a direction, and never yields the same direction.
pub proof fn lemma_opposite_involutive(d: Dir)
    ensures
        d.spec_opposite().spec_opposite() == d,
        d.spec_opposite() != d,
        d.spec_opposite().offset() == -d.offset(),
{
}

} // verus!
