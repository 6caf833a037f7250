use crate::dir::Dir;
use vstd::prelude::*;

verus! {

/// The two sides of a chess game.
#[derive(Copy, Clone, Debug, PartialEq, Eq, Structural, Default)]
pub enum Color {
    #[default]
    Black,
    White,
}

/// Number of colors.
pub const COLOR_NB: usize = 2;

/// The side that is not `c`.
pub open spec fn opponent(c: Color) -> Color {
    match c {
        Color::Black => Color::White,
        Color::White => Color::Black,
    }
}

impl Color {
    /// `true` for White, `false` for Black.
    pub fn as_bool(self) -> (r: bool)
        ensures
            r == (self == Color::White),
    {
        self as u8 != 0
    }

    /// The direction in which this side's pawns advance.
    pub fn forward(self) -> (r: Dir)
        ensures
            self == Color::White ==> r == Dir::North,
            self == Color::Black ==> r == Dir::South,
    {
        match self {
            Color::White => Dir::North,
            Color::Black => Dir::South,
        }
    }

    /// The direction opposite to this side's pawn advance.
    pub fn backward(self) -> (r: Dir)
        ensures
            self == Color::White ==> r == Dir::South,
            self == Color::Black ==> r == Dir::North,
    {
        match self {
            Color::White => Dir::South,
            Color::Black => Dir::North,
        }
    }

    /// The other side.
    pub fn not(self) -> (r: Color)
        ensures
            r == opponent(self),
    {
        match self {
            Color::Black => Color::White,
            Color::White => Color::Black,
        }
    }

    /// White for `true`, Black for `false`.
    pub fn from_bool(value: bool) -> (r: Color)
        ensures
            r == (if value { Color::White } else { Color::Black }),
    {
        if value {
            Color::White
        } else {
            Color::Black
        }
    }
}

/// Swapping sides twice gives back the side one started with.
pub proof fn lemma_opponent_involutive(c: Color)
    ensures
        opponent(opponent(c)) == c,
        opponent(c) != c,
{
}

/// A side known at compile time.
pub trait Player {
    /// The color this side plays, in specifications.
    spec fn side() -> Color;

    /// The color this side plays.
    fn color() -> (r: Color)
        ensures
            r == Self::side(),
    ;
}

/// The white side as a type.
#[derive(Copy, Clone, Debug, PartialEq, Eq, Default)]
pub struct White;

impl Player for White {
    open spec fn side() -> Color {
        Color::White
    }

    fn color() -> (r: Color) {
        Color::White
    }
}

/// The black side as a type.
#[derive(Copy, Clone, Debug, PartialEq, Eq, Default)]
pub struct Black;

impl Player for Black {
    open spec fn side() -> Color {
        Color::Black
    }

    fn color() -> (r: Color) {
        Color::Black
    }
}

} // verus!
