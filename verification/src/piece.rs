use crate::color::Color;
use vstd::prelude::*;

verus! {

/// The six kinds of chess pieces, in increasing order of value.
#[derive(Copy, Clone, Debug, PartialEq, Eq, Structural)]
pub enum Piece {
    Pawn,
    Knight,
    Bishop,
    Rook,
    Queen,
    King,
}

/// Number of piece kinds.
pub const PIECE_NB: usize = 6;

/// Another name for [`Piece`], as some callers spell it.
pub type Pieces = Piece;

impl Piece {
    /// The piece kind with index `i` (0 = pawn, ..., 5 = king).
    pub fn from_index(i: usize) -> (r: Piece)
        requires
            i < 6,
        ensures
            r as u8 == i,
    {
        match i {
            0 => Piece::Pawn,
            1 => Piece::Knight,
            2 => Piece::Bishop,
            3 => Piece::Rook,
            4 => Piece::Queen,
            _ => Piece::King,
        }
    }
}

/// A piece of a given color.
#[derive(Copy, Clone, Debug, PartialEq, Eq, Structural)]
pub struct ColoredPiece {
    pub piece: Piece,
    pub color: Color,
}

impl ColoredPiece {
    /// The kind of this piece.
    pub open spec fn kind(self) -> Piece {
        self.piece
    }

    /// The color of this piece.
    pub open spec fn side(self) -> Color {
        self.color
    }

    /// A piece of kind `piece` and color `color`.
    pub fn new(piece: Piece, color: Color) -> (r: Self)
        ensures
            r.kind() == piece,
            r.side() == color,
    {
        ColoredPiece { piece, color }
    }

    /// The kind of this piece.
    pub fn piece(self) -> (r: Piece)
        ensures
            r == self.kind(),
    {
        self.piece
    }

    /// The color of this piece.
    pub fn color(self) -> (r: Color)
        ensures
            r == self.side(),
    {
        self.color
    }

    /// Reads a FEN piece letter: upper case is White, lower case is Black.
    pub fn parse(val: char) -> (r: Option<Self>)
        ensures
            r == spec_parse_piece(val),
    {
        let piece = match val {
            'P' | 'p' => Piece::Pawn,
            'R' | 'r' => Piece::Rook,
            'N' | 'n' => Piece::Knight,
            'B' | 'b' => Piece::Bishop,
            'Q' | 'q' => Piece::Queen,
            'K' | 'k' => Piece::King,
            _ => return None,
        };
        let color = match val {
            'P' | 'R' | 'N' | 'B' | 'Q' | 'K' => Color::White,
            _ => Color::Black,
        };
        Some(Self::new(piece, color))
    }

    /// The FEN letter of this piece: upper case for White, lower case for Black.
    pub fn to_char(self) -> (r: char)
        ensures
            spec_parse_piece(r) == Some(self),
            r == piece_letter(self),
    {
        match (self.piece, self.color) {
            (Piece::Pawn, Color::White) => 'P',
            (Piece::Knight, Color::White) => 'N',
            (Piece::Bishop, Color::White) => 'B',
            (Piece::Rook, Color::White) => 'R',
            (Piece::Queen, Color::White) => 'Q',
            (Piece::King, Color::White) => 'K',
            (Piece::Pawn, Color::Black) => 'p',
            (Piece::Knight, Color::Black) => 'n',
            (Piece::Bishop, Color::Black) => 'b',
            (Piece::Rook, Color::Black) => 'r',
            (Piece::Queen, Color::Black) => 'q',
            (Piece::King, Color::Black) => 'k',
        }
    }
}

/// The FEN letter of a piece: upper case for White, lower case for Black.
pub open spec fn piece_letter(p: ColoredPiece) -> char {
    match (p.piece, p.color) {
        (Piece::Pawn, Color::White) => 'P',
        (Piece::Knight, Color::White) => 'N',
        (Piece::Bishop, Color::White) => 'B',
        (Piece::Rook, Color::White) => 'R',
        (Piece::Queen, Color::White) => 'Q',
        (Piece::King, Color::White) => 'K',
        (Piece::Pawn, Color::Black) => 'p',
        (Piece::Knight, Color::Black) => 'n',
        (Piece::Bishop, Color::Black) => 'b',
        (Piece::Rook, Color::Black) => 'r',
        (Piece::Queen, Color::Black) => 'q',
        (Piece::King, Color::Black) => 'k',
    }
}

/// The piece that a FEN letter names, if any.
pub open spec fn spec_parse_piece(c: char) -> Option<ColoredPiece> {
    let white = c == 'P' || c == 'N' || c == 'B' || c == 'R' || c == 'Q' || c == 'K';
    let black = c == 'p' || c == 'n' || c == 'b' || c == 'r' || c == 'q' || c == 'k';
    if !(white || black) {
        None
    } else {
        let kind = if c == 'P' || c == 'p' {
            Piece::Pawn
        } else if c == 'N' || c == 'n' {
            Piece::Knight
        } else if c == 'B' || c == 'b' {
            Piece::Bishop
        } else if c == 'R' || c == 'r' {
            Piece::Rook
        } else if c == 'Q' || c == 'q' {
            Piece::Queen
        } else {
            Piece::King
        };
        Some(ColoredPiece { piece: kind, color: if white { Color::White } else { Color::Black } })
    }
}

} // verus!
