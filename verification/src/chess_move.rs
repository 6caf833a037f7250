use crate::color::Color;
use crate::piece::Piece;
use crate::square::{file_of, rank_of, Sq};
use vstd::prelude::*;

verus! {

/// The kind of a move, stored in the top four bits of a [`Move`].
#[derive(Copy, Clone, Debug, PartialEq, Eq, Structural, Default)]
pub enum MoveFlags {
    #[default]
    Quiet,
    DoublePawn,
    CastleKing,
    CastleQueen,
    Capture,
    EnPassant,
    PromoKnight,
    PromoBishop,
    PromoRook,
    PromoQueen,
    PromoCaptureKnight,
    PromoCaptureBishop,
    PromoCaptureRook,
    PromoCaptureQueen,
}

impl MoveFlags {
    /// The four-bit code of this kind: bit 2 marks a capture, bit 3 a promotion.
    pub open spec fn code(self) -> u16 {
        match self {
            MoveFlags::Quiet => 0,
            MoveFlags::DoublePawn => 1,
            MoveFlags::CastleKing => 2,
            MoveFlags::CastleQueen => 3,
            MoveFlags::Capture => 4,
            MoveFlags::EnPassant => 5,
            MoveFlags::PromoKnight => 8,
            MoveFlags::PromoBishop => 9,
            MoveFlags::PromoRook => 10,
            MoveFlags::PromoQueen => 11,
            MoveFlags::PromoCaptureKnight => 12,
            MoveFlags::PromoCaptureBishop => 13,
            MoveFlags::PromoCaptureRook => 14,
            MoveFlags::PromoCaptureQueen => 15,
        }
    }

    /// The four-bit code of this kind.
    pub fn bits(self) -> (r: u16)
        ensures
            r == self.code(),
            r < 16,
            r != 6 && r != 7,
    {
        match self {
            MoveFlags::Quiet => 0,
            MoveFlags::DoublePawn => 1,
            MoveFlags::CastleKing => 2,
            MoveFlags::CastleQueen => 3,
            MoveFlags::Capture => 4,
            MoveFlags::EnPassant => 5,
            MoveFlags::PromoKnight => 8,
            MoveFlags::PromoBishop => 9,
            MoveFlags::PromoRook => 10,
            MoveFlags::PromoQueen => 11,
            MoveFlags::PromoCaptureKnight => 12,
            MoveFlags::PromoCaptureBishop => 13,
            MoveFlags::PromoCaptureRook => 14,
            MoveFlags::PromoCaptureQueen => 15,
        }
    }

    /// The kind with four-bit code `code`; codes 6, 7 and above 15 name no kind.
    pub fn from_code(code: u16) -> (r: Option<MoveFlags>)
        ensures
            r is Some <==> (code < 16 && code != 6 && code != 7),
            r matches Some(f) ==> f.code() == code,
    {
        match code {
            0 => Some(MoveFlags::Quiet),
            1 => Some(MoveFlags::DoublePawn),
            2 => Some(MoveFlags::CastleKing),
            3 => Some(MoveFlags::CastleQueen),
            4 => Some(MoveFlags::Capture),
            5 => Some(MoveFlags::EnPassant),
            8 => Some(MoveFlags::PromoKnight),
            9 => Some(MoveFlags::PromoBishop),
            10 => Some(MoveFlags::PromoRook),
            11 => Some(MoveFlags::PromoQueen),
            12 => Some(MoveFlags::PromoCaptureKnight),
            13 => Some(MoveFlags::PromoCaptureBishop),
            14 => Some(MoveFlags::PromoCaptureRook),
            15 => Some(MoveFlags::PromoCaptureQueen),
            _ => None,
        }
    }

    /// Where the rook starts and ends for a castling move of `color`: king side for
    /// `CastleKing`, queen side for every other kind.
    pub open spec fn spec_castling_rook_squares(self, color: Color) -> (Sq, Sq) {
        match (color, self) {
            (Color::White, MoveFlags::CastleKing) => (Sq::H1, Sq::F1),
            (Color::White, _) => (Sq::A1, Sq::D1),
            (Color::Black, MoveFlags::CastleKing) => (Sq::H8, Sq::F8),
            (Color::Black, _) => (Sq::A8, Sq::D8),
        }
    }

    /// Where the rook starts and ends for a castling move of `color`.
    pub fn castling_rook_squares(self, color: Color) -> (r: (Sq, Sq))
        ensures
            r == self.spec_castling_rook_squares(color),
    {
        match (color, self) {
            (Color::White, MoveFlags::CastleKing) => (Sq::H1, Sq::F1),
            (Color::White, _) => (Sq::A1, Sq::D1),
            (Color::Black, MoveFlags::CastleKing) => (Sq::H8, Sq::F8),
            (Color::Black, _) => (Sq::A8, Sq::D8),
        }
    }

    /// Whether an en-passant move of `color` landing on `to` has a square behind it.
    pub open spec fn capture_square_ok(self, to: Sq, color: Color) -> bool {
        self == MoveFlags::EnPassant ==> (if color == Color::White {
            rank_of(to.idx()) > 0
        } else {
            rank_of(to.idx()) < 7
        })
    }

    /// Index of the square whose piece a move of this kind landing on `to` takes: the
    /// square behind `to` for en passant, `to` itself otherwise.
    pub open spec fn spec_capture_square(self, to: Sq, color: Color) -> int {
        if self == MoveFlags::EnPassant {
            if color == Color::White {
                to.idx() - 8
            } else {
                to.idx() + 8
            }
        } else {
            to.idx()
        }
    }

    /// The square whose piece a move of this kind landing on `to` takes.
    pub fn capture_square(self, to: Sq, color: Color) -> (r: Sq)
        requires
            self.capture_square_ok(to, color),
        ensures
            r.idx() == self.spec_capture_square(to, color),
    {
        match self {
            MoveFlags::EnPassant => to.shift(color.backward()),
            _ => to,
        }
    }
}

/// A move packed in 16 bits: origin square in bits 0-5, target square in bits 6-11 and
/// the [`MoveFlags`] code in bits 12-15. The all-zero value is "no move".
#[derive(Copy, Clone, Debug, PartialEq, Eq, Structural, Hash, Default)]
pub struct Move(pub u16);

/// The absent move.
pub open spec fn move_none() -> Move {
    Move(0)
}

impl Move {
    /// Index of the origin square.
    pub open spec fn from_idx(self) -> int {
        (self.0 & 63) as int
    }

    /// Index of the target square.
    pub open spec fn to_idx(self) -> int {
        ((self.0 >> 6u16) & 63) as int
    }

    /// The flag code.
    pub open spec fn code(self) -> u16 {
        self.0 >> 12u16
    }

    /// Whether the flag code names a move kind.
    pub open spec fn wf(self) -> bool {
        self.code() != 6 && self.code() != 7
    }

    /// Whether the code marks a capture.
    pub open spec fn spec_is_capture(self) -> bool {
        self.code() & 4 != 0
    }

    /// Whether the code marks a promotion.
    pub open spec fn spec_is_promotion(self) -> bool {
        self.code() & 8 != 0
    }

    /// Whether the code marks castling.
    pub open spec fn spec_is_castle(self) -> bool {
        !self.spec_is_promotion() && self.code() & 2 != 0
    }

    /// The piece a promotion turns the pawn into, chosen by the two low code bits.
    pub open spec fn spec_promotion_piece(self) -> Option<Piece> {
        if self.spec_is_promotion() {
            let low = self.code() & 3;
            Some(
                if low == 0 {
                    Piece::Knight
                } else if low == 1 {
                    Piece::Bishop
                } else if low == 2 {
                    Piece::Rook
                } else {
                    Piece::Queen
                },
            )
        } else {
            None
        }
    }

    /// The absent move.
    pub fn none() -> (r: Move)
        ensures
            r == move_none(),
    {
        Move(0)
    }

    /// Whether this is the absent move.
    pub fn is_none(self) -> (r: bool)
        ensures
            r == (self == move_none()),
    {
        self.0 == 0
    }

    /// Packs a move from `from` to `to` of kind `flags`.
    pub fn new(from: Sq, to: Sq, flags: MoveFlags) -> (r: Self)
        ensures
            r.0 == (from as u16) | ((to as u16) << 6u16) | (flags.code() << 12u16),
            r.from_idx() == from.idx(),
            r.to_idx() == to.idx(),
            r.code() == flags.code(),
            r.wf(),
    {
        let f = from as u16;
        let t = to as u16;
        let fl = flags.bits();
        proof {
            lemma_pack_bv(f, t, fl);
        }
        Move(f | (t << 6) | (fl << 12))
    }

    /// Packs a quiet move from `from` to `to`.
    pub fn new_quiet(from: Sq, to: Sq) -> (r: Self)
        ensures
            r == Move::spec_new(from, to, MoveFlags::Quiet),
            r.from_idx() == from.idx(),
            r.to_idx() == to.idx(),
            r.code() == 0,
    {
        Self::new(from, to, MoveFlags::Quiet)
    }

    /// The packed value of a move from `from` to `to` of kind `flags`.
    pub open spec fn spec_new(from: Sq, to: Sq, flags: MoveFlags) -> Move {
        Move((from as u16) | ((to as u16) << 6u16) | (flags.code() << 12u16))
    }

    /// The origin square.
    pub fn from(self) -> (r: Sq)
        ensures
            r.idx() == self.from_idx(),
    {
        proof {
            lemma_code_bound(self.0);
        }
        Sq::from_index((self.0 & 63) as u8)
    }

    /// The target square.
    pub fn to(self) -> (r: Sq)
        ensures
            r.idx() == self.to_idx(),
    {
        proof {
            lemma_code_bound(self.0);
        }
        Sq::from_index(((self.0 >> 6) & 63) as u8)
    }

    /// The kind of this move.
    pub fn flags(self) -> (r: MoveFlags)
        requires
            self.wf(),
        ensures
            r.code() == self.code(),
    {
        match MoveFlags::from_code(self.flags_bits()) {
            Some(f) => f,
            None => MoveFlags::Quiet,
        }
    }

    /// Where the rook starts and ends when this castling move is played by `color`.
    pub fn castling_rook_squares(self, color: Color) -> (r: (Sq, Sq))
        requires
            self.wf(),
        ensures
            r == (if self.code() == 2 {
                MoveFlags::CastleKing
            } else {
                MoveFlags::Quiet
            }).spec_castling_rook_squares(color),
    {
        self.flags().castling_rook_squares(color)
    }

    /// The square whose piece this move takes when played by `color`.
    pub fn capture_square(self, color: Color) -> (r: Sq)
        requires
            self.wf(),
            self.code() == 5 ==> (if color == Color::White {
                rank_of(self.to_idx()) > 0
            } else {
                rank_of(self.to_idx()) < 7
            }),
        ensures
            r.idx() == (if self.code() == 5 {
                if color == Color::White {
                    self.to_idx() - 8
                } else {
                    self.to_idx() + 8
                }
            } else {
                self.to_idx()
            }),
    {
        let f = self.flags();
        let to = self.to();
        f.capture_square(to, color)
    }

    /// Whether this move takes a piece.
    pub fn is_capture(self) -> (r: bool)
        ensures
            r == self.spec_is_capture(),
    {
        (self.flags_bits() & 0b0100) != 0
    }

    /// Whether this move promotes a pawn.
    pub fn is_promotion(self) -> (r: bool)
        ensures
            r == self.spec_is_promotion(),
    {
        (self.flags_bits() & 0b1000) != 0
    }

    /// Whether this move castles.
    pub fn is_castle(self) -> (r: bool)
        ensures
            r == self.spec_is_castle(),
    {
        !self.is_promotion() && (self.flags_bits() & 0b0010) != 0
    }

    /// Whether this move captures or promotes.
    pub fn is_tactical(self) -> (r: bool)
        ensures
            r == (self.spec_is_capture() || self.spec_is_promotion()),
    {
        self.is_capture() || self.is_promotion()
    }

    /// Whether this move neither captures nor promotes.
    pub fn is_quiet(self) -> (r: bool)
        ensures
            r == !(self.spec_is_capture() || self.spec_is_promotion()),
    {
        !self.is_tactical()
    }

    /// The piece this move promotes to, if it is a promotion.
    pub fn promotion_piece(self) -> (r: Option<Piece>)
        ensures
            r == self.spec_promotion_piece(),
    {
        if self.is_promotion() {
            let low = self.flags_bits() & 0b0011;
            if low == 0 {
                Some(Piece::Knight)
            } else if low == 1 {
                Some(Piece::Bishop)
            } else if low == 2 {
                Some(Piece::Rook)
            } else {
                Some(Piece::Queen)
            }
        } else {
            None
        }
    }

    /// The 16-bit encoding.
    pub fn bits(self) -> (r: u16)
        ensures
            r == self.0,
    {
        self.0
    }

    /// Decodes a 16-bit move; fails when the flag code is 6 or 7, which name no kind.
    pub fn from_bits(val: u16) -> (r: Option<Self>)
        ensures
            r is Some <==> Move(val).wf(),
            r matches Some(m) ==> m.0 == val,
    {
        let flags = val >> 12;
        if flags == 6 || flags == 7 {
            None
        } else {
            Some(Move(val))
        }
    }

    /// The flag code.
    pub fn flags_bits(self) -> (r: u16)
        ensures
            r == self.code(),
            r < 16,
    {
        proof {
            lemma_code_bound(self.0);
        }
        self.0 >> 12
    }
}

proof fn lemma_code_bound(v: u16)
    by (bit_vector)
    ensures
        v >> 12u16 < 16,
        v & 63 < 64,
        (v >> 6u16) & 63 < 64,
{
}

proof fn lemma_pack_bv(f: u16, t: u16, fl: u16)
    by (bit_vector)
    requires
        f < 64,
        t < 64,
        fl < 16,
    ensures
        (f | (t << 6u16) | (fl << 12u16)) & 63 == f,
        ((f | (t << 6u16) | (fl << 12u16)) >> 6u16) & 63 == t,
        (f | (t << 6u16) | (fl << 12u16)) >> 12u16 == fl,
{
}

/// Packing a move and reading its parts back gives the parts that went in; and a
/// well-formed move survives the trip through its 16-bit encoding.
pub proof fn lemma_move_roundtrip(from: Sq, to: Sq, flags: MoveFlags, m: Move)
    ensures
        Move::spec_new(from, to, flags).from_idx() == from.idx(),
        Move::spec_new(from, to, flags).to_idx() == to.idx(),
        Move::spec_new(from, to, flags).code() == flags.code(),
        Move::spec_new(from, to, flags).wf(),
        m.wf() ==> Move(m.0) == m,
{
    let f = from as u16;
    let t = to as u16;
    let fl = flags.code();
    lemma_pack_bv(f, t, fl);
}

proof fn lemma_code_classes_bv(c: u16)
    by (bit_vector)
    requires
        c < 16,
    ensures
        (c & 8 == 0 && c & 2 != 0 && c != 6 && c != 7) ==> (c & 4 == 0 && (c == 2 || c == 3)),
        (c == 5) ==> (c & 4 != 0 && c & 8 == 0 && c & 2 == 0),
        (c == 1) ==> (c & 4 == 0 && c & 8 == 0 && c & 2 == 0),
        (c == 0) ==> (c & 4 == 0 && c & 8 == 0 && c & 2 == 0),
        (c == 4) ==> (c & 4 != 0 && c & 8 == 0 && c & 2 == 0),
        c & 8 != 0 ==> c >= 8,
        c & 8 == 0 ==> c < 8,
        c & 4 != 0 && c & 8 == 0 ==> (c == 4 || c == 5 || c == 6 || c == 7),
        c & 3 < 4,
        c >= 8 ==> (c & 4 != 0 <==> c >= 12),
        (c == 2 || c == 3) ==> (c & 8 == 0 && c & 2 != 0 && c & 4 == 0),
        (c == 8 || c == 12) ==> c & 3 == 0,
        (c == 9 || c == 13) ==> c & 3 == 1,
        (c == 10 || c == 14) ==> c & 3 == 2,
        (c == 11 || c == 15) ==> c & 3 == 3,
{
}

/// The absent move has flag code 0.
pub(crate) proof fn lemma_none_code()
    ensures
        move_none().code() == 0,
{
    assert(0u16 >> 12u16 == 0u16) by (bit_vector);
}

/// How the flag code classifies a move: castling codes are 2 and 3 and never capture; en
/// passant (5) is a capture that neither castles nor promotes; promotions are the codes
/// from 8 up.
pub proof fn lemma_move_classes(m: Move)
    ensures
        m.wf() && m.spec_is_castle() ==> !m.spec_is_capture() && !m.spec_is_promotion() && (m.code() == 2 || m.code() == 3),
        m.code() == 5 ==> m.spec_is_capture() && !m.spec_is_castle() && !m.spec_is_promotion(),
        m.code() == 1 ==> !m.spec_is_capture() && !m.spec_is_castle() && !m.spec_is_promotion(),
        m.code() == 0 ==> !m.spec_is_capture() && !m.spec_is_castle() && !m.spec_is_promotion(),
        m.code() == 4 ==> m.spec_is_capture() && !m.spec_is_castle() && !m.spec_is_promotion(),
        m.spec_is_promotion() <==> m.code() >= 8,
        m.wf() && m.spec_is_capture() && !m.spec_is_promotion() ==> (m.code() == 4 || m.code() == 5),
        0 <= m.from_idx() < 64,
        0 <= m.to_idx() < 64,
        m.code() < 16,
        m.code() >= 8 ==> (m.spec_is_capture() <==> m.code() >= 12),
        (m.code() == 2 || m.code() == 3) ==> m.spec_is_castle() && !m.spec_is_capture() && !m.spec_is_promotion(),
        (m.code() == 8 || m.code() == 12) ==> m.spec_promotion_piece() == Some(Piece::Knight),
        (m.code() == 9 || m.code() == 13) ==> m.spec_promotion_piece() == Some(Piece::Bishop),
        (m.code() == 10 || m.code() == 14) ==> m.spec_promotion_piece() == Some(Piece::Rook),
        (m.code() == 11 || m.code() == 15) ==> m.spec_promotion_piece() == Some(Piece::Queen),
{
    lemma_code_bound(m.0);
    lemma_code_classes_bv(m.code());
}

proof fn lemma_unpack_bv(a: u16, b: u16)
    by (bit_vector)
    requires
        a & 63 == b & 63,
        (a >> 6u16) & 63 == (b >> 6u16) & 63,
        a >> 12u16 == b >> 12u16,
    ensures
        a == b,
{
}

/// A move is determined by its origin, its target and its flag code.
pub proof fn lemma_move_ext(a: Move, b: Move)
    requires
        a.from_idx() == b.from_idx(),
        a.to_idx() == b.to_idx(),
        a.code() == b.code(),
    ensures
        a == b,
{
    lemma_unpack_bv(a.0, b.0);
}

} // verus!
