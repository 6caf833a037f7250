use crate::attacks::{
    bishop_attacks, king_attacks, knight_attacks, pawn_attacks, pawn_hit, rook_attacks,
};
use crate::bitboard::{bb_lsb, bit, bishop_rays, leap_bb, lemma_bit_ops, rook_rays};
use crate::castling::{square_mask, CastlingRights};
use crate::chess_move::{lemma_move_classes, Move, MoveFlags};
use crate::color::{opponent, Color};
use crate::piece::{ColoredPiece, Piece};
use crate::square::{file_of, rank_of, Sq};
use crate::zobrist::{
    castling_key, en_passant_key, piece_key, side_key, zobrist_castling, zobrist_en_passant,
    zobrist_piece, zobrist_side,
};
use vstd::prelude::*;
use vstd::std_specs::bits::u64_trailing_zeros;

verus! {

/// Marks the pinned-pieces field as not computed yet.
pub const UNCOMPUTED_PINNED: u64 = 0xffff_ffff_ffff_ffff;

/// A chess position: a mailbox (what stands on each square) kept in step with bitboards
/// per color and per piece kind, plus the state that the pieces alone do not show.
#[derive(Copy, Clone)]
pub struct Board {
    pub mailbox: [Option<ColoredPiece>; 64],
    pub bit_colors: [u64; 2],
    pub bit_pieces: [u64; 6],
    pub checkers: u64,
    pub pinned: u64,
    pub hash: u64,
    pub castling_rights: CastlingRights,
    pub to_play: Color,
    pub en_passant_target_sq: Option<Sq>,
    pub half_move_clock: u8,
    pub ply: u16,
}

/// What a move changes and [`Board::undo_move`] needs to restore.
#[derive(Copy, Clone)]
pub struct UndoInfo {
    pub captured_piece: Option<ColoredPiece>,
    pub castling_rights: CastlingRights,
    pub en_passant_target_sq: Option<Sq>,
    pub half_move_clock: u8,
    pub checkers: u64,
    pub pinned: u64,
    pub hash: u64,
}

/// The mathematical content of a [`Board`]: everything but the bitboards, which the
/// mailbox determines.
#[verifier::ext_equal]
pub struct BoardModel {
    pub mailbox: Seq<Option<ColoredPiece>>,
    pub castling: u8,
    pub to_play: Color,
    pub ep: Option<int>,
    pub half_move_clock: u8,
    pub ply: u16,
    pub hash: u64,
    pub checkers: u64,
    pub pinned: u64,
}

/// Whether the mailbox entry `p` is a piece of color index `c`.
pub open spec fn has_color(p: Option<ColoredPiece>, c: int) -> bool {
    p matches Some(q) && q.color as u8 == c
}

/// Whether the mailbox entry `p` is a piece of kind index `k`.
pub open spec fn has_kind(p: Option<ColoredPiece>, k: int) -> bool {
    p matches Some(q) && q.piece as u8 == k
}

impl Board {
    /// The model of this board.
    pub open spec fn view(&self) -> BoardModel {
        BoardModel {
            mailbox: self.mailbox@,
            castling: self.castling_rights.0,
            to_play: self.to_play,
            ep: match self.en_passant_target_sq {
                Some(s) => Some(s.idx()),
                None => None,
            },
            half_move_clock: self.half_move_clock,
            ply: self.ply,
            hash: self.hash,
            checkers: self.checkers,
            pinned: self.pinned,
        }
    }

    /// The bitboards agree with the mailbox, and the castling rights use only their four bits.
    pub open spec fn wf(&self) -> bool {
        &&& forall|i: int, c: int|
            0 <= i < 64 && 0 <= c < 2 ==> (#[trigger] bit(self.bit_colors[c], i) <==> has_color(
                self.mailbox[i],
                c,
            ))
        &&& forall|i: int, k: int|
            0 <= i < 64 && 0 <= k < 6 ==> (#[trigger] bit(self.bit_pieces[k], i) <==> has_kind(
                self.mailbox[i],
                k,
            ))
        &&& self.castling_rights.0 < 16
    }

    /// Squares holding pieces of `color`.
    pub fn colors(&self, color: Color) -> (r: u64)
        ensures
            r == self.bit_colors[color as u8 as int],
    {
        self.bit_colors[color as usize]
    }

    /// Squares holding pieces of kind `piece`.
    pub fn pieces(&self, piece: Piece) -> (r: u64)
        ensures
            r == self.bit_pieces[piece as u8 as int],
    {
        self.bit_pieces[piece as usize]
    }

    /// Squares holding pieces of kind `piece` and color `color`.
    pub fn color_piece(&self, piece: Piece, color: Color) -> (r: u64)
        ensures
            r == self.bit_colors[color as u8 as int] & self.bit_pieces[piece as u8 as int],
    {
        self.colors(color) & self.pieces(piece)
    }

    /// Squares holding exactly `piece`.
    pub fn colored_piece(&self, piece: ColoredPiece) -> (r: u64)
        ensures
            r == self.bit_colors[piece.side() as u8 as int] & self.bit_pieces[piece.kind() as u8 as int],
    {
        self.colors(piece.color()) & self.pieces(piece.piece())
    }

    /// What stands on `sq`.
    pub fn piece_at(&self, sq: Sq) -> (r: Option<ColoredPiece>)
        ensures
            r == self.mailbox[sq.idx()],
    {
        self.mailbox[sq as usize]
    }

    /// Occupied squares.
    pub fn occupied(&self) -> (r: u64)
        ensures
            r == self.bit_colors[0] | self.bit_colors[1],
    {
        self.bit_colors[0] | self.bit_colors[1]
    }

    /// Empty squares.
    pub fn empty(&self) -> (r: u64)
        ensures
            r == !(self.bit_colors[0] | self.bit_colors[1]),
    {
        !self.occupied()
    }

    /// Whether the side to move is in check (as recorded in `checkers`).
    pub fn in_check(&self) -> (r: bool)
        ensures
            r == (self.checkers != 0),
    {
        self.checkers != 0
    }

    /// Whether some pieces of `color` are neither pawns nor the king.
    pub fn has_non_pawn_material(&self, color: Color) -> (r: bool)
        ensures
            r == ((self.bit_colors[color as u8 as int] & !(self.bit_pieces[0] | self.bit_pieces[5]))
                != 0),
    {
        (self.colors(color) & !(self.pieces(Piece::Pawn) | self.pieces(Piece::King))) != 0
    }

    /// A mutable handle on the squares of `color`.
    pub fn colors_mut(&mut self, color: Color) -> (r: &mut u64)
        ensures
            *r == old(self).bit_colors[color as u8 as int],
            final(self).bit_colors@ == old(self).bit_colors@.update(color as u8 as int, *final(r)),
            final(self).mailbox == old(self).mailbox,
            final(self).bit_pieces == old(self).bit_pieces,
    {
        &mut self.bit_colors[color as usize]
    }
}

/// Setting or clearing one square of a bitboard changes that square only.
pub proof fn lemma_set_bit(old_bb: u64, new_bb: u64, s: int, add: bool)
    requires
        0 <= s < 64,
        new_bb == (if add {
            old_bb | (1u64 << (s as u64))
        } else {
            old_bb & !(1u64 << (s as u64))
        }),
    ensures
        forall|t: int|
            0 <= t < 64 ==> (#[trigger] bit(new_bb, t) <==> (if t == s {
                add
            } else {
                bit(old_bb, t)
            })),
{
    let b = 1u64 << (s as u64);
    lemma_bit_ops(old_bb, b, s);
    lemma_bit_ops(b, b, s);
    lemma_bit_ops(old_bb, !b, s);
}

/// A board stays well formed when one mailbox square changes and every bitboard changes
/// on that square only, in step with it.
pub proof fn lemma_wf_update(b_old: Board, b_new: Board, s: int, v: Option<ColoredPiece>)
    requires
        b_old.wf(),
        0 <= s < 64,
        b_new.mailbox@ == b_old.mailbox@.update(s, v),
        b_new.castling_rights.0 < 16,
        forall|c: int, t: int|
            0 <= c < 2 && 0 <= t < 64 ==> (#[trigger] bit(b_new.bit_colors[c], t) <==> (if t == s {
                has_color(v, c)
            } else {
                bit(b_old.bit_colors[c], t)
            })),
        forall|k: int, t: int|
            0 <= k < 6 && 0 <= t < 64 ==> (#[trigger] bit(b_new.bit_pieces[k], t) <==> (if t == s {
                has_kind(v, k)
            } else {
                bit(b_old.bit_pieces[k], t)
            })),
    ensures
        b_new.wf(),
{
    assert forall|i: int, c: int| 0 <= i < 64 && 0 <= c < 2 implies (#[trigger] bit(
        b_new.bit_colors[c],
        i,
    ) <==> has_color(b_new.mailbox[i], c)) by {
        assert(bit(b_old.bit_colors[c], i) <==> has_color(b_old.mailbox[i], c));
        assert(b_new.mailbox[i] == b_new.mailbox@[i]);
    }
    assert forall|i: int, k: int| 0 <= i < 64 && 0 <= k < 6 implies (#[trigger] bit(
        b_new.bit_pieces[k],
        i,
    ) <==> has_kind(b_new.mailbox[i], k)) by {
        assert(bit(b_old.bit_pieces[k], i) <==> has_kind(b_old.mailbox[i], k));
        assert(b_new.mailbox[i] == b_new.mailbox@[i]);
    }
}

impl Board {
    /// Puts `piece` on the empty square `sq`.
    pub fn add_piece(&mut self, sq: Sq, piece: ColoredPiece)
        requires
            old(self).wf(),
            old(self).mailbox[sq.idx()] is None,
        ensures
            final(self).wf(),
            final(self).mailbox@ == old(self).mailbox@.update(sq.idx(), Some(piece)),
            final(self).hash == old(self).hash ^ piece_key(sq.idx(), piece),
            final(self)@.castling == old(self)@.castling,
            final(self).to_play == old(self).to_play,
            final(self).en_passant_target_sq == old(self).en_passant_target_sq,
            final(self).half_move_clock == old(self).half_move_clock,
            final(self).ply == old(self).ply,
            final(self).checkers == old(self).checkers,
            final(self).pinned == old(self).pinned,
    {
        let ghost old_self = *self;
        let b = sq.bitboard();
        let c = piece.color() as usize;
        let k = piece.piece() as usize;
        assert(b == 1u64 << (sq.idx() as u64));
        self.mailbox[sq as usize] = Some(piece);
        self.bit_colors[c] = self.bit_colors[c] | b;
        self.bit_pieces[k] = self.bit_pieces[k] | b;
        self.hash = self.hash ^ zobrist_piece(sq, piece);
        proof {
            lemma_set_bit(old_self.bit_colors[c as int], self.bit_colors[c as int], sq.idx(), true);
            lemma_set_bit(old_self.bit_pieces[k as int], self.bit_pieces[k as int], sq.idx(), true);
            assert(self.mailbox@ == old_self.mailbox@.update(sq.idx(), Some(piece)));
            assert forall|cc: int, t: int| 0 <= cc < 2 && 0 <= t < 64 implies (#[trigger] bit(
                self.bit_colors[cc],
                t,
            ) <==> (if t == sq.idx() {
                has_color(Some(piece), cc)
            } else {
                bit(old_self.bit_colors[cc], t)
            })) by {
                if cc != c as int {
                    assert(self.bit_colors[cc] == old_self.bit_colors[cc]);
                    if t == sq.idx() {
                        assert(!has_color(old_self.mailbox[t], cc));
                    }
                }
            }
            assert forall|kk: int, t: int| 0 <= kk < 6 && 0 <= t < 64 implies (#[trigger] bit(
                self.bit_pieces[kk],
                t,
            ) <==> (if t == sq.idx() {
                has_kind(Some(piece), kk)
            } else {
                bit(old_self.bit_pieces[kk], t)
            })) by {
                if kk != k as int {
                    assert(self.bit_pieces[kk] == old_self.bit_pieces[kk]);
                    if t == sq.idx() {
                        assert(!has_kind(old_self.mailbox[t], kk));
                    }
                }
            }
            lemma_wf_update(old_self, *self, sq.idx(), Some(piece));
        }
    }

    /// Takes the piece, if any, off `sq` and returns it.
    pub fn remove_piece(&mut self, sq: Sq) -> (r: Option<ColoredPiece>)
        requires
            old(self).wf(),
        ensures
            final(self).wf(),
            r == old(self).mailbox[sq.idx()],
            final(self).mailbox@ == old(self).mailbox@.update(sq.idx(), None),
            final(self).hash == (match r {
                Some(p) => old(self).hash ^ piece_key(sq.idx(), p),
                None => old(self).hash,
            }),
            final(self)@.castling == old(self)@.castling,
            final(self).to_play == old(self).to_play,
            final(self).en_passant_target_sq == old(self).en_passant_target_sq,
            final(self).half_move_clock == old(self).half_move_clock,
            final(self).ply == old(self).ply,
            final(self).checkers == old(self).checkers,
            final(self).pinned == old(self).pinned,
    {
        let ghost old_self = *self;
        let piece = match self.mailbox[sq as usize] {
            Some(p) => p,
            None => {
                proof {
                    assert(self.mailbox@.update(sq.idx(), None) =~= self.mailbox@);
                }
                return None;
            },
        };
        let b = sq.bitboard();
        let c = piece.color() as usize;
        let k = piece.piece() as usize;
        assert(b == 1u64 << (sq.idx() as u64));
        self.mailbox[sq as usize] = None;
        self.bit_colors[c] = self.bit_colors[c] & !b;
        self.bit_pieces[k] = self.bit_pieces[k] & !b;
        self.hash = self.hash ^ zobrist_piece(sq, piece);
        proof {
            lemma_set_bit(old_self.bit_colors[c as int], self.bit_colors[c as int], sq.idx(), false);
            lemma_set_bit(old_self.bit_pieces[k as int], self.bit_pieces[k as int], sq.idx(), false);
            assert(self.mailbox@ == old_self.mailbox@.update(sq.idx(), None));
            assert forall|cc: int, t: int| 0 <= cc < 2 && 0 <= t < 64 implies (#[trigger] bit(
                self.bit_colors[cc],
                t,
            ) <==> (if t == sq.idx() {
                has_color(None, cc)
            } else {
                bit(old_self.bit_colors[cc], t)
            })) by {
                if cc != c as int {
                    assert(self.bit_colors[cc] == old_self.bit_colors[cc]);
                    if t == sq.idx() {
                        assert(bit(old_self.bit_colors[cc], t) <==> has_color(old_self.mailbox[t], cc));
                    }
                }
            }
            assert forall|kk: int, t: int| 0 <= kk < 6 && 0 <= t < 64 implies (#[trigger] bit(
                self.bit_pieces[kk],
                t,
            ) <==> (if t == sq.idx() {
                has_kind(None, kk)
            } else {
                bit(old_self.bit_pieces[kk], t)
            })) by {
                if kk != k as int {
                    assert(self.bit_pieces[kk] == old_self.bit_pieces[kk]);
                    if t == sq.idx() {
                        assert(bit(old_self.bit_pieces[kk], t) <==> has_kind(old_self.mailbox[t], kk));
                    }
                }
            }
            lemma_wf_update(old_self, *self, sq.idx(), None);
        }
        Some(piece)
    }

    /// Moves the piece on `from` to the empty square `to` and returns it.
    pub fn move_piece(&mut self, from: Sq, to: Sq) -> (r: ColoredPiece)
        requires
            old(self).wf(),
            old(self).mailbox[from.idx()] is Some,
            old(self).mailbox[to.idx()] is None,
        ensures
            final(self).wf(),
            old(self).mailbox[from.idx()] == Some(r),
            final(self).mailbox@ == old(self).mailbox@.update(from.idx(), None).update(
                to.idx(),
                Some(r),
            ),
            final(self).hash == old(self).hash ^ piece_key(from.idx(), r) ^ piece_key(to.idx(), r),
            final(self)@.castling == old(self)@.castling,
            final(self).to_play == old(self).to_play,
            final(self).en_passant_target_sq == old(self).en_passant_target_sq,
            final(self).half_move_clock == old(self).half_move_clock,
            final(self).ply == old(self).ply,
            final(self).checkers == old(self).checkers,
            final(self).pinned == old(self).pinned,
    {
        let p = self.remove_piece(from);
        let piece = match p {
            Some(q) => q,
            None => ColoredPiece::new(Piece::Pawn, Color::White),
        };
        self.add_piece(to, piece);
        piece
    }
}


/// Index of the square whose piece move `m` of `us` takes.
pub open spec fn cap_sq(m: Move, us: Color) -> int {
    if m.code() == 5 {
        if us == Color::White {
            m.to_idx() - 8
        } else {
            m.to_idx() + 8
        }
    } else {
        m.to_idx()
    }
}

/// Where the rook starts and ends when `us` castles with move `m`.
pub open spec fn rook_sqs(m: Move, us: Color) -> (Sq, Sq) {
    (if m.code() == 2 {
        MoveFlags::CastleKing
    } else {
        MoveFlags::CastleQueen
    }).spec_castling_rook_squares(us)
}

/// The piece that ends on the target square: the promotion piece, or the mover itself.
pub open spec fn placed_piece(m: Move, p: ColoredPiece, us: Color) -> ColoredPiece {
    match m.spec_promotion_piece() {
        Some(k) => ColoredPiece { piece: k, color: us },
        None => p,
    }
}

/// Index of the square a double pawn push of `us` passes over.
pub open spec fn ep_target(m: Move, us: Color) -> int {
    if us == Color::White {
        m.to_idx() - 8
    } else {
        m.to_idx() + 8
    }
}

/// The mailbox after `us` plays `m`: the captured piece leaves, the mover (or its
/// promotion) goes from origin to target, and castling also moves the rook.
pub open spec fn mailbox_after(mb: Seq<Option<ColoredPiece>>, m: Move, us: Color) -> Seq<
    Option<ColoredPiece>,
> {
    let mb1 = if m.spec_is_capture() {
        mb.update(cap_sq(m, us), None)
    } else {
        mb
    };
    let p = mb[m.from_idx()].unwrap();
    let mb2 = mb1.update(m.from_idx(), None).update(m.to_idx(), Some(placed_piece(m, p, us)));
    if m.spec_is_castle() {
        let (rf, rt) = rook_sqs(m, us);
        mb2.update(rf.idx(), None).update(rt.idx(), mb2[rf.idx()])
    } else {
        mb2
    }
}

/// The en-passant target after `us` plays `m` onto mailbox `mb` (the mailbox after the
/// move): the square a double push passed over, when an enemy pawn attacks it.
pub open spec fn ep_after(mb: Seq<Option<ColoredPiece>>, m: Move, us: Color) -> Option<int> {
    if m.code() == 1 && exists|t: int|
        0 <= t < 64 && #[trigger] pawn_hit(ep_target(m, us), us, t) && mb[t] == Some(
            ColoredPiece { piece: Piece::Pawn, color: opponent(us) },
        ) {
        Some(ep_target(m, us))
    } else {
        None
    }
}

/// The Zobrist hash after the pieces of move `m` have moved: each piece leaving or
/// entering a square toggles its key.
pub open spec fn hash_pieces(b: BoardModel, m: Move) -> u64 {
    let us = b.to_play;
    let mb = b.mailbox;
    let from = m.from_idx();
    let to = m.to_idx();
    let h1 = if m.spec_is_capture() {
        b.hash ^ piece_key(cap_sq(m, us), mb[cap_sq(m, us)].unwrap())
    } else {
        b.hash
    };
    let p = mb[from].unwrap();
    let h2 = h1 ^ piece_key(from, p) ^ piece_key(to, p);
    let h3 = if m.spec_is_promotion() {
        h2 ^ piece_key(to, p) ^ piece_key(to, placed_piece(m, p, us))
    } else {
        h2
    };
    if m.spec_is_castle() {
        let (rf, rt) = rook_sqs(m, us);
        let rook = mb[rf.idx()].unwrap();
        h3 ^ piece_key(rf.idx(), rook) ^ piece_key(rt.idx(), rook)
    } else {
        h3
    }
}

/// The Zobrist hash after the move: every piece, castling, en-passant and side change
/// toggles its key.
pub open spec fn hash_after(b: BoardModel, m: Move, new_ep: Option<int>) -> u64 {
    let from = m.from_idx();
    let to = m.to_idx();
    let h4 = hash_pieces(b, m);
    let new_c = b.castling & (square_mask(from) & square_mask(to));
    let h5 = h4 ^ castling_key(b.castling) ^ castling_key(new_c);
    let h6 = match b.ep {
        Some(e) => h5 ^ en_passant_key(file_of(e)),
        None => h5,
    };
    let h7 = match new_ep {
        Some(t) => h6 ^ en_passant_key(file_of(t)),
        None => h6,
    };
    h7 ^ side_key()
}

/// The position after the side to move plays `m`, with `new_checkers` recorded as the
/// pieces giving check.
pub open spec fn spec_make(b: BoardModel, m: Move, new_checkers: u64) -> BoardModel {
    let us = b.to_play;
    let mb3 = mailbox_after(b.mailbox, m, us);
    let new_ep = ep_after(mb3, m, us);
    let moved = b.mailbox[m.from_idx()].unwrap();
    BoardModel {
        mailbox: mb3,
        castling: b.castling & (square_mask(m.from_idx()) & square_mask(m.to_idx())),
        to_play: opponent(us),
        ep: new_ep,
        half_move_clock: if moved.piece == Piece::Pawn || m.spec_is_capture() {
            0
        } else {
            (b.half_move_clock + 1) as u8
        },
        ply: (b.ply + 1) as u16,
        hash: hash_after(b, m, new_ep),
        checkers: new_checkers,
        pinned: UNCOMPUTED_PINNED,
    }
}

/// The mailbox [`Board::undo_move`] rebuilds: the mover (a pawn again after a promotion)
/// goes back to its origin, a castled rook goes home and a captured piece returns.
pub open spec fn mailbox_undo(
    mb: Seq<Option<ColoredPiece>>,
    m: Move,
    us: Color,
    captured: Option<ColoredPiece>,
) -> Seq<Option<ColoredPiece>> {
    let from = m.from_idx();
    let to = m.to_idx();
    let mb1 = if m.spec_is_promotion() {
        mb.update(to, None).update(from, Some(ColoredPiece { piece: Piece::Pawn, color: us }))
    } else {
        mb.update(to, None).update(from, mb[to])
    };
    let mb2 = if m.spec_is_castle() {
        let (rf, rt) = rook_sqs(m, us);
        mb1.update(rt.idx(), None).update(rf.idx(), mb1[rt.idx()])
    } else {
        mb1
    };
    if m.spec_is_capture() {
        mb2.update(cap_sq(m, us), captured)
    } else {
        mb2
    }
}

/// The position [`Board::undo_move`] rebuilds from `b2`, the move `m` and its undo record.
pub open spec fn spec_undo(b2: BoardModel, m: Move, u: UndoInfo) -> BoardModel {
    let us = opponent(b2.to_play);
    BoardModel {
        mailbox: mailbox_undo(b2.mailbox, m, us, u.captured_piece),
        castling: u.castling_rights.0,
        to_play: us,
        ep: match u.en_passant_target_sq {
            Some(s) => Some(s.idx()),
            None => None,
        },
        half_move_clock: u.half_move_clock,
        ply: (b2.ply - 1) as u16,
        hash: u.hash,
        checkers: u.checkers,
        pinned: u.pinned,
    }
}

/// The shape a move must have for [`Board::make_move_fast`] to apply it: a piece of the side
/// to move on the origin, an enemy piece on the capture square of a capture, an empty target
/// otherwise, a pawn for a promotion, the rook at home and its castling square free, and
/// room left in the counters.
pub open spec fn move_ok(b: Board, m: Move) -> bool {
    &&& pseudo_ok(b, m)
    &&& b.half_move_clock < 255
    &&& b.ply < 65535
}

/// The shape of a pseudo-legal move: a piece of the side to move on the origin, an enemy
/// piece on the capture square of a capture, an empty target otherwise (en passant
/// included), a pawn for a promotion, and for castling the rook at home and its new square
/// free.
pub open spec fn pseudo_ok(b: Board, m: Move) -> bool {
    let us = b.to_play;
    let from = m.from_idx();
    let to = m.to_idx();
    &&& m.wf()
    &&& from != to
    &&& b.mailbox[from] matches Some(p) && p.color == us
    &&& (m.code() == 5 ==> (if us == Color::White {
        rank_of(to) > 0
    } else {
        rank_of(to) < 7
    }) && cap_sq(m, us) != from)
    &&& (m.code() == 1 ==> (if us == Color::White {
        rank_of(to) > 0
    } else {
        rank_of(to) < 7
    }))
    &&& (m.spec_is_capture() ==> (b.mailbox[cap_sq(m, us)] matches Some(q) && q.color == opponent(
        us,
    )))
    &&& (m.code() == 5 || !m.spec_is_capture() ==> b.mailbox[to] is None)
    &&& (m.spec_is_promotion() ==> (b.mailbox[from] matches Some(p) && p.piece == Piece::Pawn))
    &&& (m.spec_is_castle() ==> {
        let (rf, rt) = rook_sqs(m, us);
        &&& rf.idx() != from && rf.idx() != to && rt.idx() != from && rt.idx() != to
        &&& rf.idx() != rt.idx()
        &&& b.mailbox[rf.idx()] is Some
        &&& b.mailbox[rt.idx()] is None
    })
}

/// The pieces of `attacking` that attack square `sq` when `occ` holds the occupied squares.
pub open spec fn spec_attackers(b: Board, sq: int, attacking: Color, occ: u64) -> u64 {
    let enemy = b.bit_colors[attacking as u8 as int];
    let enemy_bishop = (b.bit_pieces[2] | b.bit_pieces[4]) & enemy;
    let enemy_rook = (b.bit_pieces[3] | b.bit_pieces[4]) & enemy;
    let enemy_pawns = b.bit_pieces[0] & enemy;
    let enemy_knights = b.bit_pieces[1] & enemy;
    let enemy_kings = b.bit_pieces[5] & enemy;
    (leap_bb(file_of(sq), rank_of(sq), crate::attacks::pawn_offsets(opponent(attacking)))
        & enemy_pawns) | (leap_bb(file_of(sq), rank_of(sq), crate::attacks::knight_offsets())
        & enemy_knights) | (bishop_rays(sq, occ) & enemy_bishop) | (rook_rays(sq, occ)
        & enemy_rook) | (leap_bb(file_of(sq), rank_of(sq), crate::attacks::king_offsets())
        & enemy_kings)
}

/// The king bitboard of `c`.
pub open spec fn king_bb(b: Board, c: Color) -> u64 {
    b.bit_colors[c as u8 as int] & b.bit_pieces[5]
}

/// The pieces giving check to the side to move (none when that side has no king).
pub open spec fn spec_checkers(b: Board) -> u64 {
    let kb = king_bb(b, b.to_play);
    if kb == 0 {
        0
    } else {
        spec_attackers(
            b,
            u64_trailing_zeros(kb) as int,
            opponent(b.to_play),
            b.bit_colors[0] | b.bit_colors[1],
        )
    }
}

impl Board {
    /// The square of `color`'s king; that king must be on the board.
    pub fn king_sq(&self, color: Color) -> (r: Sq)
        requires
            king_bb(*self, color) != 0,
        ensures
            r.idx() == u64_trailing_zeros(king_bb(*self, color)),
    {
        let king_bb = self.color_piece(Piece::King, color);
        bb_lsb(king_bb)
    }

    /// The pieces of `attacking_color` that attack `attacked_sq` when `occupied` holds the
    /// occupied squares.
    pub fn generate_attackers(&self, attacked_sq: Sq, attacking_color: Color, occupied: u64) -> (r: u64)
        ensures
            r == spec_attackers(*self, attacked_sq.idx(), attacking_color, occupied),
    {
        let enemy = self.colors(attacking_color);
        let enemy_bishop = (self.pieces(Piece::Bishop) | self.pieces(Piece::Queen)) & enemy;
        let enemy_rook = (self.pieces(Piece::Rook) | self.pieces(Piece::Queen)) & enemy;
        let enemy_pawns = self.pieces(Piece::Pawn) & enemy;
        let enemy_knights = self.pieces(Piece::Knight) & enemy;
        let enemy_kings = self.pieces(Piece::King) & enemy;
        (pawn_attacks(attacked_sq, attacking_color.not()) & enemy_pawns) | (knight_attacks(
            attacked_sq,
        ) & enemy_knights) | (bishop_attacks(attacked_sq, occupied) & enemy_bishop) | (
        rook_attacks(attacked_sq, occupied) & enemy_rook) | (king_attacks(attacked_sq)
            & enemy_kings)
    }

    /// Records in `checkers` the pieces that give check to the side to move.
    pub fn set_checkers(&mut self)
        ensures
            *final(self) == (Board { checkers: spec_checkers(*old(self)), ..*old(self) }),
    {
        let us = self.to_play;
        let kb = self.color_piece(Piece::King, us);
        if kb == 0 {
            self.checkers = 0;
        } else {
            let ksq = self.king_sq(us);
            let occ = self.occupied();
            self.checkers = self.generate_attackers(ksq, us.not(), occ);
        }
    }
}


/// The undo record that [`Board::make_move_fast`] returns for `m` played on `b`.
pub open spec fn undo_of(b: Board, m: Move) -> UndoInfo {
    UndoInfo {
        captured_piece: if m.spec_is_capture() {
            b.mailbox[cap_sq(m, b.to_play)]
        } else {
            None
        },
        castling_rights: b.castling_rights,
        en_passant_target_sq: b.en_passant_target_sq,
        half_move_clock: b.half_move_clock,
        checkers: b.checkers,
        pinned: b.pinned,
        hash: b.hash,
    }
}

/// What [`Board::undo_move`] needs of the position it takes back: the mover on the target,
/// an empty origin, the castled rook on its new square, the capture square free again once
/// the mover is back, and a record of the captured piece.
pub open spec fn undo_ok(b2: BoardModel, m: Move, u: UndoInfo) -> bool {
    let us = opponent(b2.to_play);
    let from = m.from_idx();
    let to = m.to_idx();
    &&& m.wf()
    &&& from != to
    &&& b2.mailbox[to] is Some
    &&& b2.mailbox[from] is None
    &&& b2.ply > 0
    &&& u.castling_rights.0 < 16
    &&& (m.code() == 5 ==> (if us == Color::White {
        rank_of(to) > 0
    } else {
        rank_of(to) < 7
    }) && cap_sq(m, us) != from && b2.mailbox[cap_sq(m, us)] is None)
    &&& (m.spec_is_capture() ==> u.captured_piece is Some)
    &&& (m.spec_is_castle() ==> {
        let (rf, rt) = rook_sqs(m, us);
        &&& rf.idx() != from && rf.idx() != to && rt.idx() != from && rt.idx() != to
        &&& rf.idx() != rt.idx()
        &&& b2.mailbox[rt.idx()] is Some
        &&& b2.mailbox[rf.idx()] is None
    })
}

proof fn lemma_and_small(a: u8, m: u8)
    by (bit_vector)
    requires
        a < 16,
    ensures
        a & m < 16,
{
}

/// A bitboard holds some square exactly when it is not empty.
pub proof fn lemma_nonzero_bits(x: u64)
    ensures
        x != 0 <==> exists|t: int| 0 <= t < 64 && #[trigger] bit(x, t),
{
    if x != 0 {
        vstd::std_specs::bits::axiom_u64_trailing_zeros(x);
        let t = u64_trailing_zeros(x) as int;
        assert(bit(x, t));
    } else {
        lemma_bit_ops(0, 0, 0);
    }
}

impl Board {
    /// Moves the pieces of `mov`: takes the captured piece off, moves the mover (promoting it
    /// if asked) and, when castling, the rook. Returns the captured piece.
    #[verifier::rlimit(50)]
    fn apply_pieces(&mut self, mov: Move) -> (r: Option<ColoredPiece>)
        requires
            old(self).wf(),
            move_ok(*old(self), mov),
        ensures
            final(self).wf(),
            final(self).mailbox@ =~= mailbox_after(old(self).mailbox@, mov, old(self).to_play),
            final(self).hash == hash_pieces(old(self)@, mov),
            r == (if mov.spec_is_capture() {
                old(self).mailbox[cap_sq(mov, old(self).to_play)]
            } else {
                None
            }),
            final(self).castling_rights == old(self).castling_rights,
            final(self).to_play == old(self).to_play,
            final(self).en_passant_target_sq == old(self).en_passant_target_sq,
            final(self).half_move_clock == old(self).half_move_clock,
            final(self).ply == old(self).ply,
            final(self).checkers == old(self).checkers,
            final(self).pinned == old(self).pinned,
    {
        let ghost old_b = *self;
        proof {
            lemma_move_classes(mov);
        }
        let from = mov.from();
        let to = mov.to();
        let flags = mov.flags();
        let us = self.to_play;
        let is_capture = mov.is_capture();
        let captured_piece = if is_capture {
            self.remove_piece(mov.capture_square(us))
        } else {
            None
        };
        let ghost mb1 = self.mailbox@;
        let ghost h1 = self.hash;
        assert(mb1 == (if mov.spec_is_capture() {
            old_b.mailbox@.update(cap_sq(mov, us), None)
        } else {
            old_b.mailbox@
        }));
        let mut piece = self.move_piece(from, to);
        let ghost p0 = piece;
        if mov.is_promotion() {
            let promo_piece = match mov.promotion_piece() {
                Some(p) => p,
                None => Piece::Queen,
            };
            let _ = self.remove_piece(to);
            piece = ColoredPiece::new(promo_piece, us);
            self.add_piece(to, piece);
        }
        let ghost mb2 = self.mailbox@;
        assert(old_b.mailbox@[from.idx()] == Some(p0));
        assert(mb2 =~= mb1.update(from.idx(), None).update(to.idx(), Some(placed_piece(mov, p0, us))));
        if mov.is_castle() {
            let (rook_from, rook_to) = flags.castling_rook_squares(us);
            assert((rook_from, rook_to) == rook_sqs(mov, us)) by {
                if mov.code() == 2 {
                    assert(flags == MoveFlags::CastleKing);
                } else {
                    assert(flags != MoveFlags::CastleKing);
                }
            }
            assert(mb2[rook_from.idx()] == old_b.mailbox@[rook_from.idx()]);
            let _ = self.move_piece(rook_from, rook_to);
        }
        captured_piece
    }

    /// The en-passant target that double push `mov` of `us` leaves: the square passed over,
    /// when an enemy pawn attacks it.
    fn double_push_target(&self, mov: Move, us: Color) -> (r: Option<Sq>)
        requires
            self.wf(),
            mov.code() == 1,
            us == Color::White ==> rank_of(mov.to_idx()) > 0,
            us == Color::Black ==> rank_of(mov.to_idx()) < 7,
        ensures
            (match r {
                Some(s) => Some(s.idx()),
                None => None,
            }) == ep_after(self.mailbox@, mov, us),
    {
        let to = mov.to();
        let target_sq = to.shift(us.backward());
        let attackers = pawn_attacks(target_sq, us) & self.color_piece(Piece::Pawn, us.not());
        proof {
            let them = opponent(us);
            let pb = self.bit_colors[them as u8 as int] & self.bit_pieces[0];
            let pa = pawn_attacks_spec_bits(target_sq, us);
            lemma_bit_ops(self.bit_colors[them as u8 as int], self.bit_pieces[0], 0);
            lemma_bit_ops(pa, pb, 0);
            lemma_nonzero_bits(attackers);
            assert(target_sq.idx() == ep_target(mov, us));
            assert forall|t: int| 0 <= t < 64 implies (#[trigger] bit(attackers, t) <==> (pawn_hit(
                ep_target(mov, us),
                us,
                t,
            ) && self.mailbox@[t] == Some(ColoredPiece { piece: Piece::Pawn, color: them }))) by {
                assert(bit(self.bit_colors[them as u8 as int], t) <==> has_color(self.mailbox[t], them as u8 as int));
                assert(bit(self.bit_pieces[0], t) <==> has_kind(self.mailbox[t], 0));
                if let Some(q) = self.mailbox@[t] {
                    if q.color as u8 == them as u8 && q.piece as u8 == 0 {
                        assert(q.color == them);
                        assert(q.piece == Piece::Pawn);
                    }
                }
            }
            if attackers != 0 {
                let t = choose|t: int| 0 <= t < 64 && #[trigger] bit(attackers, t);
                assert(pawn_hit(ep_target(mov, us), us, t));
            } else {
                if exists|t: int|
                    0 <= t < 64 && #[trigger] pawn_hit(ep_target(mov, us), us, t) && self.mailbox@[t] == Some(
                        ColoredPiece { piece: Piece::Pawn, color: opponent(us) },
                    ) {
                    let t = choose|t: int|
                        0 <= t < 64 && #[trigger] pawn_hit(ep_target(mov, us), us, t) && self.mailbox@[t] == Some(
                            ColoredPiece { piece: Piece::Pawn, color: opponent(us) },
                        );
                    assert(bit(attackers, t));
                }
            }
        }
        if attackers != 0 {
            Some(target_sq)
        } else {
            None
        }
    }

    /// Plays `mov` for the side to move and returns what [`Board::undo_move`] needs;
    /// `mov_gives_check` says whether to record the checking pieces of the new position.
    pub fn make_move_fast(&mut self, mov: Move, mov_gives_check: bool) -> (u: UndoInfo)
        requires
            old(self).wf(),
            move_ok(*old(self), mov),
        ensures
            final(self).wf(),
            final(self)@ =~= spec_make(old(self)@, mov, final(self).checkers),
            final(self).checkers == (if mov_gives_check {
                spec_checkers(*final(self))
            } else {
                0
            }),
            u == undo_of(*old(self), mov),
    {
        let ghost old_b = *self;
        let from = mov.from();
        let to = mov.to();
        let us = self.to_play;
        let is_pawn = match self.mailbox[from as usize] {
            Some(p) => p.piece() == Piece::Pawn,
            None => false,
        };
        let is_capture = mov.is_capture();
        let undo_castling = self.castling_rights;
        let undo_ep = self.en_passant_target_sq;
        let undo_half = self.half_move_clock;
        let undo_checkers = self.checkers;
        let undo_pinned = self.pinned;
        let saved_hash = self.hash;
        let captured_piece = self.apply_pieces(mov);
        let undo_info = UndoInfo {
            captured_piece,
            castling_rights: undo_castling,
            en_passant_target_sq: undo_ep,
            half_move_clock: undo_half,
            checkers: undo_checkers,
            pinned: undo_pinned,
            hash: saved_hash,
        };
        let old_rights = self.castling_rights;
        self.hash = self.hash ^ zobrist_castling(old_rights);
        proof {
            lemma_and_small(old_rights.0, square_mask(from.idx()) & square_mask(to.idx()));
        }
        self.castling_rights = old_rights.intersection(CastlingRights::mask_for_move(from, to));
        self.hash = self.hash ^ zobrist_castling(self.castling_rights);
        match self.en_passant_target_sq {
            Some(ep) => {
                self.hash = self.hash ^ zobrist_en_passant(ep);
                self.en_passant_target_sq = None;
            },
            None => {},
        }
        if mov.flags_bits() == 1 {
            let target = self.double_push_target(mov, us);
            match target {
                Some(target_sq) => {
                    self.hash = self.hash ^ zobrist_en_passant(target_sq);
                    self.en_passant_target_sq = Some(target_sq);
                },
                None => {},
            }
        }
        if is_pawn || is_capture {
            self.half_move_clock = 0;
        } else {
            self.half_move_clock = self.half_move_clock + 1;
        }
        self.ply = self.ply + 1;
        self.to_play = us.not();
        self.hash = self.hash ^ zobrist_side();
        self.pinned = UNCOMPUTED_PINNED;
        if mov_gives_check {
            self.set_checkers();
        } else {
            self.checkers = 0;
        }
        undo_info
    }
}

impl Board {
    /// Takes back `mov`, which was the last move played, using the record `undo` that
    /// [`Board::make_move_fast`] returned for it.
    #[verifier::rlimit(50)]
    pub fn undo_move(&mut self, mov: Move, undo: UndoInfo)
        requires
            old(self).wf(),
            undo_ok(old(self)@, mov, undo),
        ensures
            final(self).wf(),
            final(self)@ =~= spec_undo(old(self)@, mov, undo),
    {
        let ghost old_b = *self;
        proof {
            lemma_move_classes(mov);
        }
        let from = mov.from();
        let to = mov.to();
        let flags = mov.flags();
        let us = self.to_play.not();
        if mov.is_promotion() {
            let _ = self.remove_piece(to);
            self.add_piece(from, ColoredPiece::new(Piece::Pawn, us));
        } else {
            let _ = self.move_piece(to, from);
        }
        let ghost mb1 = self.mailbox@;
        if mov.is_castle() {
            let (rook_from, rook_to) = flags.castling_rook_squares(us);
            assert((rook_from, rook_to) == rook_sqs(mov, us)) by {
                if mov.code() == 2 {
                    assert(flags == MoveFlags::CastleKing);
                } else {
                    assert(flags != MoveFlags::CastleKing);
                }
            }
            let _ = self.move_piece(rook_to, rook_from);
        }
        if mov.is_capture() {
            let captured = match undo.captured_piece {
                Some(p) => p,
                None => ColoredPiece::new(Piece::Pawn, us),
            };
            let cap = mov.capture_square(us);
            self.add_piece(cap, captured);
        }
        self.castling_rights = undo.castling_rights;
        self.en_passant_target_sq = undo.en_passant_target_sq;
        self.half_move_clock = undo.half_move_clock;
        self.checkers = undo.checkers;
        self.pinned = undo.pinned;
        self.ply = self.ply - 1;
        self.hash = undo.hash;
        self.to_play = us;
    }
}

/// Taking a move back restores the position it was played from: for every well-formed
/// board and every move of the right shape, [`Board::undo_move`] with the record that
/// [`Board::make_move_fast`] returned gives back the same mailbox, rights, en-passant square,
/// counters, hash, checkers and pinned set, whatever checkers the move recorded.
pub proof fn lemma_make_undo_roundtrip(b: Board, m: Move, new_checkers: u64)
    requires
        b.wf(),
        move_ok(b, m),
    ensures
        undo_ok(spec_make(b@, m, new_checkers), m, undo_of(b, m)),
        spec_undo(spec_make(b@, m, new_checkers), m, undo_of(b, m)) =~= b@,
{
    lemma_move_classes(m);
    let us = b.to_play;
    let b2 = spec_make(b@, m, new_checkers);
    let u = undo_of(b, m);
    let r = spec_undo(b2, m, u);
    assert(opponent(opponent(us)) == us);
    lemma_mailbox_roundtrip(b, m);
    if m.spec_is_castle() {
        let (rf, rt) = rook_sqs(m, us);
        assert(b2.mailbox[rt.idx()] is Some);
    }
}

/// The mailbox part of [`lemma_make_undo_roundtrip`].
proof fn lemma_mailbox_roundtrip(b: Board, m: Move)
    requires
        b.wf(),
        move_ok(b, m),
    ensures
        mailbox_undo(
            mailbox_after(b.mailbox@, m, b.to_play),
            m,
            b.to_play,
            undo_of(b, m).captured_piece,
        ) =~= b.mailbox@,
{
    lemma_move_classes(m);
    let us = b.to_play;
    let mb = b.mailbox@;
    let from = m.from_idx();
    let to = m.to_idx();
    let after = mailbox_after(mb, m, us);
    let back = mailbox_undo(after, m, us, undo_of(b, m).captured_piece);
    let p = mb[from].unwrap();
    if m.spec_is_castle() {
        let (rf, rt) = rook_sqs(m, us);
        let mb2 = mb.update(from, None).update(to, Some(p));
        assert(after == mb2.update(rf.idx(), None).update(rt.idx(), mb2[rf.idx()]));
        assert(after[to] == Some(p));
        let u1 = after.update(to, None).update(from, after[to]);
        assert(back == u1.update(rt.idx(), None).update(rf.idx(), u1[rt.idx()]));
        assert forall|i: int| 0 <= i < 64 implies back[i] == mb[i] by {
            if i == from {
            } else if i == to {
            } else if i == rf.idx() {
            } else if i == rt.idx() {
            } else {
            }
        }
    } else if m.spec_is_promotion() {
        assert(p == ColoredPiece { piece: Piece::Pawn, color: us });
        assert forall|i: int| 0 <= i < 64 implies back[i] == mb[i] by {
            if i == from {
            } else if i == to {
            } else {
            }
        }
    } else {
        assert forall|i: int| 0 <= i < 64 implies back[i] == mb[i] by {
            if i == from {
            } else if i == to {
            } else if i == cap_sq(m, us) {
            } else {
            }
        }
    }
}

/// The pawn-attack set of `sq` for `us`, as [`pawn_attacks`] returns it.
pub open spec fn pawn_attacks_spec_bits(sq: Sq, us: Color) -> u64 {
    leap_bb(file_of(sq.idx()), rank_of(sq.idx()), crate::attacks::pawn_offsets(us))
}


proof fn lemma_bits_determine(a: u64, b: u64)
    requires
        forall|i: int| 0 <= i < 64 ==> (#[trigger] bit(a, i) <==> bit(b, i)),
    ensures
        a == b,
{
    lemma_bits_eq_bv(a, b);
}

proof fn lemma_bits_eq_bv(a: u64, b: u64)
    by (bit_vector)
    requires
        bit(a, 0) == bit(b, 0),
        bit(a, 1) == bit(b, 1),
        bit(a, 2) == bit(b, 2),
        bit(a, 3) == bit(b, 3),
        bit(a, 4) == bit(b, 4),
        bit(a, 5) == bit(b, 5),
        bit(a, 6) == bit(b, 6),
        bit(a, 7) == bit(b, 7),
        bit(a, 8) == bit(b, 8),
        bit(a, 9) == bit(b, 9),
        bit(a, 10) == bit(b, 10),
        bit(a, 11) == bit(b, 11),
        bit(a, 12) == bit(b, 12),
        bit(a, 13) == bit(b, 13),
        bit(a, 14) == bit(b, 14),
        bit(a, 15) == bit(b, 15),
        bit(a, 16) == bit(b, 16),
        bit(a, 17) == bit(b, 17),
        bit(a, 18) == bit(b, 18),
        bit(a, 19) == bit(b, 19),
        bit(a, 20) == bit(b, 20),
        bit(a, 21) == bit(b, 21),
        bit(a, 22) == bit(b, 22),
        bit(a, 23) == bit(b, 23),
        bit(a, 24) == bit(b, 24),
        bit(a, 25) == bit(b, 25),
        bit(a, 26) == bit(b, 26),
        bit(a, 27) == bit(b, 27),
        bit(a, 28) == bit(b, 28),
        bit(a, 29) == bit(b, 29),
        bit(a, 30) == bit(b, 30),
        bit(a, 31) == bit(b, 31),
        bit(a, 32) == bit(b, 32),
        bit(a, 33) == bit(b, 33),
        bit(a, 34) == bit(b, 34),
        bit(a, 35) == bit(b, 35),
        bit(a, 36) == bit(b, 36),
        bit(a, 37) == bit(b, 37),
        bit(a, 38) == bit(b, 38),
        bit(a, 39) == bit(b, 39),
        bit(a, 40) == bit(b, 40),
        bit(a, 41) == bit(b, 41),
        bit(a, 42) == bit(b, 42),
        bit(a, 43) == bit(b, 43),
        bit(a, 44) == bit(b, 44),
        bit(a, 45) == bit(b, 45),
        bit(a, 46) == bit(b, 46),
        bit(a, 47) == bit(b, 47),
        bit(a, 48) == bit(b, 48),
        bit(a, 49) == bit(b, 49),
        bit(a, 50) == bit(b, 50),
        bit(a, 51) == bit(b, 51),
        bit(a, 52) == bit(b, 52),
        bit(a, 53) == bit(b, 53),
        bit(a, 54) == bit(b, 54),
        bit(a, 55) == bit(b, 55),
        bit(a, 56) == bit(b, 56),
        bit(a, 57) == bit(b, 57),
        bit(a, 58) == bit(b, 58),
        bit(a, 59) == bit(b, 59),
        bit(a, 60) == bit(b, 60),
        bit(a, 61) == bit(b, 61),
        bit(a, 62) == bit(b, 62),
        bit(a, 63) == bit(b, 63),
    ensures
        a == b,
{
}

/// Two well-formed boards with the same mailbox have the same bitboards.
pub proof fn lemma_same_mailbox_bits(b1: Board, b2: Board)
    requires
        b1.wf(),
        b2.wf(),
        b1.mailbox@ == b2.mailbox@,
    ensures
        b1.bit_colors == b2.bit_colors,
        b1.bit_pieces == b2.bit_pieces,
{
    assert forall|c: int| 0 <= c < 2 implies b1.bit_colors[c] == b2.bit_colors[c] by {
        assert forall|i: int| 0 <= i < 64 implies (#[trigger] bit(b1.bit_colors[c], i) <==> bit(
            b2.bit_colors[c],
            i,
        )) by {
            assert(b1.mailbox@[i] == b2.mailbox@[i]);
        }
        lemma_bits_determine(b1.bit_colors[c], b2.bit_colors[c]);
    }
    assert forall|k: int| 0 <= k < 6 implies b1.bit_pieces[k] == b2.bit_pieces[k] by {
        assert forall|i: int| 0 <= i < 64 implies (#[trigger] bit(b1.bit_pieces[k], i) <==> bit(
            b2.bit_pieces[k],
            i,
        )) by {
            assert(b1.mailbox@[i] == b2.mailbox@[i]);
        }
        lemma_bits_determine(b1.bit_pieces[k], b2.bit_pieces[k]);
    }
    assert(b1.bit_colors =~= b2.bit_colors);
    assert(b1.bit_pieces =~= b2.bit_pieces);
}

/// Two well-formed boards with the same model are the same board: the bitboards are
/// determined by the mailbox.
pub proof fn lemma_view_determines(b1: Board, b2: Board)
    requires
        b1.wf(),
        b2.wf(),
        b1@ == b2@,
    ensures
        b1 == b2,
{
    match (b1.en_passant_target_sq, b2.en_passant_target_sq) {
        (Some(s1), Some(s2)) => {
            crate::square::lemma_choose_sq(s1, s1.idx());
            crate::square::lemma_choose_sq(s2, s1.idx());
        },
        _ => {},
    }
    lemma_same_mailbox_bits(b1, b2);
    assert(b1.mailbox =~= b2.mailbox);
}

} // verus!
