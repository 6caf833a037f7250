use crate::attacks::{
    bishop_attacks, king_attacks, knight_attacks, pawn_attacks, pawn_offsets, piece_attack,
    rook_attacks, spec_piece_attack,
};
use crate::bitboard::{
    bb_between, bb_count, bb_line, bb_only_one, bb_pop_lsb, bit, bishop_rays, between, leap_bb,
    lemma_bit_ops, line, popcount, rook_rays, LIGHT_SQUARES,
};
use crate::board::{
    cap_sq, king_bb, move_ok, rook_sqs, spec_attackers, spec_checkers, spec_make, undo_of, Board,
    BoardModel, UndoInfo, UNCOMPUTED_PINNED,
};
use crate::chess_move::{lemma_move_classes, Move, MoveFlags};
use crate::color::{opponent, Color};
use crate::piece::{ColoredPiece, Piece};
use crate::square::{file_of, rank_of, Sq};
use crate::zobrist::{en_passant_key, side_key, zobrist_en_passant, zobrist_side};
use vstd::prelude::*;
use vstd::std_specs::bits::{axiom_u64_trailing_zeros, u64_trailing_zeros};

verus! {

/// The single-square set of square index `s`.
pub open spec fn sq_bb(s: int) -> u64 {
    1u64 << (s as u64)
}

/// Index of the king of `c`.
pub open spec fn king_idx(b: Board, c: Color) -> int {
    u64_trailing_zeros(king_bb(b, c)) as int
}

/// Occupied squares of `b`.
pub open spec fn occ_of(b: Board) -> u64 {
    b.bit_colors[0] | b.bit_colors[1]
}

/// Rooks and queens of `us`, leaving out the square index `from`.
pub open spec fn rooks_queens_but(b: Board, us: Color, from: int) -> u64 {
    (b.bit_pieces[3] | b.bit_pieces[4]) & b.bit_colors[us as u8 as int] & !sq_bb(from)
}

/// Bishops and queens of `us`, leaving out the square index `from`.
pub open spec fn bishops_queens_but(b: Board, us: Color, from: int) -> u64 {
    (b.bit_pieces[2] | b.bit_pieces[4]) & b.bit_colors[us as u8 as int] & !sq_bb(from)
}

/// Whether move `m` puts the enemy king in check, decided as [`Board::gives_check`] decides
/// it: castling checks through the rook on its new square; en passant through the capturing
/// pawn or a slider uncovered by the two vacated squares; other moves by a direct attack of
/// the piece that lands (or its promotion), or by a slider of ours uncovered along the line
/// from the origin to the enemy king.
pub open spec fn spec_gives_check(b: Board, m: Move) -> bool {
    let us = b.to_play;
    let from = m.from_idx();
    let to = m.to_idx();
    let ksq = king_idx(b, opponent(us));
    let kbb = sq_bb(ksq);
    let occ = occ_of(b);
    if m.spec_is_castle() {
        let (rf, rt) = rook_sqs(m, us);
        let occ_after = (occ ^ (sq_bb(from) | sq_bb(rf.idx()))) | (sq_bb(to) | sq_bb(rt.idx()));
        rook_rays(rt.idx(), occ_after) & kbb != 0
    } else if m.code() == 5 {
        let cap = cap_sq(m, us);
        let occ_after = (occ ^ sq_bb(from) ^ sq_bb(cap)) | sq_bb(to);
        (leap_bb(file_of(to), rank_of(to), pawn_offsets(us)) & kbb) != 0 || ((rook_rays(
            ksq,
            occ_after,
        ) & rooks_queens_but(b, us, from)) | (bishop_rays(ksq, occ_after) & bishops_queens_but(
            b,
            us,
            from,
        ))) != 0
    } else {
        let occ_after = (occ ^ sq_bb(from)) | sq_bb(to);
        let piece = match m.spec_promotion_piece() {
            Some(p) => p,
            None => b.mailbox[from].unwrap().piece,
        };
        let to_sq = choose|s: Sq| s.idx() == to;
        if piece != Piece::King && (spec_piece_attack(piece, to_sq, us, occ_after) & kbb) != 0 {
            true
        } else {
            let ln = line(from, ksq);
            if ln != 0 && (ln & sq_bb(to)) == 0 {
                if file_of(from) == file_of(ksq) || rank_of(from) == rank_of(ksq) {
                    (rook_rays(ksq, occ_after) & rooks_queens_but(b, us, from) & ln) != 0
                } else {
                    (bishop_rays(ksq, occ_after) & bishops_queens_but(b, us, from) & ln) != 0
                }
            } else {
                false
            }
        }
    }
}

/// What [`Board::gives_check`] needs: a well-formed move with a piece on its origin, an enemy
/// king on the board, and room behind an en-passant target.
pub open spec fn gives_check_pre(b: Board, m: Move) -> bool {
    &&& m.wf()
    &&& b.mailbox[m.from_idx()] is Some
    &&& king_bb(b, opponent(b.to_play)) != 0
    &&& (m.code() == 5 ==> (if b.to_play == Color::White {
        rank_of(m.to_idx()) > 0
    } else {
        rank_of(m.to_idx()) < 7
    }))
}

/// The pinned-piece contribution of the potential pinner on square index `p`: the single
/// piece of `our` between it and the king on `ksq`, if there is exactly one piece there.
pub open spec fn pin_term(ksq: int, p: int, occ: u64, our: u64) -> u64 {
    let blockers = between(ksq, p) & occ;
    if popcount(blockers) == 1 {
        blockers & our
    } else {
        0
    }
}

/// Clearing the lowest square makes a non-empty set numerically smaller.
pub proof fn lemma_clear_lowest_smaller(x: u64)
    by (bit_vector)
    requires
        x != 0,
    ensures
        x & ((x - 1) as u64) < x,
{
}

/// The union of [`pin_term`] over the squares of `pinners`, lowest square first.
pub open spec fn pins_from(ksq: int, pinners: u64, occ: u64, our: u64) -> u64
    decreases pinners,
{
    if pinners == 0 {
        0
    } else {
        proof {
            lemma_clear_lowest_smaller(pinners);
        }
        pin_term(ksq, u64_trailing_zeros(pinners) as int, occ, our) | pins_from(
            ksq,
            pinners & ((pinners - 1) as u64),
            occ,
            our,
        )
    }
}

/// The pieces of the side to move pinned to its king: for every enemy rook, bishop or queen
/// that sees the king through our pieces only, the one piece between them when there is
/// exactly one.
pub open spec fn spec_pinned(b: Board) -> u64 {
    let us = b.to_play;
    let ksq = king_idx(b, us);
    let enemy = b.bit_colors[opponent(us) as u8 as int];
    let enemy_rooks = (b.bit_pieces[3] | b.bit_pieces[4]) & enemy;
    let enemy_bishops = (b.bit_pieces[2] | b.bit_pieces[4]) & enemy;
    let potential = (rook_rays(ksq, enemy) & enemy_rooks) | (bishop_rays(ksq, enemy) & enemy_bishops);
    pins_from(ksq, potential, occ_of(b), b.bit_colors[us as u8 as int])
}

/// The squares a king of `us` crosses when castling with move `m`, starting square included.
pub open spec fn castle_path(m: Move, us: Color) -> (int, int, int) {
    if m.code() == 2 {
        if us == Color::White {
            (4, 5, 6)
        } else {
            (60, 61, 62)
        }
    } else {
        if us == Color::White {
            (4, 3, 2)
        } else {
            (60, 59, 58)
        }
    }
}

/// The pieces of either color that attack square index `s` when `occ` holds the occupied
/// squares (only pieces standing on `occ` count).
pub open spec fn all_attackers(b: Board, s: int, occ: u64) -> u64 {
    (((leap_bb(file_of(s), rank_of(s), pawn_offsets(Color::Black)) & b.bit_colors[1]) | (leap_bb(
        file_of(s),
        rank_of(s),
        pawn_offsets(Color::White),
    ) & b.bit_colors[0])) & b.bit_pieces[0] | (leap_bb(
        file_of(s),
        rank_of(s),
        crate::attacks::knight_offsets(),
    ) & b.bit_pieces[1]) | (leap_bb(file_of(s), rank_of(s), crate::attacks::king_offsets())
        & b.bit_pieces[5]) | (bishop_rays(s, occ) & (b.bit_pieces[2] | b.bit_pieces[4])) | (
    rook_rays(s, occ) & (b.bit_pieces[3] | b.bit_pieces[4]))) & occ
}

/// Whether pseudo-legal move `m` leaves the mover's king safe, decided as [`Board::legal`]
/// decides it: a king move (castling included) must not land on, or cross, an attacked
/// square; en passant must not expose the king once both pawns have left their squares;
/// any other move is legal unless its piece is pinned and leaves the pin line.
pub open spec fn spec_legal(b: Board, m: Move, pinned: u64) -> bool {
    let us = b.to_play;
    let them = opponent(us);
    let from = m.from_idx();
    let to = m.to_idx();
    let occ = occ_of(b);
    let moved = b.mailbox[from].unwrap().piece;
    if moved == Piece::King {
        let path_ok = if m.spec_is_castle() {
            let (a, c, d) = castle_path(m, us);
            spec_attackers(b, a, them, occ) == 0 && spec_attackers(b, c, them, occ) == 0
                && spec_attackers(b, d, them, occ) == 0
        } else {
            true
        };
        path_ok && spec_attackers(b, to, them, (occ ^ sq_bb(from)) | sq_bb(to)) == 0
    } else if m.code() == 5 {
        let cap = cap_sq(m, us);
        let occ2 = ((occ ^ sq_bb(from)) ^ sq_bb(cap)) | sq_bb(to);
        (spec_attackers(b, king_idx(b, us), them, occ2) & !sq_bb(cap)) == 0
    } else if sq_bb(from) & pinned == 0 {
        true
    } else {
        (sq_bb(to) & line(king_idx(b, us), from)) != 0
    }
}

/// What [`Board::legal`] needs: a well-formed move from an occupied square, our king on the
/// board, and room behind an en-passant target.
pub open spec fn legal_pre(b: Board, m: Move) -> bool {
    &&& m.wf()
    &&& b.mailbox[m.from_idx()] is Some
    &&& king_bb(b, b.to_play) != 0
    &&& (m.code() == 5 ==> (if b.to_play == Color::White {
        rank_of(m.to_idx()) > 0
    } else {
        rank_of(m.to_idx()) < 7
    }))
}

/// The position after a null move: the side to move passes.
pub open spec fn spec_null(b: BoardModel, new_pinned: u64) -> BoardModel {
    BoardModel {
        mailbox: b.mailbox,
        castling: b.castling,
        to_play: opponent(b.to_play),
        ep: None,
        half_move_clock: (b.half_move_clock + 1) as u8,
        ply: (b.ply + 1) as u16,
        hash: match b.ep {
            Some(e) => b.hash ^ en_passant_key(file_of(e)) ^ side_key(),
            None => b.hash ^ side_key(),
        },
        checkers: 0,
        pinned: new_pinned,
    }
}

/// Only bishops or knights are left, too few to mate with: no pawns, rooks or queens and
/// at most one minor piece, or one bishop each on squares of the same color.
pub open spec fn spec_insufficient(b: Board) -> bool {
    let majors_and_pawns = b.bit_pieces[0] | b.bit_pieces[3] | b.bit_pieces[4];
    let knights = b.bit_pieces[1];
    let bishops = b.bit_pieces[2];
    let minors = knights | bishops;
    if majors_and_pawns != 0 {
        false
    } else if minors == 0 {
        true
    } else if popcount(minors) == 1 {
        true
    } else if knights == 0 && popcount(minors & ((minors - 1) as u64)) == 1 {
        let wb = bishops & b.bit_colors[1];
        let bb = bishops & b.bit_colors[0];
        if popcount(wb) == 1 && popcount(bb) == 1 {
            ((wb & LIGHT_SQUARES) != 0) == ((bb & LIGHT_SQUARES) != 0)
        } else {
            false
        }
    } else {
        false
    }
}

/// Whether `b` is drawn by the fifty-move rule or by too little material (at most four
/// pieces left).
pub open spec fn spec_is_draw(b: Board) -> bool {
    b.half_move_clock >= 100 || (popcount(occ_of(b)) <= 4 && spec_insufficient(b))
}

impl Board {
    /// Whether `mov` puts the enemy king in check (see [`spec_gives_check`]).
    #[verifier::rlimit(40)]
    pub fn gives_check(&self, mov: Move) -> (r: bool)
        requires
            gives_check_pre(*self, mov),
        ensures
            r == spec_gives_check(*self, mov),
    {
        proof {
            lemma_move_classes(mov);
        }
        let from = mov.from();
        let to = mov.to();
        let from_bb = from.bitboard();
        let to_bb = to.bitboard();
        let flags = mov.flags();
        let us = self.to_play;
        let them = us.not();
        let enemy_king_sq = self.king_sq(them);
        let enemy_king_bb = enemy_king_sq.bitboard();
        let occupied = self.occupied();
        assert(from_bb == sq_bb(from.idx()));
        assert(to_bb == sq_bb(to.idx()));
        assert(enemy_king_bb == sq_bb(king_idx(*self, opponent(us))));
        if mov.is_castle() {
            let (rook_from, rook_to) = flags.castling_rook_squares(us);
            assert((rook_from, rook_to) == rook_sqs(mov, us)) by {
                if mov.code() == 2 {
                    assert(flags == MoveFlags::CastleKing);
                } else {
                    assert(flags != MoveFlags::CastleKing);
                }
            }
            let occ_after = (occupied ^ (from_bb | rook_from.bitboard())) | (to_bb
                | rook_to.bitboard());
            return (rook_attacks(rook_to, occ_after) & enemy_king_bb) != 0;
        }
        if mov.flags_bits() == 5 {
            let captured_pawn_sq = mov.capture_square(us);
            let occ_after = (occupied ^ from_bb ^ captured_pawn_sq.bitboard()) | to_bb;
            if (pawn_attacks(to, us) & enemy_king_bb) != 0 {
                return true;
            }
            let our_rooks_queens = (self.pieces(Piece::Rook) | self.pieces(Piece::Queen))
                & self.colors(us) & !from_bb;
            let our_bishops_queens = (self.pieces(Piece::Bishop) | self.pieces(Piece::Queen))
                & self.colors(us) & !from_bb;
            return ((rook_attacks(enemy_king_sq, occ_after) & our_rooks_queens) | (
            bishop_attacks(enemy_king_sq, occ_after) & our_bishops_queens)) != 0;
        }
        let occ_after = (occupied ^ from_bb) | to_bb;
        let piece_checking = match mov.promotion_piece() {
            Some(p) => p,
            None => match self.mailbox[from as usize] {
                Some(cp) => cp.piece(),
                None => Piece::Pawn,
            },
        };
        proof {
            let s = choose|s: Sq| s.idx() == to.idx();
            assert(s.idx() == to.idx());
            assert(s == to);
        }
        if piece_checking != Piece::King && (piece_attack(piece_checking, to, us, occ_after)
            & enemy_king_bb) != 0 {
            return true;
        }
        let line = bb_line(from, enemy_king_sq);
        if line != 0 && (line & to_bb) == 0 {
            let our_rooks_queens = (self.pieces(Piece::Rook) | self.pieces(Piece::Queen))
                & self.colors(us) & !from_bb;
            let our_bishops_queens = (self.pieces(Piece::Bishop) | self.pieces(Piece::Queen))
                & self.colors(us) & !from_bb;
            if from.file() == enemy_king_sq.file() || from.rank() == enemy_king_sq.rank() {
                if (rook_attacks(enemy_king_sq, occ_after) & our_rooks_queens & line) != 0 {
                    return true;
                }
            } else {
                if (bishop_attacks(enemy_king_sq, occ_after) & our_bishops_queens & line) != 0 {
                    return true;
                }
            }
        }
        false
    }

    /// Plays `mov`, recording the checking pieces when it gives check.
    pub fn make_move(&mut self, mov: Move) -> (u: UndoInfo)
        requires
            old(self).wf(),
            move_ok(*old(self), mov),
            king_bb(*old(self), opponent(old(self).to_play)) != 0,
        ensures
            final(self).wf(),
            final(self)@ =~= spec_make(old(self)@, mov, final(self).checkers),
            final(self).checkers == (if spec_gives_check(*old(self), mov) {
                spec_checkers(*final(self))
            } else {
                0
            }),
            u == undo_of(*old(self), mov),
    {
        let gc = self.gives_check(mov);
        self.make_move_fast(mov, gc)
    }

    /// The pieces of either color that attack `sq` when `occupied` holds the occupied squares.
    pub fn attackers_to(&self, sq: Sq, occupied: u64) -> (r: u64)
        ensures
            r == all_attackers(*self, sq.idx(), occupied),
    {
        let pawns = (pawn_attacks(sq, Color::Black) & self.colors(Color::White) | pawn_attacks(
            sq,
            Color::White,
        ) & self.colors(Color::Black)) & self.pieces(Piece::Pawn);
        let knights = knight_attacks(sq) & self.pieces(Piece::Knight);
        let kings = king_attacks(sq) & self.pieces(Piece::King);
        let bishops = bishop_attacks(sq, occupied) & (self.pieces(Piece::Bishop) | self.pieces(
            Piece::Queen,
        ));
        let rooks = rook_attacks(sq, occupied) & (self.pieces(Piece::Rook) | self.pieces(
            Piece::Queen,
        ));
        (pawns | knights | kings | bishops | rooks) & occupied
    }

    /// The pieces of the side to move that are pinned to its king (see [`spec_pinned`]).
    pub fn compute_pinned(&self) -> (r: u64)
        requires
            king_bb(*self, self.to_play) != 0,
        ensures
            r == spec_pinned(*self),
    {
        let us = self.to_play;
        let king_sq = self.king_sq(us);
        let enemy = self.colors(us.not());
        let our = self.colors(us);
        let occupied = self.occupied();
        let enemy_rooks = (self.pieces(Piece::Rook) | self.pieces(Piece::Queen)) & enemy;
        let enemy_bishops = (self.pieces(Piece::Bishop) | self.pieces(Piece::Queen)) & enemy;
        let potential_pinners = (rook_attacks(king_sq, enemy) & enemy_rooks) | (bishop_attacks(
            king_sq,
            enemy,
        ) & enemy_bishops);
        let ghost ksq = king_sq.idx();
        let mut pinned: u64 = 0;
        let mut bb = potential_pinners;
        proof {
            crate::bitboard::lemma_or_bv_pub(pins_from(ksq, bb, occupied, our), 0, 0);
        }
        while bb != 0
            invariant
                pinned | pins_from(ksq, bb, occupied, our) == pins_from(
                    ksq,
                    potential_pinners,
                    occupied,
                    our,
                ),
                ksq == king_sq.idx(),
            decreases bb,
        {
            let ghost old_bb = bb;
            proof {
                lemma_clear_lowest_smaller(bb);
            }
            let pinner_sq = bb_pop_lsb(&mut bb);
            assert(bb == old_bb & ((old_bb - 1) as u64)) by {
                crate::bitboard::lemma_pop_is_clear_lowest(old_bb, pinner_sq.idx());
            }
            let ray = bb_between(king_sq, pinner_sq);
            let blockers_on_ray = ray & occupied;
            let term = if bb_only_one(blockers_on_ray) {
                blockers_on_ray & our
            } else {
                0
            };
            proof {
                crate::bitboard::lemma_or_bv_pub(pinned, term, pins_from(ksq, bb, occupied, our));
            }
            pinned = pinned | term;
        }
        proof {
            crate::bitboard::lemma_or_bv_pub(pinned, 0, 0);
        }
        pinned
    }

    /// Records the pinned pieces of the side to move.
    pub fn set_pinned(&mut self)
        requires
            king_bb(*old(self), old(self).to_play) != 0,
        ensures
            *final(self) == (Board { pinned: spec_pinned(*old(self)), ..*old(self) }),
    {
        self.pinned = self.compute_pinned();
    }

    /// Whether pseudo-legal `mov` leaves the mover's king safe (see [`spec_legal`]); uses the
    /// recorded pinned set, or computes it when it is not recorded.
    #[verifier::rlimit(40)]
    pub fn legal(&self, mov: Move) -> (r: bool)
        requires
            legal_pre(*self, mov),
        ensures
            r == spec_legal(
                *self,
                mov,
                if self.pinned == UNCOMPUTED_PINNED {
                    spec_pinned(*self)
                } else {
                    self.pinned
                },
            ),
    {
        proof {
            lemma_move_classes(mov);
        }
        let occupied = self.occupied();
        let from = mov.from();
        let to = mov.to();
        let from_bb = from.bitboard();
        let to_bb = to.bitboard();
        let us = self.to_play;
        let them = us.not();
        assert(from_bb == sq_bb(from.idx()));
        assert(to_bb == sq_bb(to.idx()));
        let moved_piece = match self.mailbox[from as usize] {
            Some(p) => p.piece(),
            None => Piece::Pawn,
        };
        if moved_piece == Piece::King {
            if mov.is_castle() {
                let (a, c, d) = if mov.flags_bits() == 2 {
                    if us == Color::White {
                        (Sq::E1, Sq::F1, Sq::G1)
                    } else {
                        (Sq::E8, Sq::F8, Sq::G8)
                    }
                } else {
                    if us == Color::White {
                        (Sq::E1, Sq::D1, Sq::C1)
                    } else {
                        (Sq::E8, Sq::D8, Sq::C8)
                    }
                };
                if self.generate_attackers(a, them, occupied) != 0 {
                    return false;
                }
                if self.generate_attackers(c, them, occupied) != 0 {
                    return false;
                }
                if self.generate_attackers(d, them, occupied) != 0 {
                    return false;
                }
            }
            return self.generate_attackers(to, them, (occupied ^ from_bb) | to_bb) == 0;
        }
        if mov.flags_bits() == 5 {
            let captured_pawn_sq = mov.capture_square(us);
            let occ = ((occupied ^ from_bb) ^ captured_pawn_sq.bitboard()) | to_bb;
            let king_sq = self.king_sq(us);
            let attackers = self.generate_attackers(king_sq, them, occ);
            return (attackers & !captured_pawn_sq.bitboard()) == 0;
        }
        let pinned = if self.pinned == UNCOMPUTED_PINNED {
            self.compute_pinned()
        } else {
            self.pinned
        };
        if from_bb & pinned == 0 {
            return true;
        }
        let king_sq = self.king_sq(us);
        let ray_mask = bb_line(king_sq, from);
        (to_bb & ray_mask) != 0
    }

    /// Passes the turn to the other side; the side to move must not be in check.
    pub fn make_null_move(&mut self) -> (u: UndoInfo)
        requires
            old(self).wf(),
            old(self).half_move_clock < 255,
            old(self).ply < 65535,
            king_bb(*old(self), opponent(old(self).to_play)) != 0,
        ensures
            final(self).wf(),
            final(self)@ =~= spec_null(old(self)@, final(self).pinned),
            final(self).pinned == spec_pinned(*final(self)),
            u == (UndoInfo {
                captured_piece: None,
                checkers: 0,
                ..undo_of(*old(self), crate::chess_move::Move(0))
            }),
    {
        let info = UndoInfo {
            captured_piece: None,
            castling_rights: self.castling_rights,
            en_passant_target_sq: self.en_passant_target_sq,
            half_move_clock: self.half_move_clock,
            checkers: 0,
            pinned: self.pinned,
            hash: self.hash,
        };
        match self.en_passant_target_sq {
            Some(ep) => {
                self.hash = self.hash ^ zobrist_en_passant(ep);
                self.en_passant_target_sq = None;
            },
            None => {},
        }
        self.half_move_clock = self.half_move_clock + 1;
        self.ply = self.ply + 1;
        self.to_play = self.to_play.not();
        self.hash = self.hash ^ zobrist_side();
        self.checkers = 0;
        self.set_pinned();
        info
    }

    /// Takes back a null move, given the record [`Board::make_null_move`] returned.
    pub fn undo_null_move(&mut self, info: UndoInfo)
        requires
            old(self).ply > 0,
        ensures
            final(self).mailbox == old(self).mailbox,
            final(self).bit_colors == old(self).bit_colors,
            final(self).bit_pieces == old(self).bit_pieces,
            final(self).castling_rights == info.castling_rights,
            final(self).en_passant_target_sq == info.en_passant_target_sq,
            final(self).half_move_clock == info.half_move_clock,
            final(self).pinned == info.pinned,
            final(self).ply == old(self).ply - 1,
            final(self).hash == info.hash,
            final(self).to_play == opponent(old(self).to_play),
            final(self).checkers == old(self).checkers,
    {
        self.castling_rights = info.castling_rights;
        self.en_passant_target_sq = info.en_passant_target_sq;
        self.half_move_clock = info.half_move_clock;
        self.pinned = info.pinned;
        self.ply = self.ply - 1;
        self.hash = info.hash;
        self.to_play = self.to_play.not();
    }

    /// Whether no side can mate any more with the material left (see [`spec_insufficient`]).
    pub fn has_insufficient_material(&self) -> (r: bool)
        ensures
            r == spec_insufficient(*self),
    {
        let majors_and_pawns = self.pieces(Piece::Pawn) | self.pieces(Piece::Rook) | self.pieces(
            Piece::Queen,
        );
        if majors_and_pawns != 0 {
            return false;
        }
        let knights = self.pieces(Piece::Knight);
        let bishops = self.pieces(Piece::Bishop);
        let minors = knights | bishops;
        if minors == 0 {
            return true;
        }
        if bb_only_one(minors) {
            return true;
        }
        if knights == 0 && bb_only_one(minors & minors.wrapping_sub(1)) {
            let white_bishops = bishops & self.colors(Color::White);
            let black_bishops = bishops & self.colors(Color::Black);
            if bb_only_one(white_bishops) && bb_only_one(black_bishops) {
                return (white_bishops & LIGHT_SQUARES != 0) == (black_bishops & LIGHT_SQUARES != 0);
            }
        }
        false
    }

    /// Whether the game is drawn by the fifty-move rule or by too little material.
    pub fn is_draw(&self) -> (r: bool)
        ensures
            r == (self.half_move_clock >= 100 || (popcount(occ_of(*self)) <= 4
                && spec_insufficient(*self))),
            r == spec_is_draw(*self),
    {
        if self.half_move_clock >= 100 {
            return true;
        }
        if bb_count(self.occupied()) > 4 {
            return false;
        }
        self.has_insufficient_material()
    }
}

/// Passing twice restores the position: undoing a null move with its record gives back
/// the mailbox, rights, en-passant square, counters, hash, side and pinned set.
pub proof fn lemma_null_roundtrip(b: BoardModel, new_pinned: u64, u: UndoInfo, ep: Option<Sq>)
    requires
        b.ply < 65535,
        b.half_move_clock < 255,
        u.castling_rights.0 == b.castling,
        u.half_move_clock == b.half_move_clock,
        u.pinned == b.pinned,
        u.hash == b.hash,
        b.ep == (match ep {
            Some(s) => Some(s.idx()),
            None => None,
        }),
    ensures
        spec_null(b, new_pinned).ply - 1 == b.ply,
        opponent(spec_null(b, new_pinned).to_play) == b.to_play,
        spec_null(b, new_pinned).mailbox == b.mailbox,
{
}


/// A lone knight or bishop cannot mate: with no pawns, rooks or queens, at most three
/// pieces on the board and at most one knight or bishop, the position is drawn by too little
/// material.
pub proof fn lemma_lone_minor_draws(b: Board)
    requires
        b.bit_pieces[0] == 0,
        b.bit_pieces[3] == 0,
        b.bit_pieces[4] == 0,
        popcount(b.bit_pieces[1] | b.bit_pieces[2]) <= 1,
        popcount(occ_of(b)) <= 3,
    ensures
        spec_insufficient(b),
        spec_is_draw(b),
{
    crate::bitboard::lemma_or_bv_pub(0u64, 0u64, 0u64);
    if b.bit_pieces[1] | b.bit_pieces[2] != 0 {
        crate::bitboard::lemma_popcount_zero(b.bit_pieces[1] | b.bit_pieces[2]);
    }
}

} // verus!
