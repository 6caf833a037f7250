use crate::attacks::{king_offsets, knight_offsets, pawn_offsets, piece_attack, spec_piece_attack};
use crate::bitboard::{
    bb_between, bb_lsb, bb_several, between, bishop_rays, bit, leap_bb, popcount, rook_rays,
};
use crate::board::{cap_sq, king_bb, pseudo_ok, rook_sqs, Board};
use crate::chess_move::move_none;
use vstd::std_specs::bits::u64_trailing_zeros;
use crate::castling::{BLACK_00, BLACK_000, WHITE_00, WHITE_000};
use crate::chess_move::{lemma_move_classes, Move, MoveFlags};
use crate::square::lemma_choose_sq;
use crate::color::{opponent, Black, Color, Player, White};
use crate::piece::{ColoredPiece, Piece};
use crate::square::{file_of, rank_of, Sq};
use vstd::prelude::*;

verus! {

/// Most moves any position has room for.
pub const MAX_MOVES: usize = 256;

/// A move with an ordering score.
#[derive(Copy, Clone, Debug, PartialEq, Eq, Structural, Default)]
pub struct ScoredMove {
    pub mov: Move,
    pub score: i16,
}

impl ScoredMove {
    /// `mov` with score 0.
    pub fn new(mov: Move) -> (r: Self)
        ensures
            r.mov == mov,
            r.score == 0,
    {
        ScoredMove { mov, score: 0 }
    }

    /// Whether this move was ordered among the losing captures.
    pub fn is_bad_capture(&self) -> (r: bool)
        ensures
            r == (self.score < 0),
    {
        self.score < 0
    }
}

/// A list of scored moves.
pub struct MoveList {
    pub moves: Vec<ScoredMove>,
}

impl MoveList {
    /// An empty list.
    pub fn new() -> (r: Self)
        ensures
            r.moves@.len() == 0,
    {
        MoveList { moves: Vec::new() }
    }

    /// Keeps the first `n` moves and drops the rest.
    pub fn truncate(&mut self, n: usize)
        ensures
            n <= old(self).moves@.len() ==> final(self).moves@ == old(self).moves@.subrange(0, n as int),
            n > old(self).moves@.len() ==> final(self).moves@ == old(self).moves@,
    {
        self.moves.truncate(n);
    }

    /// Removes every move.
    pub fn clear(&mut self)
        ensures
            final(self).moves@.len() == 0,
    {
        self.moves.clear();
    }

    /// The moves, in the order they were added.
    pub fn as_slice(&self) -> (r: &[ScoredMove])
        ensures
            r@ == self.moves@,
    {
        self.moves.as_slice()
    }

    /// Number of moves.
    pub fn len(&self) -> (r: usize)
        ensures
            r == self.moves@.len(),
    {
        self.moves.len()
    }

    /// Whether the list holds no move.
    pub fn is_empty(&self) -> (r: bool)
        ensures
            r == (self.moves@.len() == 0),
    {
        self.moves.len() == 0
    }

    /// Appends the move from `from` to `to` of kind `flags`, scored 0.
    pub fn push(&mut self, from: Sq, to: Sq, flags: MoveFlags)
        ensures
            final(self).moves@ == old(self).moves@.push(ScoredMove { mov: Move::spec_new(from, to, flags), score: 0 }),
    {
        let m = Move::new(from, to, flags);
        self.moves.push(ScoredMove::new(m));
    }

    /// Appends the four promotions from `from` to `to` (queen, rook, bishop, knight), as
    /// captures when `is_capture`.
    pub fn push_promotions(&mut self, from: Sq, to: Sq, is_capture: bool)
        ensures
            final(self).moves@.len() == old(self).moves@.len() + 4,
            forall|i: int| 0 <= i < old(self).moves@.len() ==> final(self).moves@[i] == old(self).moves@[i],
            final(self).moves@[old(self).moves@.len() as int].mov == Move::spec_new(from, to, if is_capture { MoveFlags::PromoCaptureQueen } else { MoveFlags::PromoQueen }),
            final(self).moves@[old(self).moves@.len() as int + 1].mov == Move::spec_new(from, to, if is_capture { MoveFlags::PromoCaptureRook } else { MoveFlags::PromoRook }),
            final(self).moves@[old(self).moves@.len() as int + 2].mov == Move::spec_new(from, to, if is_capture { MoveFlags::PromoCaptureBishop } else { MoveFlags::PromoBishop }),
            final(self).moves@[old(self).moves@.len() as int + 3].mov == Move::spec_new(from, to, if is_capture { MoveFlags::PromoCaptureKnight } else { MoveFlags::PromoKnight }),
    {
        if is_capture {
            self.push(from, to, MoveFlags::PromoCaptureQueen);
            self.push(from, to, MoveFlags::PromoCaptureRook);
            self.push(from, to, MoveFlags::PromoCaptureBishop);
            self.push(from, to, MoveFlags::PromoCaptureKnight);
        } else {
            self.push(from, to, MoveFlags::PromoQueen);
            self.push(from, to, MoveFlags::PromoRook);
            self.push(from, to, MoveFlags::PromoBishop);
            self.push(from, to, MoveFlags::PromoKnight);
        }
    }
}

/// Which moves a generation pass produces.
#[derive(Copy, Clone, Debug, PartialEq, Eq, Structural)]
pub enum GenType {
    /// Captures and promotions.
    Captures,
    /// Moves that neither capture nor promote.
    Quiets,
    /// All moves, for a side not in check.
    NonEvasions,
    /// All moves that may resolve a check.
    Evasions,
}

/// A generation pass chosen at compile time.
pub trait MoveGenType {
    /// The pass this type stands for, in specifications.
    spec fn pass() -> GenType;

    /// The pass this type stands for.
    fn gen_type() -> (r: GenType)
        ensures
            r == Self::pass(),
    ;
}

/// The captures-and-promotions pass.
pub struct Captures;

/// The quiet-moves pass.
pub struct Quiets;

/// The pass producing every move when not in check.
pub struct NonEvasions;

/// The pass producing the moves that may resolve a check.
pub struct Evasions;

impl MoveGenType for Captures {
    open spec fn pass() -> GenType {
        GenType::Captures
    }

    fn gen_type() -> (r: GenType) {
        GenType::Captures
    }
}

impl MoveGenType for Quiets {
    open spec fn pass() -> GenType {
        GenType::Quiets
    }

    fn gen_type() -> (r: GenType) {
        GenType::Quiets
    }
}

impl MoveGenType for NonEvasions {
    open spec fn pass() -> GenType {
        GenType::NonEvasions
    }

    fn gen_type() -> (r: GenType) {
        GenType::NonEvasions
    }
}

impl MoveGenType for Evasions {
    open spec fn pass() -> GenType {
        GenType::Evasions
    }

    fn gen_type() -> (r: GenType) {
        GenType::Evasions
    }
}

/// A generated move: of pseudo-legal shape, and for a knight, bishop, rook, queen or king
/// move other than castling, landing on a square that piece attacks.
pub open spec fn generated_ok(b: Board, m: Move) -> bool {
    &&& pseudo_ok(b, m)
    &&& (match b.mailbox[m.from_idx()] {
        Some(p) => (p.piece != Piece::Pawn && !m.spec_is_castle()) ==> bit(
            spec_piece_attack(p.piece, choose|s: Sq| s.idx() == m.from_idx(), b.to_play, b.bit_colors[0] | b.bit_colors[1]),
            m.to_idx(),
        ),
        None => true,
    })
}

/// Whether a pass of type `gen` keeps a move that captures (`capture`) or promotes (`promo`).
pub open spec fn kind_wanted(gen: GenType, capture: bool, promo: bool) -> bool {
    match gen {
        GenType::Captures => capture || promo,
        GenType::Quiets => !capture && !promo,
        _ => true,
    }
}

fn wanted(gen: GenType, capture: bool, promo: bool) -> (r: bool)
    ensures
        r == kind_wanted(gen, capture, promo),
{
    match gen {
        GenType::Captures => capture || promo,
        GenType::Quiets => !capture && !promo,
        _ => true,
    }
}

/// Whether `m` appears in `list` from position `start` on.
pub open spec fn listed(list: Seq<ScoredMove>, start: int, m: Move) -> bool {
    exists|i: int| start <= i < list.len() && #[trigger] list[i].mov == m
}

/// Whether square index `s` of `b` holds a piece of the side not to move.
pub open spec fn enemy_on(b: Board, s: int) -> bool {
    b.mailbox[s] is Some && b.mailbox[s].unwrap().color != b.to_play
}

/// A move of a knight, bishop, rook, queen or king of the side to move to a square it
/// attacks: quiet onto an empty square or a capture of an enemy piece, of a kind that a
/// pass of type `gen` keeps.
pub open spec fn piece_move(b: Board, gen: GenType, m: Move) -> bool {
    let from = m.from_idx();
    let to = m.to_idx();
    let us = b.to_play;
    &&& b.mailbox[from] matches Some(p) && p.color == us && p.piece != Piece::Pawn && bit(
        attack_from(p.piece, from, us, b.bit_colors[0] | b.bit_colors[1]),
        to,
    )
    &&& to != from
    &&& ((m.code() == 0 && b.mailbox[to] is None && kind_wanted(gen, false, false)) || (m.code()
        == 4 && enemy_on(b, to) && kind_wanted(gen, true, false)))
}

/// Whether `to` is one rank ahead of `from` for the side (White when `white`) and on a
/// neighbouring file: a square a pawn on `from` captures on.
pub open spec fn pawn_diagonal(from: int, to: int, white: bool) -> bool {
    &&& 0 <= to < 64
    &&& rank_of(to) == rank_of(from) + if white { 1int } else { -1int }
    &&& (file_of(to) == file_of(from) - 1 || file_of(to) == file_of(from) + 1)
}

/// A move of a pawn of the side to move, of a kind that a pass of type `gen` keeps: one
/// step onto an empty square (a promotion on the last rank), two steps from its start rank
/// over empty squares, a diagonal capture (a promotion on the last rank), or an en-passant
/// capture onto the en-passant target.
pub open spec fn pawn_move(b: Board, gen: GenType, m: Move) -> bool {
    let us = b.to_play;
    let white = us == Color::White;
    let from = m.from_idx();
    let to = m.to_idx();
    let fwd: int = if white { 8 } else { -8 };
    let last: int = if white { 7 } else { 0 };
    let c = m.code();
    &&& b.mailbox[from] == Some(ColoredPiece { piece: Piece::Pawn, color: us })
    &&& rank_of(from) != last
    &&& {
        ||| (to == from + fwd && b.mailbox[to] is None && if rank_of(to) == last {
            8 <= c <= 11 && kind_wanted(gen, false, true)
        } else {
            c == 0 && kind_wanted(gen, false, false)
        })
        ||| (rank_of(from) == (if white { 1int } else { 6int }) && b.mailbox[from + fwd] is None && to
            == from + 2 * fwd && b.mailbox[to] is None && c == 1 && kind_wanted(gen, false, false))
        ||| (pawn_diagonal(from, to, white) && enemy_on(b, to) && if rank_of(to) == last {
            12 <= c <= 15 && kind_wanted(gen, true, true)
        } else {
            c == 4 && kind_wanted(gen, true, false)
        })
        ||| (pawn_diagonal(from, to, white) && b.mailbox[to] is None && b@.ep == Some(to)
            && rank_of(to) != last && enemy_on(b, to - fwd) && to - fwd != from && c == 5
            && kind_wanted(gen, true, false))
    }
}

/// A castling move of the king of the side to move from its home square, which a pass of
/// type `gen` keeps when it keeps quiet moves: with the right to castle on that side, the
/// squares between king and rook empty and the rook at home.
pub open spec fn castle_move(b: Board, gen: GenType, m: Move) -> bool {
    let us = b.to_play;
    let white = us == Color::White;
    let home: int = if white { 4 } else { 60 };
    let rook = Some(ColoredPiece { piece: Piece::Rook, color: us });
    let k_right: u8 = if white { WHITE_00 } else { BLACK_00 };
    let q_right: u8 = if white { WHITE_000 } else { BLACK_000 };
    &&& b.mailbox[home] == Some(ColoredPiece { piece: Piece::King, color: us })
    &&& m.from_idx() == home
    &&& kind_wanted(gen, false, false)
    &&& {
        ||| (m.code() == 2 && m.to_idx() == home + 2 && b.castling_rights.0 & k_right == k_right
            && b.mailbox[home + 1] is None && b.mailbox[home + 2] is None && b.mailbox[home + 3]
            == rook)
        ||| (m.code() == 3 && m.to_idx() == home - 2 && b.castling_rights.0 & q_right == q_right
            && b.mailbox[home - 1] is None && b.mailbox[home - 2] is None && b.mailbox[home - 3]
            is None && b.mailbox[home - 4] == rook)
    }
}

/// The moves a pass of type `gen` produces: the pseudo-legal moves of the side to move of
/// the kinds the pass keeps, restricted to evasions by an evasion pass in check.
pub open spec fn produces(b: Board, gen: GenType, m: Move) -> bool {
    &&& pawn_move(b, gen, m) || piece_move(b, gen, m) || castle_move(b, gen, m)
    &&& evasion_ok(b, gen, m)
}

/// Every move of `list` from position `start` on is one that pass `gen` produces on `b`.
pub open spec fn all_produced(b: Board, gen: GenType, list: Seq<ScoredMove>, start: int) -> bool {
    forall|i: int| start <= i < list.len() ==> #[trigger] produces(b, gen, list[i].mov)
}

proof fn lemma_produced_push(b: Board, gen: GenType, old: Seq<ScoredMove>, new: Seq<ScoredMove>, start: int, x: ScoredMove)
    requires
        0 <= start,
        new == old.push(x),
        all_produced(b, gen, old, start),
        produces(b, gen, x.mov),
    ensures
        all_produced(b, gen, new, start),
{
    assert forall|i: int| start <= i < new.len() implies #[trigger] produces(b, gen, new[i].mov) by {
        if i < old.len() {
            assert(new[i] == old[i]);
        }
    }
}

proof fn lemma_produced_extends(b: Board, gen: GenType, a: Seq<ScoredMove>, c: Seq<ScoredMove>, start: int, mid: int)
    requires
        0 <= start,
        extends(a, c),
        start <= mid <= a.len(),
        all_produced(b, gen, a, start),
        all_produced(b, gen, c, a.len() as int),
    ensures
        all_produced(b, gen, c, start),
{
    assert forall|i: int| start <= i < c.len() implies #[trigger] produces(b, gen, c[i].mov) by {
        if i < a.len() {
            assert(c[i] == a[i]);
        }
    }
}

proof fn lemma_listed_from(l: Seq<ScoredMove>, a: int, b: int, m: Move)
    requires
        listed(l, a, m),
        b <= a,
    ensures
        listed(l, b, m),
{
    let i = choose|i: int| a <= i < l.len() && #[trigger] l[i].mov == m;
    assert(b <= i < l.len() && l[i].mov == m);
}

proof fn lemma_listed_extends(old: Seq<ScoredMove>, new: Seq<ScoredMove>, start: int, m: Move)
    requires
        extends(old, new),
        listed(old, start, m),
        0 <= start,
    ensures
        listed(new, start, m),
{
    let i = choose|i: int| start <= i < old.len() && #[trigger] old[i].mov == m;
    assert(start <= i < old.len() && old[i].mov == m);
    assert(new[i] == old[i]);
    assert(new[i].mov == m);
}

/// Every move of `list` from position `start` on is a generated move of `b`, and the moves
/// before `start` are those of `prefix`.
pub open spec fn list_ok(b: Board, list: Seq<ScoredMove>, start: int) -> bool {
    forall|i: int| start <= i < list.len() ==> #[trigger] generated_ok(b, list[i].mov)
}

/// `new` keeps every move of `old` in place, possibly followed by more.
pub open spec fn extends(old: Seq<ScoredMove>, new: Seq<ScoredMove>) -> bool {
    new.len() >= old.len() && forall|i: int| 0 <= i < old.len() ==> new[i] == old[i]
}

/// Which targets a move of a non-king piece may land on when in check: anywhere when not in
/// check, the checker or a square between it and the king under a single check, nowhere
/// under a double check.
struct EvasionMask {
    active: bool,
    mask: u64,
    double_check: bool,
}

/// Whether a pass of type `gen` on `b` is restricted to evasions: an evasion pass while in
/// check.
pub open spec fn evading(b: Board, gen: GenType) -> bool {
    gen == GenType::Evasions && b.checkers != 0
}

/// The squares a piece other than the king may move to under a single check: the checker,
/// or a square between it and the king (the checker alone when there is no king).
pub open spec fn block_mask(b: Board) -> u64 {
    let kb = king_bb(b, b.to_play);
    if kb == 0 {
        b.checkers
    } else {
        b.checkers | between(u64_trailing_zeros(kb) as int, u64_trailing_zeros(b.checkers) as int)
    }
}

/// Whether a pass of type `gen` lets a piece other than the king move to square `to`: any
/// square when not evading, a square of the block mask under a single check, none under a
/// double check.
pub open spec fn target_allowed(b: Board, gen: GenType, to: int) -> bool {
    !evading(b, gen) || (popcount(b.checkers) < 2 && bit(block_mask(b), to))
}

/// Whether move `m` is of a kind that a pass of type `gen` keeps when evading a check: king
/// steps always, castling never, en passant when it lands in the block mask or removes the
/// checker, other moves when they land in the block mask.
pub open spec fn evasion_ok(b: Board, gen: GenType, m: Move) -> bool {
    let us = b.to_play;
    let fwd: int = if us == Color::White { 8 } else { -8 };
    if !evading(b, gen) {
        true
    } else if m.spec_is_castle() {
        false
    } else if b.mailbox[m.from_idx()] matches Some(p) && p.piece == Piece::King {
        true
    } else if m.code() == 5 {
        popcount(b.checkers) < 2 && (bit(block_mask(b), m.to_idx()) || bit(b.checkers, m.to_idx() - fwd))
    } else {
        target_allowed(b, gen, m.to_idx())
    }
}

/// `ev` is the evasion mask of a pass of type `gen` on `b`.
spec fn mask_ok(ev: EvasionMask, b: Board, gen: GenType) -> bool {
    &&& ev.active == evading(b, gen)
    &&& ev.active ==> ev.double_check == (popcount(b.checkers) >= 2)
    &&& ev.active && !ev.double_check ==> ev.mask == block_mask(b)
}

proof fn lemma_allows(ev: EvasionMask, b: Board, gen: GenType, to: int)
    requires
        mask_ok(ev, b, gen),
    ensures
        (!ev.active || (!ev.double_check && bit(ev.mask, to))) == target_allowed(b, gen, to),
{
}

/// For a pawn move other than en passant, keeping it when evading depends on its target only.
proof fn lemma_evasion_pawn(b: Board, gen: GenType, m: Move)
    requires
        b.mailbox[m.from_idx()] == Some(ColoredPiece { piece: Piece::Pawn, color: b.to_play }),
        m.code() < 2 || m.code() == 4 || m.code() >= 8,
    ensures
        evasion_ok(b, gen, m) == target_allowed(b, gen, m.to_idx()),
{
    lemma_move_classes(m);
}

fn evasion_mask(board: &Board, gen: GenType) -> (r: EvasionMask)
    ensures
        r.active == evading(*board, gen),
        r.active ==> r.double_check == (popcount(board.checkers) >= 2),
        r.active && !r.double_check ==> r.mask == block_mask(*board),
{
    if gen != GenType::Evasions || board.checkers == 0 {
        return EvasionMask { active: false, mask: 0xffff_ffff_ffff_ffff, double_check: false };
    }
    if bb_several(board.checkers) {
        return EvasionMask { active: true, mask: 0, double_check: true };
    }
    let kb = board.color_piece(Piece::King, board.to_play);
    if kb == 0 {
        return EvasionMask { active: true, mask: board.checkers, double_check: false };
    }
    let king = bb_lsb(kb);
    let checker = bb_lsb(board.checkers);
    EvasionMask { active: true, mask: board.checkers | bb_between(king, checker), double_check: false }
}

impl EvasionMask {
    fn allows(&self, to: Sq) -> (r: bool)
        ensures
            r == (!self.active || (!self.double_check && bit(self.mask, to.idx()))),
    {
        !self.active || (!self.double_check && (self.mask >> (to as u8)) & 1 == 1)
    }
}

/// Appends the moves of the piece on `from` to target squares in `targets` (moves onto our
/// own pieces are skipped).
fn push_piece_moves(board: &Board, from: Sq, targets: u64, gen: GenType, ev: &EvasionMask, list: &mut MoveList)
    requires
        mask_ok(*ev, *board, gen),
        board.mailbox[from.idx()] matches Some(p) && p.color == board.to_play && p.piece != Piece::Pawn
            && targets == spec_piece_attack(p.piece, from, board.to_play, board.bit_colors[0] | board.bit_colors[1]),
    ensures
        final(list).moves@.len() >= old(list).moves@.len(),
        forall|i: int| 0 <= i < old(list).moves@.len() ==> final(list).moves@[i] == old(list).moves@[i],
        list_ok(*board, final(list).moves@, old(list).moves@.len() as int),
        forall|m: Move|
            piece_move(*board, gen, m) && evasion_ok(*board, gen, m) && m.from_idx() == from.idx() ==> #[trigger] listed(
                final(list).moves@,
                old(list).moves@.len() as int,
                m,
            ),
        all_produced(*board, gen, final(list).moves@, old(list).moves@.len() as int),
{
    let us = board.to_play;
    let ghost p = board.mailbox[from.idx()].unwrap();
    let ghost n0 = old(list).moves@.len() as int;
    let is_king = match board.mailbox[from as usize] {
        Some(q) => q.piece() == Piece::King,
        None => false,
    };
    let mut t: u8 = 0;
    while t < 64
        invariant
            t <= 64,
            board.mailbox[from.idx()] == Some(p),
            p.color == us,
            us == board.to_play,
            p.piece != Piece::Pawn,
            targets == spec_piece_attack(p.piece, from, board.to_play, board.bit_colors[0] | board.bit_colors[1]),
            list.moves@.len() >= old(list).moves@.len(),
            forall|i: int| 0 <= i < old(list).moves@.len() ==> list.moves@[i] == old(list).moves@[i],
            list_ok(*board, list.moves@, old(list).moves@.len() as int),
            n0 == old(list).moves@.len(),
            mask_ok(*ev, *board, gen),
            is_king == (p.piece == Piece::King),
            forall|m: Move|
                piece_move(*board, gen, m) && evasion_ok(*board, gen, m) && m.from_idx() == from.idx() && m.to_idx() < t
                    ==> #[trigger] listed(list.moves@, n0, m),
            all_produced(*board, gen, list.moves@, n0),
        decreases 64 - t,
    {
        let to = Sq::from_index(t);
        let ghost before = list.moves@;
        if (targets >> t) & 1 == 1 && t != from as u8 {
            let target = board.mailbox[t as usize];
            let flags = match target {
                None => Some(MoveFlags::Quiet),
                Some(q) => if q.color() != us { Some(MoveFlags::Capture) } else { None },
            };
            match flags {
                Some(fl) => {
                    let is_cap = fl == MoveFlags::Capture;
                    if wanted(gen, is_cap, false) && (ev.allows(to) || is_king) {
                        let ghost m = Move::spec_new(from, to, fl);
                        proof {
                            lemma_move_classes(m);
                            crate::chess_move::lemma_move_roundtrip(from, to, fl, m);
                            lemma_choose_sq(from, m.from_idx());
                            assert(bit(targets, t as int));
                        }
                        let ghost old_moves = list.moves@;
                        list.push(from, to, fl);
                        assert(generated_ok(*board, list.moves@[list.moves@.len() - 1].mov));
                        proof {
                            {
                                assert(piece_move(*board, gen, m));
                                assert(evasion_ok(*board, gen, m));
                                lemma_produced_push(*board, gen, old_moves, list.moves@, n0, ScoredMove { mov: m, score: 0 });
                            }
                        }
                    }
                },
                None => {},
            }
        }
        proof {
            {
                assert(extends(before, list.moves@));
                assert forall|m: Move|
                    piece_move(*board, gen, m) && evasion_ok(*board, gen, m) && m.from_idx() == from.idx()
                        && m.to_idx() < t + 1 implies #[trigger] listed(list.moves@, n0, m) by {
                    if m.to_idx() < t {
                        lemma_listed_extends(before, list.moves@, n0, m);
                    } else {
                        let fl = if board.mailbox[t as int] is None {
                            MoveFlags::Quiet
                        } else {
                            MoveFlags::Capture
                        };
                        let mm = Move::spec_new(from, to, fl);
                        crate::chess_move::lemma_move_roundtrip(from, to, fl, mm);
                        crate::chess_move::lemma_move_ext(m, mm);
                        assert(bit(targets, t as int));
                        assert(list.moves@.len() == before.len() + 1);
                        assert(list.moves@[before.len() as int].mov == m);
                    }
                }
            }
        }
        t += 1;
    }
    assert forall|m: Move| piece_move(*board, gen, m) && evasion_ok(*board, gen, m) && m.from_idx() == from.idx()
        implies #[trigger] listed(list.moves@, n0, m) by {
        lemma_move_classes(m);
    }
}


/// Appends `m` to `list` when it is a generated move.
fn push_ok(board: &Board, list: &mut MoveList, from: Sq, to: Sq, fl: MoveFlags, Ghost(start): Ghost<int>)
    requires
        generated_ok(*board, Move::spec_new(from, to, fl)),
        0 <= start <= old(list).moves@.len(),
        list_ok(*board, old(list).moves@, start),
    ensures
        final(list).moves@ == old(list).moves@.push(ScoredMove { mov: Move::spec_new(from, to, fl), score: 0 }),
        extends(old(list).moves@, final(list).moves@),
        list_ok(*board, final(list).moves@, start),
{
    list.push(from, to, fl);
    assert(forall|i: int| 0 <= i < old(list).moves@.len() ==> list.moves@[i] == old(list).moves@[i]);
}

/// Appends the four promotions from `from` to `to` when they are generated moves.
fn push_promos_ok(board: &Board, list: &mut MoveList, from: Sq, to: Sq, is_capture: bool, Ghost(start): Ghost<int>)
    requires
        generated_ok(*board, Move::spec_new(from, to, if is_capture { MoveFlags::PromoCaptureQueen } else { MoveFlags::PromoQueen })),
        generated_ok(*board, Move::spec_new(from, to, if is_capture { MoveFlags::PromoCaptureRook } else { MoveFlags::PromoRook })),
        generated_ok(*board, Move::spec_new(from, to, if is_capture { MoveFlags::PromoCaptureBishop } else { MoveFlags::PromoBishop })),
        generated_ok(*board, Move::spec_new(from, to, if is_capture { MoveFlags::PromoCaptureKnight } else { MoveFlags::PromoKnight })),
        0 <= start <= old(list).moves@.len(),
        list_ok(*board, old(list).moves@, start),
    ensures
        final(list).moves@.len() == old(list).moves@.len() + 4,
        extends(old(list).moves@, final(list).moves@),
        list_ok(*board, final(list).moves@, start),
        forall|m: Move|
            m.from_idx() == from.idx() && m.to_idx() == to.idx() && (if is_capture {
                12 <= m.code() <= 15
            } else {
                8 <= m.code() <= 11
            }) ==> #[trigger] listed(final(list).moves@, old(list).moves@.len() as int, m),
        forall|i: int|
            old(list).moves@.len() <= i < final(list).moves@.len() ==> {
                let m = #[trigger] final(list).moves@[i].mov;
                &&& m.from_idx() == from.idx()
                &&& m.to_idx() == to.idx()
                &&& if is_capture {
                    12 <= m.code() <= 15
                } else {
                    8 <= m.code() <= 11
                }
            },
{
    let ghost n = old(list).moves@.len() as int;
    list.push_promotions(from, to, is_capture);
    assert forall|i: int| start <= i < list.moves@.len() implies #[trigger] generated_ok(*board, list.moves@[i].mov) by {
        if i < n {
            assert(list.moves@[i] == old(list).moves@[i]);
        } else if i == n {
        } else if i == n + 1 {
        } else if i == n + 2 {
        } else {
        }
    }
    proof {
        let fq = if is_capture { MoveFlags::PromoCaptureQueen } else { MoveFlags::PromoQueen };
        let fr = if is_capture { MoveFlags::PromoCaptureRook } else { MoveFlags::PromoRook };
        let fb = if is_capture { MoveFlags::PromoCaptureBishop } else { MoveFlags::PromoBishop };
        let fk = if is_capture { MoveFlags::PromoCaptureKnight } else { MoveFlags::PromoKnight };
        crate::chess_move::lemma_move_roundtrip(from, to, fq, list.moves@[n].mov);
        crate::chess_move::lemma_move_roundtrip(from, to, fr, list.moves@[n].mov);
        crate::chess_move::lemma_move_roundtrip(from, to, fb, list.moves@[n].mov);
        crate::chess_move::lemma_move_roundtrip(from, to, fk, list.moves@[n].mov);
    }
    assert forall|m: Move|
        m.from_idx() == from.idx() && m.to_idx() == to.idx() && (if is_capture {
            12 <= m.code() <= 15
        } else {
            8 <= m.code() <= 11
        }) implies #[trigger] listed(list.moves@, n, m) by {
        let fq = if is_capture { MoveFlags::PromoCaptureQueen } else { MoveFlags::PromoQueen };
        let fr = if is_capture { MoveFlags::PromoCaptureRook } else { MoveFlags::PromoRook };
        let fb = if is_capture { MoveFlags::PromoCaptureBishop } else { MoveFlags::PromoBishop };
        let fk = if is_capture { MoveFlags::PromoCaptureKnight } else { MoveFlags::PromoKnight };
        crate::chess_move::lemma_move_roundtrip(from, to, fq, m);
        crate::chess_move::lemma_move_roundtrip(from, to, fr, m);
        crate::chess_move::lemma_move_roundtrip(from, to, fb, m);
        crate::chess_move::lemma_move_roundtrip(from, to, fk, m);
        if m.code() == fq.code() {
            crate::chess_move::lemma_move_ext(m, Move::spec_new(from, to, fq));
            assert(list.moves@[n].mov == m);
        } else if m.code() == fr.code() {
            crate::chess_move::lemma_move_ext(m, Move::spec_new(from, to, fr));
            assert(list.moves@[n + 1].mov == m);
        } else if m.code() == fb.code() {
            crate::chess_move::lemma_move_ext(m, Move::spec_new(from, to, fb));
            assert(list.moves@[n + 2].mov == m);
        } else {
            crate::chess_move::lemma_move_ext(m, Move::spec_new(from, to, fk));
            assert(list.moves@[n + 3].mov == m);
        }
    }
}

proof fn lemma_promo_ok(board: Board, from: Sq, to: Sq, fl: MoveFlags)
    requires
        fl.code() >= 8,
        from.idx() != to.idx(),
        board.mailbox[from.idx()] == Some(ColoredPiece { piece: Piece::Pawn, color: board.to_play }),
        fl.code() >= 12 ==> (board.mailbox[to.idx()] matches Some(q) && q.color == opponent(board.to_play)),
        fl.code() < 12 ==> board.mailbox[to.idx()] is None,
    ensures
        generated_ok(board, Move::spec_new(from, to, fl)),
{
    let m = Move::spec_new(from, to, fl);
    crate::chess_move::lemma_move_roundtrip(from, to, fl, m);
    lemma_move_classes(m);
}

/// Appends the pushes (single, double, promoting) of the pawn of the side to move on `from`.
#[verifier::rlimit(60)]
fn gen_pawn_pushes(board: &Board, from: Sq, gen: GenType, ev: &EvasionMask, list: &mut MoveList, Ghost(start): Ghost<int>)
    requires
        mask_ok(*ev, *board, gen),
        board.mailbox[from.idx()] == Some(ColoredPiece { piece: Piece::Pawn, color: board.to_play }),
        0 <= start <= old(list).moves@.len(),
        list_ok(*board, old(list).moves@, start),
    ensures
        extends(old(list).moves@, final(list).moves@),
        list_ok(*board, final(list).moves@, start),
        forall|m: Move|
            pawn_move(*board, gen, m) && evasion_ok(*board, gen, m) && m.from_idx() == from.idx() && file_of(m.to_idx()) == file_of(
                from.idx(),
            ) ==> #[trigger] listed(final(list).moves@, old(list).moves@.len() as int, m),
        all_produced(*board, gen, final(list).moves@, old(list).moves@.len() as int),
{
    let ghost n0 = old(list).moves@.len() as int;
    let us = board.to_play;
    let white = us == Color::White;
    let r = from.rank();
    let promo_rank: u8 = if white { 7 } else { 0 };
    let start_rank: u8 = if white { 1 } else { 6 };
    let ghost fwd: int = if white { 8 } else { -8 };
    if (white && r < 7) || (!white && r > 0) {
        let to = from.shift(us.forward());
        assert(to.idx() == from.idx() + fwd);
        if board.mailbox[to as usize].is_none() {
            if to.rank() == promo_rank {
                if wanted(gen, false, true) && ev.allows(to) {
                    proof {
                        lemma_promo_ok(*board, from, to, MoveFlags::PromoQueen);
                        lemma_promo_ok(*board, from, to, MoveFlags::PromoRook);
                        lemma_promo_ok(*board, from, to, MoveFlags::PromoBishop);
                        lemma_promo_ok(*board, from, to, MoveFlags::PromoKnight);
                    }
                    let ghost pre = list.moves@;
                    push_promos_ok(board, list, from, to, false, Ghost(start));
                    proof {
                        {
                            assert forall|i: int| n0 <= i < list.moves@.len() implies #[trigger] produces(
                                *board,
                                gen,
                                list.moves@[i].mov,
                            ) by {
                                assert(list.moves@[i].mov.from_idx() == from.idx());
                                assert(pawn_move(*board, gen, list.moves@[i].mov));
                                lemma_move_classes(list.moves@[i].mov);
                                lemma_evasion_pawn(*board, gen, list.moves@[i].mov);
                                lemma_allows(*ev, *board, gen, to.idx());
                            }
                        }
                    }
                }
                proof {
                    assert forall|m: Move|
                        pawn_move(*board, gen, m) && evasion_ok(*board, gen, m) && m.from_idx() == from.idx() && file_of(
                            m.to_idx(),
                        ) == file_of(from.idx()) implies #[trigger] listed(list.moves@, n0, m) by {
                        lemma_move_classes(m);
                    if m.code() < 2 || m.code() == 4 || m.code() >= 8 {
                        lemma_evasion_pawn(*board, gen, m);
                    }
                    lemma_allows(*ev, *board, gen, m.to_idx());
                        if m.code() < 2 || m.code() == 4 || m.code() >= 8 {
                            lemma_evasion_pawn(*board, gen, m);
                        }
                        lemma_allows(*ev, *board, gen, m.to_idx());
                    }
                }
            } else {
                let ghost mq = Move::spec_new(from, to, MoveFlags::Quiet);
                proof {
                    crate::chess_move::lemma_move_roundtrip(from, to, MoveFlags::Quiet, mq);
                    lemma_move_classes(mq);
                }
                let push1 = wanted(gen, false, false) && ev.allows(to);
                if push1 {
                    let ghost pre = list.moves@;
                    push_ok(board, list, from, to, MoveFlags::Quiet, Ghost(start));
                    assert(list.moves@[list.moves@.len() - 1].mov == mq);
                    proof {
                        {
                            assert(pawn_move(*board, gen, mq));
                            lemma_evasion_pawn(*board, gen, mq);
                            lemma_allows(*ev, *board, gen, to.idx());
                            lemma_produced_push(*board, gen, pre, list.moves@, n0, ScoredMove { mov: mq, score: 0 });
                        }
                    }
                }
                let ghost mid = list.moves@;
                assert(push1 ==> listed(mid, n0, mq));
                if r == start_rank {
                    let to2 = to.shift(us.forward());
                    let ghost md = Move::spec_new(from, to2, MoveFlags::DoublePawn);
                    proof {
                        crate::chess_move::lemma_move_roundtrip(from, to2, MoveFlags::DoublePawn, md);
                        lemma_move_classes(md);
                    }
                    let push2 = board.mailbox[to2 as usize].is_none() && wanted(gen, false, false) && ev.allows(to2);
                    if push2 {
                        let ghost pre = list.moves@;
                        push_ok(board, list, from, to2, MoveFlags::DoublePawn, Ghost(start));
                        assert(list.moves@[list.moves@.len() - 1].mov == md);
                        proof {
                            {
                                assert(to2.idx() == from.idx() + 2 * fwd);
                                assert(pawn_move(*board, gen, md));
                                lemma_evasion_pawn(*board, gen, md);
                                lemma_allows(*ev, *board, gen, to2.idx());
                                lemma_produced_push(*board, gen, pre, list.moves@, n0, ScoredMove { mov: md, score: 0 });
                            }
                        }
                    }
                    proof {
                        assert forall|m: Move|
                            pawn_move(*board, gen, m) && evasion_ok(*board, gen, m) && m.from_idx() == from.idx() && file_of(
                                m.to_idx(),
                            ) == file_of(from.idx()) implies #[trigger] listed(list.moves@, n0, m) by {
                            lemma_move_classes(m);
                    if m.code() < 2 || m.code() == 4 || m.code() >= 8 {
                        lemma_evasion_pawn(*board, gen, m);
                    }
                    lemma_allows(*ev, *board, gen, m.to_idx());
                            if m.code() < 2 || m.code() == 4 || m.code() >= 8 {
                                lemma_evasion_pawn(*board, gen, m);
                            }
                            lemma_allows(*ev, *board, gen, m.to_idx());
                        if m.code() < 2 || m.code() == 4 || m.code() >= 8 {
                            lemma_evasion_pawn(*board, gen, m);
                        }
                        lemma_allows(*ev, *board, gen, m.to_idx());
                            if m.code() == 0 {
                                crate::chess_move::lemma_move_ext(m, mq);
                                lemma_listed_extends(mid, list.moves@, n0, m);
                            } else {
                                crate::chess_move::lemma_move_ext(m, md);
                                assert(list.moves@[list.moves@.len() - 1].mov == m);
                            }
                        }
                    }
                } else {
                    proof {
                        assert forall|m: Move|
                            pawn_move(*board, gen, m) && evasion_ok(*board, gen, m) && m.from_idx() == from.idx() && file_of(
                                m.to_idx(),
                            ) == file_of(from.idx()) implies #[trigger] listed(list.moves@, n0, m) by {
                            lemma_move_classes(m);
                    if m.code() < 2 || m.code() == 4 || m.code() >= 8 {
                        lemma_evasion_pawn(*board, gen, m);
                    }
                    lemma_allows(*ev, *board, gen, m.to_idx());
                            if m.code() < 2 || m.code() == 4 || m.code() >= 8 {
                                lemma_evasion_pawn(*board, gen, m);
                            }
                            lemma_allows(*ev, *board, gen, m.to_idx());
                        if m.code() < 2 || m.code() == 4 || m.code() >= 8 {
                            lemma_evasion_pawn(*board, gen, m);
                        }
                        lemma_allows(*ev, *board, gen, m.to_idx());
                            crate::chess_move::lemma_move_ext(m, mq);
                        }
                    }
                }
            }
        }
    }
}

/// Appends the captures (plain, promoting, en passant) of the pawn of the side to move on
/// `from`.
#[verifier::rlimit(60)]
fn gen_pawn_captures(board: &Board, from: Sq, gen: GenType, ev: &EvasionMask, list: &mut MoveList, Ghost(start): Ghost<int>)
    requires
        mask_ok(*ev, *board, gen),
        board.mailbox[from.idx()] == Some(ColoredPiece { piece: Piece::Pawn, color: board.to_play }),
        0 <= start <= old(list).moves@.len(),
        list_ok(*board, old(list).moves@, start),
    ensures
        extends(old(list).moves@, final(list).moves@),
        list_ok(*board, final(list).moves@, start),
        forall|m: Move|
            pawn_move(*board, gen, m) && evasion_ok(*board, gen, m) && m.from_idx() == from.idx() && file_of(m.to_idx()) != file_of(
                from.idx(),
            ) ==> #[trigger] listed(final(list).moves@, old(list).moves@.len() as int, m),
        all_produced(*board, gen, final(list).moves@, old(list).moves@.len() as int),
{
    let ghost n0 = old(list).moves@.len() as int;
    let us = board.to_play;
    let white = us == Color::White;
    let r = from.rank();
    let f = from.file();
    let promo_rank: u8 = if white { 7 } else { 0 };
    let dr: i8 = if white { 1 } else { -1 };
    let ghost fwd: int = if white { 8 } else { -8 };
    let mut k: usize = 0;
    while k < 2
        invariant
            k <= 2,
            0 <= start <= old(list).moves@.len(),
            n0 == old(list).moves@.len(),
            extends(old(list).moves@, list.moves@),
            list_ok(*board, list.moves@, start),
            board.mailbox[from.idx()] == Some(ColoredPiece { piece: Piece::Pawn, color: board.to_play }),
            us == board.to_play,
            white == (us == Color::White),
            r as int == rank_of(from.idx()),
            f as int == file_of(from.idx()),
            dr as int == (if white { 1int } else { -1int }),
            promo_rank == (if white { 7u8 } else { 0u8 }),
            fwd == (if white { 8int } else { -8int }),
            mask_ok(*ev, *board, gen),
            forall|m: Move|
                pawn_move(*board, gen, m) && evasion_ok(*board, gen, m) && m.from_idx() == from.idx() && ((k >= 1 && file_of(m.to_idx())
                    == file_of(from.idx()) - 1) || (k >= 2 && file_of(m.to_idx()) == file_of(from.idx()) + 1))
                    ==> #[trigger] listed(list.moves@, n0, m),
            all_produced(*board, gen, list.moves@, n0),
        decreases 2 - k,
    {
        let ghost before = list.moves@;
        let df: i8 = if k == 0 { -1 } else { 1 };
        let nf: i8 = f as i8 + df;
        let nr: i8 = r as i8 + dr;
        if nf >= 0 && nf < 8 && nr >= 0 && nr < 8 {
            let to = Sq::from_index((nr * 8 + nf) as u8);
            assert(rank_of(to.idx()) == nr && file_of(to.idx()) == nf);
            let ghost mc = Move::spec_new(from, to, MoveFlags::Capture);
            let ghost me = Move::spec_new(from, to, MoveFlags::EnPassant);
            proof {
                crate::chess_move::lemma_move_roundtrip(from, to, MoveFlags::Capture, mc);
                crate::chess_move::lemma_move_roundtrip(from, to, MoveFlags::EnPassant, me);
                lemma_move_classes(mc);
                lemma_move_classes(me);
            }
            match board.mailbox[to as usize] {
                Some(q) => {
                    if q.color() != us {
                        if to.rank() == promo_rank {
                            if wanted(gen, true, true) && ev.allows(to) {
                                proof {
                                    lemma_promo_ok(*board, from, to, MoveFlags::PromoCaptureQueen);
                                    lemma_promo_ok(*board, from, to, MoveFlags::PromoCaptureRook);
                                    lemma_promo_ok(*board, from, to, MoveFlags::PromoCaptureBishop);
                                    lemma_promo_ok(*board, from, to, MoveFlags::PromoCaptureKnight);
                                }
                                let ghost pre = list.moves@;
                                push_promos_ok(board, list, from, to, true, Ghost(start));
                                proof {
                                    {
                                        assert forall|i: int| n0 <= i < list.moves@.len() implies #[trigger] produces(
                                            *board,
                                            gen,
                                            list.moves@[i].mov,
                                        ) by {
                                            if i < pre.len() {
                                                assert(list.moves@[i] == pre[i]);
                                            } else {
                                                assert(list.moves@[i].mov.from_idx() == from.idx());
                                                assert(pawn_move(*board, gen, list.moves@[i].mov));
                                                lemma_move_classes(list.moves@[i].mov);
                                                lemma_evasion_pawn(*board, gen, list.moves@[i].mov);
                                                lemma_allows(*ev, *board, gen, to.idx());
                                            }
                                        }
                                    }
                                }
                            }
                        } else if wanted(gen, true, false) && ev.allows(to) {
                            let ghost pre = list.moves@;
                            push_ok(board, list, from, to, MoveFlags::Capture, Ghost(start));
                            assert(list.moves@[list.moves@.len() - 1].mov == mc);
                            proof {
                                {
                                    assert(pawn_move(*board, gen, mc));
                                    lemma_evasion_pawn(*board, gen, mc);
                                    lemma_allows(*ev, *board, gen, to.idx());
                                    lemma_produced_push(*board, gen, pre, list.moves@, n0, ScoredMove { mov: mc, score: 0 });
                                }
                            }
                        }
                    }
                },
                None => {
                    match board.en_passant_target_sq {
                        Some(e) => {
                            if e as u8 == to as u8 && to.rank() != promo_rank {
                                let cap = to.shift(us.backward());
                                let ok_cap = match board.mailbox[cap as usize] {
                                    Some(c) => c.color() != us,
                                    None => false,
                                };
                                let allowed = ev.allows(to) || (ev.active && !ev.double_check && has_bit(board.checkers, cap));
                                if ok_cap && cap as u8 != from as u8 && wanted(gen, true, false) && allowed {
                                    let ghost pre = list.moves@;
                                    push_ok(board, list, from, to, MoveFlags::EnPassant, Ghost(start));
                                    assert(list.moves@[list.moves@.len() - 1].mov == me);
                                    proof {
                                        {
                                            assert(cap.idx() == to.idx() - fwd);
                                            assert(pawn_move(*board, gen, me));
                                            assert(evasion_ok(*board, gen, me));
                                            lemma_produced_push(*board, gen, pre, list.moves@, n0, ScoredMove { mov: me, score: 0 });
                                        }
                                    }
                                }
                            }
                        },
                        None => {},
                    }
                },
            }
            proof {
                assert forall|m: Move|
                    pawn_move(*board, gen, m) && evasion_ok(*board, gen, m) && m.from_idx() == from.idx() && ((k + 1 >= 1
                        && file_of(m.to_idx()) == file_of(from.idx()) - 1) || (k + 1 >= 2 && file_of(
                        m.to_idx(),
                    ) == file_of(from.idx()) + 1)) implies #[trigger] listed(list.moves@, n0, m) by {
                    lemma_move_classes(m);
                    if m.code() < 2 || m.code() == 4 || m.code() >= 8 {
                        lemma_evasion_pawn(*board, gen, m);
                    }
                    lemma_allows(*ev, *board, gen, m.to_idx());
                    if file_of(m.to_idx()) == file_of(from.idx()) + df {
                        assert(m.to_idx() == to.idx());
                        if m.code() == 4 {
                            crate::chess_move::lemma_move_ext(m, mc);
                            assert(list.moves@[list.moves@.len() - 1].mov == m);
                        } else if m.code() == 5 {
                            crate::chess_move::lemma_move_ext(m, me);
                            assert(list.moves@[list.moves@.len() - 1].mov == m);
                        } else {
                            assert(listed(list.moves@, before.len() as int, m));
                            lemma_listed_from(list.moves@, before.len() as int, n0, m);
                        }
                    } else {
                        lemma_listed_extends(before, list.moves@, n0, m);
                    }
                }
            }
        } else {
            proof {
                assert forall|m: Move|
                    pawn_move(*board, gen, m) && evasion_ok(*board, gen, m) && m.from_idx() == from.idx() && ((k + 1 >= 1
                        && file_of(m.to_idx()) == file_of(from.idx()) - 1) || (k + 1 >= 2 && file_of(
                        m.to_idx(),
                    ) == file_of(from.idx()) + 1)) implies #[trigger] listed(list.moves@, n0, m) by {
                    lemma_move_classes(m);
                    if m.code() < 2 || m.code() == 4 || m.code() >= 8 {
                        lemma_evasion_pawn(*board, gen, m);
                    }
                    lemma_allows(*ev, *board, gen, m.to_idx());
                }
            }
        }
        k += 1;
    }
}

/// Appends the moves of the pawn of the side to move standing on `from`.
fn gen_pawn_moves(board: &Board, from: Sq, gen: GenType, ev: &EvasionMask, list: &mut MoveList, Ghost(start): Ghost<int>)
    requires
        mask_ok(*ev, *board, gen),
        board.mailbox[from.idx()] == Some(ColoredPiece { piece: Piece::Pawn, color: board.to_play }),
        0 <= start <= old(list).moves@.len(),
        list_ok(*board, old(list).moves@, start),
    ensures
        extends(old(list).moves@, final(list).moves@),
        list_ok(*board, final(list).moves@, start),
        forall|m: Move|
            pawn_move(*board, gen, m) && evasion_ok(*board, gen, m) && m.from_idx() == from.idx() ==> #[trigger] listed(
                final(list).moves@,
                old(list).moves@.len() as int,
                m,
            ),
        all_produced(*board, gen, final(list).moves@, old(list).moves@.len() as int),
{
    let ghost n0 = old(list).moves@.len() as int;
    gen_pawn_pushes(board, from, gen, ev, list, Ghost(start));
    let ghost mid = list.moves@;
    gen_pawn_captures(board, from, gen, ev, list, Ghost(start));
    proof {
        {
            lemma_produced_extends(*board, gen, mid, list.moves@, n0, n0);
        }
        assert forall|m: Move| pawn_move(*board, gen, m) && evasion_ok(*board, gen, m) && m.from_idx() == from.idx()
            implies #[trigger] listed(list.moves@, n0, m) by {
            if file_of(m.to_idx()) == file_of(from.idx()) {
                lemma_listed_extends(mid, list.moves@, n0, m);
            } else {
                assert(listed(list.moves@, mid.len() as int, m));
                let i = choose|i: int| mid.len() <= i < list.moves@.len() && #[trigger] list.moves@[i].mov == m;
                assert(n0 <= i < list.moves@.len() && list.moves@[i].mov == m);
            }
        }
    }
}

/// Appends the castling moves of the king of the side to move standing on `from`.
#[verifier::rlimit(60)]
fn gen_castling(board: &Board, from: Sq, gen: GenType, ev: &EvasionMask, list: &mut MoveList, Ghost(start): Ghost<int>)
    requires
        mask_ok(*ev, *board, gen),
        board.mailbox[from.idx()] == Some(ColoredPiece { piece: Piece::King, color: board.to_play }),
        0 <= start <= old(list).moves@.len(),
        list_ok(*board, old(list).moves@, start),
    ensures
        extends(old(list).moves@, final(list).moves@),
        list_ok(*board, final(list).moves@, start),
        forall|m: Move|
            castle_move(*board, gen, m) && evasion_ok(*board, gen, m) && m.from_idx() == from.idx() ==> #[trigger] listed(
                final(list).moves@,
                old(list).moves@.len() as int,
                m,
            ),
        all_produced(*board, gen, final(list).moves@, old(list).moves@.len() as int),
{
    let ghost n0 = old(list).moves@.len() as int;
    if ev.active || !wanted(gen, false, false) {
        proof {
            assert forall|m: Move| castle_move(*board, gen, m) implies !evasion_ok(*board, gen, m) by {
                lemma_move_classes(m);
            }
        }
        return;
    }
    let us = board.to_play;
    let rook = ColoredPiece::new(Piece::Rook, us);
    let (home, k_right, q_right, f_sq, g_sq, d_sq, c_sq, b_sq, h_sq, a_sq) = if us == Color::White {
        (Sq::E1, WHITE_00, WHITE_000, Sq::F1, Sq::G1, Sq::D1, Sq::C1, Sq::B1, Sq::H1, Sq::A1)
    } else {
        (Sq::E8, BLACK_00, BLACK_000, Sq::F8, Sq::G8, Sq::D8, Sq::C8, Sq::B8, Sq::H8, Sq::A8)
    };
    if from as u8 != home as u8 {
        return;
    }
    let ghost mut k1: int = -1;
    let ghost mut k2: int = -1;
    let ghost mk = Move::spec_new(from, g_sq, MoveFlags::CastleKing);
    let ghost mq = Move::spec_new(from, c_sq, MoveFlags::CastleQueen);
    proof {
        crate::chess_move::lemma_move_roundtrip(from, g_sq, MoveFlags::CastleKing, mk);
        crate::chess_move::lemma_move_roundtrip(from, c_sq, MoveFlags::CastleQueen, mq);
        lemma_move_classes(mk);
        lemma_move_classes(mq);
    }
    let cond_k = board.castling_rights.contains(k_right) && board.mailbox[f_sq as usize].is_none()
        && board.mailbox[g_sq as usize].is_none() && board.mailbox[h_sq as usize] == Some(rook);
    if cond_k {
        let ghost pre = list.moves@;
        push_ok(board, list, from, g_sq, MoveFlags::CastleKing, Ghost(start));
        proof {
            k1 = list.moves@.len() - 1;
            assert(castle_move(*board, gen, mk));
            lemma_produced_push(*board, gen, pre, list.moves@, n0, ScoredMove { mov: mk, score: 0 });
        }
    }
    let ghost mid = list.moves@;
    let cond_q = board.castling_rights.contains(q_right) && board.mailbox[d_sq as usize].is_none()
        && board.mailbox[c_sq as usize].is_none() && board.mailbox[b_sq as usize].is_none()
        && board.mailbox[a_sq as usize] == Some(rook);
    if cond_q {
        let ghost pre = list.moves@;
        push_ok(board, list, from, c_sq, MoveFlags::CastleQueen, Ghost(start));
        proof {
            k2 = list.moves@.len() - 1;
            assert(castle_move(*board, gen, mq));
            lemma_produced_push(*board, gen, pre, list.moves@, n0, ScoredMove { mov: mq, score: 0 });
        }
    }
    proof {
        assert forall|m: Move| castle_move(*board, gen, m) && m.from_idx() == from.idx() implies #[trigger] listed(
            list.moves@,
            n0,
            m,
        ) by {
            lemma_move_classes(m);
            if m.code() == 2 {
                crate::chess_move::lemma_move_ext(m, mk);
                assert(cond_k);
                assert(list.moves@[k1] == mid[k1]);
                assert(list.moves@[k1].mov == m);
            } else {
                crate::chess_move::lemma_move_ext(m, mq);
                assert(cond_q);
                assert(list.moves@[k2].mov == m);
            }
        }
    }
}

/// Appends the pseudo-legal moves of the side to move that a pass of type `gen` produces.
pub fn generate_moves(board: &Board, gen: GenType, list: &mut MoveList)
    ensures
        extends(old(list).moves@, final(list).moves@),
        list_ok(*board, final(list).moves@, old(list).moves@.len() as int),
        forall|m: Move|
            produces(*board, gen, m) ==> #[trigger] listed(
                final(list).moves@,
                old(list).moves@.len() as int,
                m,
            ),
        all_produced(
            *board,
            gen,
            final(list).moves@,
            old(list).moves@.len() as int,
        ),
{
    let ghost start = old(list).moves@.len() as int;
    let us = board.to_play;
    let ev = evasion_mask(board, gen);
    let occ = board.occupied();
    let mut s: u8 = 0;
    while s < 64
        invariant
            s <= 64,
            us == board.to_play,
            occ == board.bit_colors[0] | board.bit_colors[1],
            start == old(list).moves@.len(),
            extends(old(list).moves@, list.moves@),
            list_ok(*board, list.moves@, start),
            mask_ok(ev, *board, gen),
            forall|m: Move|
                produces(*board, gen, m) && m.from_idx() < s ==> #[trigger] listed(list.moves@, start, m),
            all_produced(*board, gen, list.moves@, start),
        decreases 64 - s,
    {
        let from = Sq::from_index(s);
        let ghost before = list.moves@;
        match board.mailbox[s as usize] {
            Some(p) => {
                if p.color() == us {
                    let kind = p.piece();
                    if kind == Piece::Pawn {
                        gen_pawn_moves(board, from, gen, &ev, list, Ghost(start));
                        proof {
                            {
                                lemma_produced_extends(*board, gen, before, list.moves@, start, start);
                            }
                            assert forall|m: Move|
                                produces(*board, gen, m) && m.from_idx() == s implies #[trigger] listed(
                                    list.moves@,
                                    start,
                                    m,
                                ) by {
                                assert(pawn_move(*board, gen, m));
                                assert(listed(list.moves@, before.len() as int, m));
                                lemma_listed_from(list.moves@, before.len() as int, start, m);
                            }
                        }
                    } else {
                        let targets = piece_attack(kind, from, us, occ);
                        let ghost before = list.moves@;
                        push_piece_moves(board, from, targets, gen, &ev, list);
                        assert forall|i: int| start <= i < list.moves@.len() implies #[trigger] generated_ok(*board, list.moves@[i].mov) by {
                            if i < before.len() {
                                assert(list.moves@[i] == before[i]);
                            }
                        }
                        let ghost mid = list.moves@;
                        proof {
                            {
                                lemma_produced_extends(*board, gen, before, mid, start, start);
                            }
                        }
                        if kind == Piece::King {
                            gen_castling(board, from, gen, &ev, list, Ghost(start));
                        }
                        proof {
                            {
                                lemma_produced_extends(*board, gen, mid, list.moves@, start, start);
                            }
                            assert forall|m: Move|
                                produces(*board, gen, m) && m.from_idx() == s implies #[trigger] listed(
                                    list.moves@,
                                    start,
                                    m,
                                ) by {
                                if piece_move(*board, gen, m) {
                                    assert(listed(mid, before.len() as int, m));
                                    lemma_listed_from(mid, before.len() as int, start, m);
                                    lemma_listed_extends(mid, list.moves@, start, m);
                                } else {
                                    assert(castle_move(*board, gen, m));
                                    assert(kind == Piece::King);
                                    assert(listed(list.moves@, mid.len() as int, m));
                                    lemma_listed_from(list.moves@, mid.len() as int, start, m);
                                }
                            }
                        }
                    }
                }
            },
            None => {},
        }
        proof {
            assert forall|m: Move|
                produces(*board, gen, m) && m.from_idx() < s + 1 implies #[trigger] listed(
                    list.moves@,
                    start,
                    m,
                ) by {
                if m.from_idx() < s {
                    lemma_listed_extends(before, list.moves@, start, m);
                }
            }
        }
        s += 1;
    }
    assert forall|m: Move| produces(*board, gen, m) implies #[trigger] listed(
        list.moves@,
        start,
        m,
    ) by {
        lemma_move_classes(m);
    }
}

/// The pass that [`gen_all_moves`] makes: evasions when in check, every move otherwise.
pub open spec fn move_pass(b: Board) -> GenType {
    if b.checkers != 0 {
        GenType::Evasions
    } else {
        GenType::NonEvasions
    }
}

/// All pseudo-legal moves of the side to move: the evasions when in check, every move
/// otherwise.
pub fn gen_all_moves(board: &Board) -> (r: MoveList)
    ensures
        list_ok(*board, r.moves@, 0),
        forall|m: Move| produces(*board, move_pass(*board), m) ==> #[trigger] listed(r.moves@, 0, m),
        all_produced(*board, move_pass(*board), r.moves@, 0),
{
    let mut moves = MoveList::new();
    let gen = if board.checkers != 0 {
        GenType::Evasions
    } else {
        GenType::NonEvasions
    };
    generate_moves(board, gen, &mut moves);
    moves
}

/// The moves of pass `Type` for side `Us`; empty when `Us` is not the side to move.
pub fn gen_moves<Us: Player, Type: MoveGenType>(board: &Board) -> (r: MoveList)
    ensures
        list_ok(*board, r.moves@, 0),
        Us::side() != board.to_play ==> r.moves@.len() == 0,
        Us::side() == board.to_play ==> forall|m: Move|
            produces(*board, Type::pass(), m) ==> #[trigger] listed(r.moves@, 0, m),
        Us::side() == board.to_play ==> all_produced(*board, Type::pass(), r.moves@, 0),
{
    let mut moves = MoveList::new();
    if Us::color() == board.to_play {
        generate_moves(board, Type::gen_type(), &mut moves);
    }
    moves
}

/// Whether square `s` is in `bb`.
fn has_bit(bb: u64, s: Sq) -> (r: bool)
    ensures
        r == bit(bb, s.idx()),
{
    (bb >> (s as u8 as u64)) & 1 == 1
}

/// The squares `piece` of color `c` on square index `s` attacks with `occ` occupied.
pub open spec fn attack_from(piece: Piece, s: int, c: Color, occ: u64) -> u64 {
    match piece {
        Piece::Pawn => leap_bb(file_of(s), rank_of(s), pawn_offsets(c)),
        Piece::Knight => leap_bb(file_of(s), rank_of(s), knight_offsets()),
        Piece::Bishop => bishop_rays(s, occ),
        Piece::Rook => rook_rays(s, occ),
        Piece::Queen => bishop_rays(s, occ) | rook_rays(s, occ),
        Piece::King => leap_bb(file_of(s), rank_of(s), king_offsets()),
    }
}

/// What [`Board::pseudo_legal`] accepts: a promotion, castling or en-passant move exactly
/// when the move generator produces it, any other move as [`spec_pseudo_plain`] says.
pub open spec fn spec_pseudo(b: Board, m: Move) -> bool {
    if is_special(m) {
        produces(b, move_pass(b), m)
    } else {
        spec_pseudo_plain(b, m)
    }
}

/// A capture pass or quiet pass, run when not in check, produces only moves that the pass
/// for all moves produces.
pub(crate) proof fn lemma_pass_within(b: Board, gen: GenType, m: Move)
    requires
        gen == GenType::Captures || gen == GenType::Quiets,
        b.checkers == 0,
        produces(b, gen, m),
    ensures
        produces(b, move_pass(b), m),
{
}

/// Whether `m` is a promotion, a castling move or an en-passant capture: the kinds that
/// [`Board::pseudo_legal`] checks against the generated moves.
pub open spec fn is_special(m: Move) -> bool {
    m.spec_is_promotion() || m.spec_is_castle() || m.code() == 5
}

/// The capture flag of `m` matches its target square: an enemy piece there for a capture,
/// an empty square otherwise.
pub open spec fn capture_flag_ok(b: Board, m: Move) -> bool {
    if m.spec_is_capture() {
        bit(b.bit_colors[opponent(b.to_play) as u8 as int], m.to_idx())
    } else {
        !bit(b.bit_colors[0] | b.bit_colors[1], m.to_idx())
    }
}

/// Whether the piece kind `piece` can make the plain (not special) move `m`: a pawn pushes
/// one square onto an empty square with a quiet flag, two squares from its start rank over
/// an empty square with the double-push flag, or captures diagonally, never onto the last
/// rank; other pieces move to a square they attack.
pub open spec fn shape_ok(b: Board, m: Move, piece: Piece) -> bool {
    let us = b.to_play;
    let from = m.from_idx();
    let to = m.to_idx();
    let white = us == Color::White;
    if piece == Piece::Pawn {
        let single = if white { from + 8 } else { from - 8 };
        let double = if white { from + 16 } else { from - 16 };
        if rank_of(to) == (if white { 7int } else { 0int }) {
            false
        } else if m.spec_is_capture() {
            bit(attack_from(Piece::Pawn, from, us, 0), to)
        } else if to == single {
            m.code() == 0
        } else if rank_of(from) == (if white { 1int } else { 6int }) {
            to == double && !bit(b.bit_colors[0] | b.bit_colors[1], single) && m.code() == 1
        } else {
            false
        }
    } else {
        bit(attack_from(piece, from, us, b.bit_colors[0] | b.bit_colors[1]), to)
    }
}

/// [`Board::pseudo_legal`] on a move that is not special: a well-formed move of a piece of
/// the side to move to another square not holding one of its own pieces; when in check, a
/// king step (with a matching capture flag), or under a single check a move onto the
/// checker or between it and the king; otherwise a matching capture flag, the double-push
/// flag only on a pawn, and a move the piece can make.
pub open spec fn spec_pseudo_plain(b: Board, m: Move) -> bool {
    let us = b.to_play;
    let from = m.from_idx();
    let to = m.to_idx();
    if !(m != move_none() && m.wf() && from != to && b.mailbox[from] is Some
        && b.mailbox[from].unwrap().color == us && !bit(b.bit_colors[us as u8 as int], to)) {
        false
    } else {
        let piece = b.mailbox[from].unwrap().piece;
        if b.checkers != 0 && piece == Piece::King {
            bit(attack_from(Piece::King, from, us, 0), to) && capture_flag_ok(b, m)
        } else if b.checkers != 0 && (popcount(b.checkers) >= 2 || king_bb(b, us) == 0) {
            false
        } else if b.checkers != 0 && !bit(
            b.checkers | between(
                u64_trailing_zeros(king_bb(b, us)) as int,
                u64_trailing_zeros(b.checkers) as int,
            ),
            to,
        ) {
            false
        } else {
            capture_flag_ok(b, m) && !(m.code() == 1 && piece != Piece::Pawn) && shape_ok(b, m, piece)
        }
    }
}

impl Board {
    /// Whether `mov` could be played in this position before checking that the king is left
    /// safe. A plain move is judged as [`spec_pseudo_plain`] says; a promotion, castling or
    /// en-passant move is accepted exactly when the move generator produces it.
    #[verifier::rlimit(60)]
    pub fn pseudo_legal(&self, mov: Move) -> (r: bool)
        ensures
            !is_special(mov) ==> r == spec_pseudo_plain(*self, mov),
            is_special(mov) ==> (r <==> produces(*self, move_pass(*self), mov)),
            is_special(mov) && r ==> generated_ok(*self, mov),
            r == spec_pseudo(*self, mov),
    {
        proof {
            lemma_move_classes(mov);
            crate::chess_move::lemma_none_code();
        }
        if mov.is_none() || mov.flags_bits() == 6 || mov.flags_bits() == 7 {
            return false;
        }
        if mov.is_promotion() || mov.is_castle() || mov.flags_bits() == 5 {
            let list = gen_all_moves(self);
            let mut i: usize = 0;
            while i < list.moves.len()
                invariant
                    i <= list.moves@.len(),
                    list_ok(*self, list.moves@, 0),
                    all_produced(*self, move_pass(*self), list.moves@, 0),
                    is_special(mov),
                    forall|j: int| 0 <= j < i ==> list.moves@[j].mov != mov,
                decreases list.moves@.len() - i,
            {
                if list.moves[i].mov == mov {
                    assert(generated_ok(*self, list.moves@[i as int].mov));
                    assert(produces(*self, move_pass(*self), list.moves@[i as int].mov));
                    return true;
                }
                i += 1;
            }
            assert(!listed(list.moves@, 0, mov));
            return false;
        }
        let from = mov.from();
        let to = mov.to();
        if from as u8 == to as u8 {
            return false;
        }
        let occupied = self.occupied();
        let us = self.to_play;
        let piece = match self.mailbox[from as usize] {
            Some(p) => {
                if p.color() != us {
                    return false;
                }
                p.piece()
            },
            None => return false,
        };
        if has_bit(self.colors(us), to) {
            return false;
        }
        let capture_ok = if mov.is_capture() {
            has_bit(self.colors(us.not()), to)
        } else {
            !has_bit(occupied, to)
        };
        if self.checkers != 0 {
            if piece == Piece::King {
                return has_bit(piece_attack(Piece::King, from, us, 0), to) && capture_ok;
            }
            if bb_several(self.checkers) {
                return false;
            }
            let kb = self.color_piece(Piece::King, us);
            if kb == 0 {
                return false;
            }
            let checker_sq = bb_lsb(self.checkers);
            let king_sq = bb_lsb(kb);
            let evasion_mask = self.checkers | bb_between(king_sq, checker_sq);
            if !has_bit(evasion_mask, to) {
                return false;
            }
        }
        if !capture_ok {
            return false;
        }
        if mov.flags_bits() == 1 && piece != Piece::Pawn {
            return false;
        }
        if piece == Piece::Pawn {
            let white = us == Color::White;
            let promo_rank: u8 = if white { 7 } else { 0 };
            if to.rank() == promo_rank {
                return false;
            }
            let f = from as u8 as i16;
            let t = to as u8 as i16;
            let single: i16 = if white { f + 8 } else { f - 8 };
            let double: i16 = if white { f + 16 } else { f - 16 };
            let start_rank: u8 = if white { 1 } else { 6 };
            if mov.is_capture() {
                has_bit(piece_attack(Piece::Pawn, from, us, 0), to)
            } else if t == single {
                mov.flags_bits() == 0
            } else if from.rank() == start_rank {
                let single_sq = Sq::from_index(single as u8);
                t == double && !has_bit(occupied, single_sq) && mov.flags_bits() == 1
            } else {
                false
            }
        } else {
            has_bit(piece_attack(piece, from, us, occupied), to)
        }
    }
}


/// A plain move that [`Board::pseudo_legal`] accepts has the shape of a pseudo-legal move,
/// unless it is a king move flagged as a double pawn push (which the check evasion rule
/// lets through without looking at the flag).
pub proof fn lemma_plain_pseudo_ok(b: Board, m: Move)
    requires
        b.wf(),
        !is_special(m),
        spec_pseudo_plain(b, m),
        !(m.code() == 1 && b.mailbox[m.from_idx()] is Some && b.mailbox[m.from_idx()].unwrap().piece == Piece::King),
    ensures
        pseudo_ok(b, m),
{
    lemma_move_classes(m);
    let to = m.to_idx();
    crate::bitboard::lemma_bit_ops(b.bit_colors[0], b.bit_colors[1], 0);
    assert(0 <= to < 64);
    assert(bit(b.bit_colors[0], to) <==> crate::board::has_color(b.mailbox[to], 0));
    assert(bit(b.bit_colors[1], to) <==> crate::board::has_color(b.mailbox[to], 1));
    if m.code() == 1 {
        let from = m.from_idx();
        assert(b.mailbox[from].unwrap().piece == Piece::Pawn);
    }
}

} // verus!
