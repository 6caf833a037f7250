use crate::attacks::{bishop_attacks, bishop_xray_attacks, rook_attacks, rook_xray_attacks};
use crate::bitboard::{bb_lsb, bishop_rays, bit, rook_rays};
use crate::board::Board;
use crate::chess_move::{lemma_move_classes, Move};
use crate::color::{opponent, Color};
use crate::history::{hist_idx, HistoryTable, KillerMoves};
use crate::legality::all_attackers;
use crate::piece::Piece;
use crate::square::{rank_of, Sq};
use vstd::prelude::*;
use vstd::std_specs::bits::u64_trailing_zeros;

verus! {

/// Ordering rank of a piece kind as a victim or attacker: pawn 1 up to king 6.
pub open spec fn mvv_rank(p: Piece) -> int {
    p as u8 as int + 1
}

/// Value of a piece kind in the static exchange evaluation.
pub open spec fn see_value(p: Piece) -> int {
    match p {
        Piece::Pawn => 100,
        Piece::Knight => 300,
        Piece::Bishop => 300,
        Piece::Rook => 500,
        Piece::Queen => 900,
        Piece::King => 20000,
    }
}

fn see_tier(p: Piece) -> (r: i32)
    ensures
        r == see_value(p),
{
    match p {
        Piece::Pawn => 100,
        Piece::Knight => 300,
        Piece::Bishop => 300,
        Piece::Rook => 500,
        Piece::Queen => 900,
        Piece::King => 20000,
    }
}

/// Most valuable victim, least valuable attacker: ten times the victim's rank less the
/// attacker's rank.
fn mvv_lva(victim: Piece, attacker: Piece) -> (r: i16)
    ensures
        r == 10 * mvv_rank(victim) - mvv_rank(attacker),
{
    (victim as u8 as i16 + 1) * 10 - (attacker as u8 as i16 + 1)
}

/// Order score of a capture (or promotion) the exchange deems good.
pub const GOOD_CAPTURES: i16 = 20_000;

/// Order score of the first killer move.
pub const KILLER_1: i16 = 15_000;

/// Order score of the second killer move.
pub const KILLER_2: i16 = 14_000;

/// Order score of a capture the exchange deems bad.
pub const BAD_CAPTURES: i16 = -5_000;

/// The least valuable piece of `side` among `attackers`, looking at kinds from `k` on; a
/// king is not offered while the other side still has an attacker.
pub open spec fn lva_from(b: Board, attackers: u64, side: Color, k: int) -> Option<(int, Piece)>
    decreases 6 - k,
{
    if k >= 6 || k < 0 {
        None
    } else {
        let subset = attackers & b.bit_colors[side as u8 as int] & b.bit_pieces[k];
        if subset != 0 {
            if k == 5 && attackers & b.bit_colors[opponent(side) as u8 as int] != 0 {
                None
            } else {
                Some((u64_trailing_zeros(subset) as int, if k == 0 {
                    Piece::Pawn
                } else if k == 1 {
                    Piece::Knight
                } else if k == 2 {
                    Piece::Bishop
                } else if k == 3 {
                    Piece::Rook
                } else if k == 4 {
                    Piece::Queen
                } else {
                    Piece::King
                }))
            }
        } else {
            lva_from(b, attackers, side, k + 1)
        }
    }
}

/// The square and kind of the least valuable attacker of `side` in `attackers`, if any.
pub open spec fn spec_lva(b: Board, attackers: u64, side: Color) -> Option<(int, Piece)> {
    if attackers & b.bit_colors[side as u8 as int] == 0 {
        None
    } else {
        lva_from(b, attackers, side, 0)
    }
}

fn get_least_valuable_attacker(board: &Board, attackers: u64, side: Color) -> (r: Option<(Sq, Piece)>)
    ensures
        r matches Some((s, p)) ==> spec_lva(*board, attackers, side) == Some((s.idx(), p)) && bit(
            attackers,
            s.idx(),
        ),
        r is None ==> spec_lva(*board, attackers, side) is None,
{
    let side_attackers = attackers & board.colors(side);
    if side_attackers == 0 {
        return None;
    }
    let mut k: usize = 0;
    while k < 6
        invariant
            k <= 6,
            side_attackers == attackers & board.bit_colors[side as u8 as int],
            side_attackers != 0,
            spec_lva(*board, attackers, side) == lva_from(*board, attackers, side, k as int),
        decreases 6 - k,
    {
        let piece = Piece::from_index(k);
        let subset = side_attackers & board.pieces(piece);
        if subset != 0 {
            if k == 5 && (attackers & board.colors(side.not())) != 0 {
                return None;
            }
            let sq = bb_lsb(subset);
            proof {
                crate::bitboard::lemma_bit_ops(attackers & board.bit_colors[side as u8 as int], board.bit_pieces[k as int], 0);
                crate::bitboard::lemma_bit_ops(attackers, board.bit_colors[side as u8 as int], 0);
            }
            return Some((sq, piece));
        }
        k += 1;
    }
    None
}

/// Clearing a set bit makes a number smaller.
pub proof fn lemma_clear_bit_smaller(x: u64, k: u64)
    by (bit_vector)
    requires
        k < 64,
        (x >> k) & 1u64 == 1u64,
    ensures
        x ^ (1u64 << k) < x,
{
}

/// The attackers after the piece on `nf` joined the exchange and left `occ`: sliders
/// behind it on its line are revealed, and only pieces still standing count.
pub open spec fn see_reveal(b: Board, to: int, occ: u64, nf: int, attackers: u64) -> u64 {
    let bq = b.bit_pieces[2] | b.bit_pieces[4];
    let rq = b.bit_pieces[3] | b.bit_pieces[4];
    let a1 = if bit(bishop_rays(to, 0), nf) {
        attackers | (bishop_rays(to, occ) & bq)
    } else {
        attackers
    };
    let a2 = if bit(rook_rays(to, 0), nf) {
        a1 | (rook_rays(to, occ) & rq)
    } else {
        a1
    };
    a2 & occ
}

/// The exchange on `to` after it reached the state (`occ`, `attackers`, `side` to
/// recapture, `res`, `swap`): each side recaptures with its least valuable attacker while
/// that can still change the outcome; the result is whether the side that started wins.
pub open spec fn see_loop(b: Board, to: int, occ: u64, attackers: u64, side: Color, res: int, swap: int) -> bool
    decreases occ,
{
    match spec_lva(b, attackers, side) {
        None => res != 0,
        Some((nf, p)) => {
            if !(0 <= nf < 64 && bit(occ, nf)) {
                res != 0
            } else {
                let occ2 = occ ^ (1u64 << (nf as u64));
                let att2 = see_reveal(b, to, occ2, nf, attackers);
                let res2 = 1 - res;
                let swap2 = see_value(p) - swap;
                if swap2 < res2 {
                    res2 != 0
                } else {
                    proof {
                        lemma_clear_bit_smaller(occ, nf as u64);
                    }
                    see_loop(b, to, occ2, att2, opponent(side), res2, swap2)
                }
            }
        },
    }
}

/// The occupied squares once the move's piece has left `from` (and an en-passant pawn its
/// square) and the target is taken.
pub open spec fn see_start_occ(b: Board, m: Move) -> u64 {
    let from_bb = 1u64 << (m.from_idx() as u64);
    let to_bb = 1u64 << (m.to_idx() as u64);
    let occ = (b.bit_colors[0] | b.bit_colors[1]) ^ from_bb;
    let occ = if m.code() == 5 {
        occ ^ (1u64 << ((if b.to_play == Color::White {
            m.to_idx() - 8
        } else {
            m.to_idx() + 8
        }) as u64))
    } else {
        occ
    };
    occ | to_bb
}

/// Static exchange evaluation: whether the exchange that `m` starts on its target square
/// gains at least `threshold` for the side to move, both sides recapturing with their
/// least valuable piece.
pub open spec fn spec_see_ge(b: Board, m: Move, threshold: int) -> bool {
    let from = m.from_idx();
    let to = m.to_idx();
    match b.mailbox[from] {
        None => false,
        Some(mover) => {
            let captured_val = if m.code() == 5 {
                see_value(Piece::Pawn)
            } else {
                match b.mailbox[to] {
                    Some(q) => see_value(q.piece),
                    None => 0,
                }
            };
            let (attacker, promo_bonus) = match m.spec_promotion_piece() {
                Some(pp) => (pp, see_value(pp) - see_value(Piece::Pawn)),
                None => (mover.piece, 0),
            };
            let swap = captured_val + promo_bonus - threshold;
            if swap < 0 {
                false
            } else if see_value(attacker) - swap <= 0 {
                true
            } else {
                let occ = see_start_occ(b, m);
                see_loop(
                    b,
                    to,
                    occ,
                    all_attackers(b, to, occ),
                    opponent(b.to_play),
                    1,
                    see_value(attacker) - swap,
                )
            }
        },
    }
}

/// Whether the exchange that `mov` starts gains at least `threshold` (see
/// [`spec_see_ge`]).
#[verifier::rlimit(100)]
pub fn see_ge(mov: Move, board: &Board, threshold: i32) -> (r: bool)
    requires
        mov.wf(),
        mov.code() == 5 ==> (if board.to_play == Color::White {
            rank_of(mov.to_idx()) > 0
        } else {
            rank_of(mov.to_idx()) < 7
        }),
    ensures
        r == spec_see_ge(*board, mov, threshold as int),
{
    proof {
        lemma_move_classes(mov);
    }
    let from = mov.from();
    let to = mov.to();
    let us = board.to_play;
    let mover = match board.mailbox[from as usize] {
        Some(p) => p,
        None => return false,
    };
    let is_ep = mov.flags_bits() == 5;
    let cap_val: i32 = if is_ep {
        see_tier(Piece::Pawn)
    } else {
        match board.mailbox[to as usize] {
            Some(q) => see_tier(q.piece()),
            None => 0,
        }
    };
    let (attacker, promo_bonus) = match mov.promotion_piece() {
        Some(pp) => (pp, see_tier(pp) - see_tier(Piece::Pawn)),
        None => (mover.piece(), 0),
    };
    let att_val = see_tier(attacker);
    let start = see_start(cap_val, promo_bonus, att_val, threshold);
    let ghost spec_swap: int = cap_val + promo_bonus - threshold;
    if start < 0 {
        assert(spec_swap < 0);
        return false;
    }
    if start == 0 {
        assert(spec_swap >= 0 && att_val - spec_swap <= 0);
        return true;
    }
    let swap: i32 = start;
    assert(swap == att_val - spec_swap);
    let from_bb = from.bitboard();
    let to_bb = to.bitboard();
    let mut occupied = board.occupied() ^ from_bb;
    if is_ep {
        occupied = occupied ^ mov.capture_square(us).bitboard();
    }
    occupied = occupied | to_bb;
    assert(occupied == see_start_occ(*board, mov));
    let attackers = board.attackers_to(to, occupied);
    see_exchange(board, to, occupied, attackers, us.not(), swap)
}

/// The first step of an exchange that takes a piece worth `cap` (plus `promo` for a
/// promotion) with a piece worth `att`, against `threshold`: -1 when even the capture falls
/// short, 0 when losing the capturer still meets it, else what the opponent must win back.
fn see_start(cap: i32, promo: i32, att: i32, threshold: i32) -> (r: i32)
    requires
        -20000 <= cap <= 20000,
        -20000 <= promo <= 20000,
        -20000 <= att <= 20000,
    ensures
        cap + promo - threshold < 0 ==> r == -1,
        cap + promo - threshold >= 0 && att - (cap + promo - threshold) <= 0 ==> r == 0,
        cap + promo - threshold >= 0 && att - (cap + promo - threshold) > 0 ==> r == att - (cap + promo
            - threshold),
{
    let first: i64 = cap as i64 + promo as i64 - threshold as i64;
    if first < 0 {
        return -1;
    }
    let rest: i64 = att as i64 - first;
    if rest <= 0 {
        0
    } else {
        rest as i32
    }
}

/// Plays out the exchange on `to` from the state after the first capture (see
/// [`see_loop`]).
fn see_exchange(board: &Board, to: Sq, occ: u64, att: u64, first: Color, swap0: i32) -> (r: bool)
    requires
        -1_000_000 <= swap0 <= 1_100_000,
    ensures
        r == see_loop(*board, to.idx(), occ, att, first, 1, swap0 as int),
{
    let bishops_queens = board.pieces(Piece::Bishop) | board.pieces(Piece::Queen);
    let rooks_queens = board.pieces(Piece::Rook) | board.pieces(Piece::Queen);
    let mut occupied = occ;
    let mut attackers = att;
    let mut side = first;
    let mut res: i32 = 1;
    let mut swap = swap0;
    loop
        invariant
            bishops_queens == board.bit_pieces[2] | board.bit_pieces[4],
            rooks_queens == board.bit_pieces[3] | board.bit_pieces[4],
            res == 0 || res == 1,
            -1_000_000 <= swap <= 1_100_000,
            see_loop(*board, to.idx(), occ, att, first, 1, swap0 as int) == see_loop(
                *board,
                to.idx(),
                occupied,
                attackers,
                side,
                res as int,
                swap as int,
            ),
        decreases occupied,
    {
        let (next_from, next_attacker) = match get_least_valuable_attacker(board, attackers, side) {
            Some(x) => x,
            None => {
                return res != 0;
            },
        };
        let nf_bb = next_from.bitboard();
        if (occupied >> (next_from as u8 as u64)) & 1 != 1 {
            return res != 0;
        }
        proof {
            lemma_clear_bit_smaller(occupied, next_from as u8 as u64);
        }
        occupied = occupied ^ nf_bb;
        if has_bit(bishop_xray_attacks(to), next_from) {
            attackers = attackers | (bishop_attacks(to, occupied) & bishops_queens);
        }
        if has_bit(rook_xray_attacks(to), next_from) {
            attackers = attackers | (rook_attacks(to, occupied) & rooks_queens);
        }
        attackers = attackers & occupied;
        side = side.not();
        res = 1 - res;
        swap = see_tier(next_attacker) - swap;
        if swap < res {
            return res != 0;
        }
    }
}

fn has_bit(bb: u64, s: Sq) -> (r: bool)
    ensures
        r == bit(bb, s.idx()),
{
    (bb >> (s as u8 as u64)) & 1 == 1
}

/// The piece kind on the square index `s`, a pawn when the square is empty.
pub open spec fn kind_or_pawn(b: Board, s: int) -> Piece {
    match b.mailbox[s] {
        Some(p) => p.piece,
        None => Piece::Pawn,
    }
}

/// Order score of a capture or promotion: good captures (the attacker worth no more than the
/// victim, or a winning exchange) come before bad ones; within a tier by most valuable
/// victim and least valuable attacker, plus ten times the rank of a promotion piece.
pub open spec fn spec_score_capture(b: Board, m: Move) -> int {
    let attacker = kind_or_pawn(b, m.from_idx());
    let victim = if m.code() == 5 {
        Piece::Pawn
    } else {
        kind_or_pawn(b, m.to_idx())
    };
    let good = (attacker as u8) <= (victim as u8) || spec_see_ge(b, m, 0);
    let tier: int = if good {
        GOOD_CAPTURES as int
    } else {
        BAD_CAPTURES as int
    };
    let promo = match m.spec_promotion_piece() {
        Some(pp) => mvv_rank(pp) * 10,
        None => 0,
    };
    tier + 10 * mvv_rank(victim) - mvv_rank(attacker) + promo
}

/// Order score of a capture or promotion (see [`spec_score_capture`]).
#[verifier::rlimit(100)]
pub fn score_capture(mov: Move, board: &Board) -> (r: i16)
    requires
        mov.wf(),
        mov.code() == 5 ==> (if board.to_play == Color::White {
            rank_of(mov.to_idx()) > 0
        } else {
            rank_of(mov.to_idx()) < 7
        }),
    ensures
        r == spec_score_capture(*board, mov),
{
    let attacker = match board.mailbox[mov.from() as usize] {
        Some(p) => p.piece(),
        None => Piece::Pawn,
    };
    let victim = if mov.flags_bits() == 5 {
        Piece::Pawn
    } else {
        match board.mailbox[mov.to() as usize] {
            Some(p) => p.piece(),
            None => Piece::Pawn,
        }
    };
    let base_score = mvv_lva(victim, attacker);
    let is_good = (attacker as u8) <= (victim as u8) || see_ge(mov, board, 0);
    let tier = if is_good {
        GOOD_CAPTURES
    } else {
        BAD_CAPTURES
    };
    let mut score = tier + base_score;
    match mov.promotion_piece() {
        Some(promo) => {
            score = score + (promo as u8 as i16 + 1) * 10;
        },
        None => {},
    }
    score
}

/// Order score of a quiet move: the killers first, then by history.
pub open spec fn spec_score_quiet(m: Move, killers: KillerMoves, history: Seq<i16>, side: Color) -> int {
    if m == killers[0] {
        KILLER_1 as int
    } else if m == killers[1] {
        KILLER_2 as int
    } else {
        history[side as u8 as int * 4096 + m.from_idx() * 64 + m.to_idx()] as int
    }
}

/// Order score of a quiet move (see [`spec_score_quiet`]).
pub fn score_quiet(mov: Move, killer_moves: KillerMoves, history: &HistoryTable, side: Color) -> (r: i16)
    requires
        history.wf(),
    ensures
        r == spec_score_quiet(mov, killer_moves, history.table@, side),
        -crate::params::MAX_HISTORY <= r <= KILLER_1,
{
    if mov == killer_moves[0] {
        KILLER_1
    } else if mov == killer_moves[1] {
        KILLER_2
    } else {
        history.get(side, mov.from(), mov.to())
    }
}

} // verus!
