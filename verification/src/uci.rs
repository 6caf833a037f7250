use crate::board::{king_bb, Board};
use crate::chess_move::{lemma_move_classes, Move};
use crate::movegen::{gen_all_moves, generated_ok, list_ok, listed, move_pass, produces};
use crate::search::legal_root_move;
use crate::params::INFINITY;
use crate::piece::Piece;
use crate::square::{file_of, rank_of};
use crate::history::trunc_div;
use crate::text::{decimal, push_char, push_decimal};
use vstd::prelude::*;

verus! {

/// The name of square index `s`: its file letter and rank digit.
pub open spec fn sq_name(s: int) -> Seq<char> {
    seq![('a' as int + file_of(s)) as char, ('1' as int + rank_of(s)) as char]
}

/// The letter of a promotion piece in coordinate notation; none for other moves.
pub open spec fn promo_suffix(m: Move) -> Seq<char> {
    match m.spec_promotion_piece() {
        Some(Piece::Queen) => seq!['q'],
        Some(Piece::Rook) => seq!['r'],
        Some(Piece::Bishop) => seq!['b'],
        Some(Piece::Knight) => seq!['n'],
        _ => Seq::empty(),
    }
}

/// A move in coordinate notation: origin, target, and the promotion letter if any.
pub open spec fn spec_format_move(m: Move) -> Seq<char> {
    sq_name(m.from_idx()) + sq_name(m.to_idx()) + promo_suffix(m)
}

/// A move in coordinate notation, such as `e2e4` or `e7e8q` (see [`spec_format_move`]).
pub fn format_move(mov: Move) -> (r: String)
    ensures
        r@ == spec_format_move(mov),
{
    let mut s = String::new();
    let (a, b) = mov.from().name_chars();
    let (c, d) = mov.to().name_chars();
    push_char(&mut s, a);
    push_char(&mut s, b);
    push_char(&mut s, c);
    push_char(&mut s, d);
    let ghost base = s@;
    match mov.promotion_piece() {
        Some(Piece::Queen) => push_char(&mut s, 'q'),
        Some(Piece::Rook) => push_char(&mut s, 'r'),
        Some(Piece::Bishop) => push_char(&mut s, 'b'),
        Some(Piece::Knight) => push_char(&mut s, 'n'),
        _ => {},
    }
    assert(base =~= sq_name(mov.from_idx()) + sq_name(mov.to_idx()));
    assert(s@ =~= base + promo_suffix(mov));
    s
}

/// The decimal form of `v`, with a minus sign when negative.
pub open spec fn signed_decimal(v: int) -> Seq<char> {
    if v < 0 {
        seq!['-'] + decimal((-v) as nat)
    } else {
        decimal(v as nat)
    }
}

fn push_signed(s: &mut String, v: i32)
    ensures
        final(s)@ == old(s)@ + signed_decimal(v as int),
{
    if v < 0 {
        push_char(s, '-');
        let ghost p = s@;
        push_decimal(s, (-(v as i64)) as u64);
        assert(s@ =~= old(s)@ + (seq!['-'] + decimal((-v) as nat)));
    } else {
        push_decimal(s, v as u64);
    }
}

/// A score in UCI form: `mate n` when mating in `n` moves (`mate -n` when being mated),
/// `n` being half the distance of the score to [`INFINITY`], rounded up; `cp s` otherwise.
pub open spec fn spec_format_score(score: i16) -> Seq<char> {
    if score > 29_000 {
        seq!['m', 'a', 't', 'e', ' '] + signed_decimal(trunc_div(INFINITY - score + 1, 2))
    } else if score < -29_000 {
        seq!['m', 'a', 't', 'e', ' ', '-'] + signed_decimal(trunc_div(INFINITY + score + 1, 2))
    } else {
        seq!['c', 'p', ' '] + signed_decimal(score as int)
    }
}

/// A score in UCI form (see [`spec_format_score`]).
pub fn format_score(score: i16) -> (r: String)
    ensures
        r@ == spec_format_score(score),
{
    let mut s = String::new();
    if score > 29_000 {
        push_char(&mut s, 'm');
        push_char(&mut s, 'a');
        push_char(&mut s, 't');
        push_char(&mut s, 'e');
        push_char(&mut s, ' ');
        let ghost p = s@;
        let plies = INFINITY as i32 - score as i32 + 1;
        let moves = if plies >= 0 {
            plies / 2
        } else {
            -((-plies) / 2)
        };
        push_signed(&mut s, moves);
        assert(p =~= seq!['m', 'a', 't', 'e', ' ']);
    } else if score < -29_000 {
        push_char(&mut s, 'm');
        push_char(&mut s, 'a');
        push_char(&mut s, 't');
        push_char(&mut s, 'e');
        push_char(&mut s, ' ');
        push_char(&mut s, '-');
        let ghost p = s@;
        let plies = INFINITY as i32 + score as i32 + 1;
        let moves = if plies >= 0 {
            plies / 2
        } else {
            -((-plies) / 2)
        };
        push_signed(&mut s, moves);
        assert(p =~= seq!['m', 'a', 't', 'e', ' ', '-']);
    } else {
        push_char(&mut s, 'c');
        push_char(&mut s, 'p');
        push_char(&mut s, ' ');
        let ghost p = s@;
        push_signed(&mut s, score as i32);
        assert(p =~= seq!['c', 'p', ' ']);
    }
    s
}


/// The legal move of `board` written `uci_move` in coordinate notation, if any.
pub fn find_move(board: &Board, uci_move: &str) -> (r: Option<Move>)
    requires
        board.wf(),
    ensures
        r matches Some(m) ==> spec_format_move(m) == uci_move@ && legal_root_move(*board, m)
            && produces(*board, move_pass(*board), m),
        r is None && king_bb(*board, board.to_play) != 0 ==> forall|m: Move|
            #[trigger] produces(*board, move_pass(*board), m) && spec_format_move(m) == uci_move@
                ==> !legal_root_move(*board, m),
{
    let kb = board.color_piece(Piece::King, board.to_play);
    if kb == 0 {
        return None;
    }
    let wanted = String::from_str(uci_move);
    let moves = gen_all_moves(board);
    let mut i: usize = 0;
    while i < moves.moves.len()
        invariant
            i <= moves.moves@.len(),
            list_ok(*board, moves.moves@, 0),
            board.wf(),
            king_bb(*board, board.to_play) != 0,
            wanted@ == uci_move@,
            crate::movegen::all_produced(*board, move_pass(*board), moves.moves@, 0),
            forall|m: Move| #[trigger] produces(*board, move_pass(*board), m) ==> listed(moves.moves@, 0, m),
            forall|j: int|
                0 <= j < i ==> !(spec_format_move(#[trigger] moves.moves@[j].mov) == uci_move@
                    && legal_root_move(*board, moves.moves@[j].mov)),
        decreases moves.moves@.len() - i,
    {
        let m = moves.moves[i].mov;
        assert(generated_ok(*board, moves.moves@[i as int].mov));
        proof {
            lemma_move_classes(m);
        }
        let text = format_move(m);
        if text == wanted && board.legal(m) {
            return Some(m);
        }
        i += 1;
    }
    proof {
        assert forall|m: Move|
            #[trigger] produces(*board, move_pass(*board), m) && spec_format_move(m) == uci_move@
                implies !legal_root_move(*board, m) by {
            let j = choose|j: int| 0 <= j < moves.moves@.len() && #[trigger] moves.moves@[j].mov == m;
            assert(moves.moves@[j].mov == m);
        }
    }
    None
}


/// The promotion letter of coordinate notation names the piece promoted to: a promotion
/// (quiet or capturing) to a queen, rook, bishop or knight is written with five characters,
/// the last being `q`, `r`, `b` or `n`; any other move with four.
pub proof fn lemma_promotion_letter(from: crate::square::Sq, to: crate::square::Sq, flags: crate::chess_move::MoveFlags)
    ensures
        ({
            let t = spec_format_move(Move::spec_new(from, to, flags));
            &&& (flags == crate::chess_move::MoveFlags::PromoQueen || flags == crate::chess_move::MoveFlags::PromoCaptureQueen)
                ==> t.len() == 5 && t[4] == 'q'
            &&& (flags == crate::chess_move::MoveFlags::PromoRook || flags == crate::chess_move::MoveFlags::PromoCaptureRook)
                ==> t.len() == 5 && t[4] == 'r'
            &&& (flags == crate::chess_move::MoveFlags::PromoBishop || flags == crate::chess_move::MoveFlags::PromoCaptureBishop)
                ==> t.len() == 5 && t[4] == 'b'
            &&& (flags == crate::chess_move::MoveFlags::PromoKnight || flags == crate::chess_move::MoveFlags::PromoCaptureKnight)
                ==> t.len() == 5 && t[4] == 'n'
            &&& flags.code() < 8 ==> t.len() == 4
        }),
{
    let m = Move::spec_new(from, to, flags);
    crate::chess_move::lemma_move_roundtrip(from, to, flags, m);
    lemma_move_classes(m);
}


/// Reading back a promotion letter: a move written with five characters is a promotion,
/// and its last letter `q`, `r`, `b` or `n` names the piece it promotes to (so a move
/// [`find_move`] finds for such a text promotes to that piece).
pub proof fn lemma_promotion_letter_reads(m: Move)
    ensures
        ({
            let t = spec_format_move(m);
            &&& t.len() == 4 || t.len() == 5
            &&& t.len() == 5 ==> m.spec_is_promotion()
            &&& t.len() == 5 && t[4] == 'q' ==> m.spec_promotion_piece() == Some(Piece::Queen)
            &&& t.len() == 5 && t[4] == 'r' ==> m.spec_promotion_piece() == Some(Piece::Rook)
            &&& t.len() == 5 && t[4] == 'b' ==> m.spec_promotion_piece() == Some(Piece::Bishop)
            &&& t.len() == 5 && t[4] == 'n' ==> m.spec_promotion_piece() == Some(Piece::Knight)
        }),
{
}

} // verus!
