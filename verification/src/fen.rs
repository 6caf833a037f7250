use crate::bitboard::bit;
use crate::board::{
    cap_sq, has_color, has_kind, hash_pieces, placed_piece, pseudo_ok, rook_sqs,
    spec_checkers, spec_make,
    Board, UNCOMPUTED_PINNED,
};
use crate::castling::CastlingRights;
use crate::chess_move::Move;
use crate::color::Color;
use crate::piece::{piece_letter, spec_parse_piece, ColoredPiece, Piece};
use crate::square::{file_of, rank_of, spec_parse_sq, Sq};
use crate::text::{decimal, digit_char, push_char, push_decimal, to_chars};
use crate::zobrist::{
    castling_key, en_passant_key, piece_key, side_key, zobrist_castling, zobrist_en_passant,
    zobrist_piece, zobrist_side,
};
use vstd::prelude::*;

verus! {

/// The FEN of the standard starting position.
pub const START_POS_FEN: &'static str = "rnbqkbnr/pppppppp/8/8/8/8/PPPPPPPP/RNBQKBNR w KQkq - 0 1";

impl Default for Board {
    /// The empty board: no pieces, no castling rights, White to move.
    fn default() -> (r: Self)
        ensures
            r.wf(),
            forall|i: int| 0 <= i < 64 ==> r.mailbox@[i] is None,
            r.castling_rights.0 == 0,
            r.to_play == Color::White,
            r.en_passant_target_sq is None,
            r.half_move_clock == 0,
            r.ply == 0,
            r.hash == 0,
            r.checkers == 0,
            r.pinned == UNCOMPUTED_PINNED,
    {
        let b = Board {
            mailbox: [None; 64],
            bit_colors: [0; 2],
            bit_pieces: [0; 6],
            checkers: 0,
            pinned: UNCOMPUTED_PINNED,
            hash: 0,
            castling_rights: CastlingRights(0),
            to_play: Color::White,
            en_passant_target_sq: None,
            half_move_clock: 0,
            ply: 0,
        };
        proof {
            crate::bitboard::lemma_bit_ops(0, 0, 0);
        }
        b
    }
}

/// The first position at or after `i` that is not a space.
pub open spec fn skip_spaces(s: Seq<char>, i: int) -> int
    decreases s.len() - i,
{
    if i >= s.len() {
        i
    } else if s[i] == ' ' {
        skip_spaces(s, i + 1)
    } else {
        i
    }
}

/// The first position at or after `i` that is a space, or the end.
pub open spec fn field_end(s: Seq<char>, i: int) -> int
    decreases s.len() - i,
{
    if i >= s.len() {
        i
    } else if s[i] == ' ' {
        i
    } else {
        field_end(s, i + 1)
    }
}

/// Start and end of the `k`-th field (fields are separated by spaces); empty past the last.
pub open spec fn field_bounds(s: Seq<char>, k: nat) -> (int, int)
    decreases k,
{
    let a = if k == 0 {
        skip_spaces(s, 0)
    } else {
        skip_spaces(s, field_bounds(s, (k - 1) as nat).1)
    };
    (a, field_end(s, a))
}

/// The `k`-th field of `s`.
pub open spec fn field(s: Seq<char>, k: nat) -> Seq<char> {
    s.subrange(field_bounds(s, k).0, field_bounds(s, k).1)
}

/// Reads the piece placement from position `i` of `p` on, the next square to fill being
/// file `f` of rank `r`: ranks from the eighth down separated by `/`, a digit skipping that
/// many empty squares, a letter placing a piece; every rank must hold exactly eight squares.
pub open spec fn place(p: Seq<char>, i: int, r: int, f: int, mb: Seq<Option<ColoredPiece>>) -> Option<
    Seq<Option<ColoredPiece>>,
>
    decreases p.len() - i,
{
    if i < 0 || i >= p.len() {
        if r == 0 && f == 8 {
            Some(mb)
        } else {
            None
        }
    } else {
        let c = p[i];
        if c == '/' {
            if f == 8 && r > 0 {
                place(p, i + 1, r - 1, 0, mb)
            } else {
                None
            }
        } else if empty_run(c) > 0 {
            let n = empty_run(c);
            if f + n <= 8 {
                place(p, i + 1, r, f + n, mb)
            } else {
                None
            }
        } else {
            match spec_parse_piece(c) {
                Some(pc) => if f < 8 && 0 <= r < 8 {
                    place(p, i + 1, r, f + 1, mb.update(r * 8 + f, Some(pc)))
                } else {
                    None
                },
                None => None,
            }
        }
    }
}

/// The number of empty squares a placement digit `1`..`8` stands for; zero for any
/// other character.
pub open spec fn empty_run(c: char) -> int {
    if c == '1' {
        1
    } else if c == '2' {
        2
    } else if c == '3' {
        3
    } else if c == '4' {
        4
    } else if c == '5' {
        5
    } else if c == '6' {
        6
    } else if c == '7' {
        7
    } else if c == '8' {
        8
    } else {
        0
    }
}

fn run_of(c: char) -> (r: i32)
    ensures
        r == empty_run(c),
{
    match c {
        '1' => 1,
        '2' => 2,
        '3' => 3,
        '4' => 4,
        '5' => 5,
        '6' => 6,
        '7' => 7,
        '8' => 8,
        _ => 0,
    }
}

/// Sixty-four empty squares.
pub open spec fn empty_mailbox() -> Seq<Option<ColoredPiece>> {
    Seq::new(64, |i: int| None)
}

/// The castling rights of a FEN castling field from position `i` on, `acc` holding those read.
pub open spec fn castle_chars(t: Seq<char>, i: int, acc: u8) -> Option<u8>
    decreases t.len() - i,
{
    if i < 0 || i >= t.len() {
        Some(acc)
    } else {
        let bit: u8 = if t[i] == 'K' {
            1
        } else if t[i] == 'Q' {
            2
        } else if t[i] == 'k' {
            4
        } else if t[i] == 'q' {
            8
        } else {
            0
        };
        if bit == 0 {
            None
        } else {
            castle_chars(t, i + 1, acc | bit)
        }
    }
}

/// The castling rights a FEN castling field names: `-` or letters among `KQkq`.
pub open spec fn parse_castling(t: Seq<char>) -> Option<u8> {
    if t == seq!['-'] {
        Some(0)
    } else {
        castle_chars(t, 0, 0)
    }
}

/// The value of a decimal digit character; -1 for any other character.
pub open spec fn digit_value(c: char) -> int {
    if c == '0' {
        0
    } else if c == '1' {
        1
    } else if c == '2' {
        2
    } else if c == '3' {
        3
    } else if c == '4' {
        4
    } else if c == '5' {
        5
    } else if c == '6' {
        6
    } else if c == '7' {
        7
    } else if c == '8' {
        8
    } else if c == '9' {
        9
    } else {
        -1
    }
}

fn digit_of(c: char) -> (r: i64)
    ensures
        r == digit_value(c),
{
    match c {
        '0' => 0,
        '1' => 1,
        '2' => 2,
        '3' => 3,
        '4' => 4,
        '5' => 5,
        '6' => 6,
        '7' => 7,
        '8' => 8,
        '9' => 9,
        _ => -1,
    }
}

/// Whether every character of `t` is a decimal digit.
pub open spec fn all_digits(t: Seq<char>) -> bool {
    forall|i: int| 0 <= i < t.len() ==> #[trigger] digit_value(t[i]) >= 0
}

/// The number the first `n` digits of `t` spell.
pub open spec fn digits_value(t: Seq<char>, n: int) -> nat
    decreases n,
{
    if n <= 0 {
        0
    } else {
        (digits_value(t, n - 1) * 10 + digit_value(t[n - 1])) as nat
    }
}

/// The number a field of decimal digits spells, if it is one.
pub open spec fn parse_number(t: Seq<char>) -> Option<nat> {
    if t.len() > 0 && all_digits(t) {
        Some(digits_value(t, t.len() as int))
    } else {
        None
    }
}

/// What a FEN describes.
pub struct FenData {
    pub mailbox: Seq<Option<ColoredPiece>>,
    pub to_play: Color,
    pub castling: u8,
    pub ep: Option<int>,
    pub half_move_clock: u8,
    pub ply: u16,
}

/// Reads a FEN: piece placement, side to move (`w` or `b`), castling rights, en-passant
/// target (`-` or a square), and optionally the half-move clock (at most 255, zero when
/// absent) and the full-move number (one when absent; zero counts as one). The ply is
/// twice the full moves played, plus one when Black is to move.
pub open spec fn spec_fen(s: Seq<char>) -> Option<FenData> {
    let f0 = field(s, 0);
    let f1 = field(s, 1);
    let f2 = field(s, 2);
    let f3 = field(s, 3);
    let f4 = field(s, 4);
    let f5 = field(s, 5);
    let mb = place(f0, 0, 7, 0, empty_mailbox());
    let side = if f1 == seq!['w'] {
        Some(Color::White)
    } else if f1 == seq!['b'] {
        Some(Color::Black)
    } else {
        None
    };
    let castling = parse_castling(f2);
    let ep_ok = f3 == seq!['-'] || (f3.len() == 2 && spec_parse_sq(f3) is Some);
    let ep = if f3 == seq!['-'] {
        None
    } else {
        spec_parse_sq(f3)
    };
    let half = if f4.len() == 0 {
        Some(0nat)
    } else {
        parse_number(f4)
    };
    let full = if f5.len() == 0 {
        Some(1nat)
    } else {
        parse_number(f5)
    };
    if mb is None || side is None || castling is None || !ep_ok || half is None || full is None {
        None
    } else if half.unwrap() > 255 || full.unwrap() > 32768 {
        None
    } else {
        let moves_played: int = if full.unwrap() == 0 {
            0
        } else {
            full.unwrap() - 1
        };
        Some(
            FenData {
                mailbox: mb.unwrap(),
                to_play: side.unwrap(),
                castling: castling.unwrap(),
                ep,
                half_move_clock: half.unwrap() as u8,
                ply: (moves_played * 2 + if side.unwrap() == Color::Black {
                    1int
                } else {
                    0int
                }) as u16,
            },
        )
    }
}

/// The Zobrist keys of the pieces on the first `n` squares of `mb`, combined.
pub open spec fn pieces_hash(mb: Seq<Option<ColoredPiece>>, n: int) -> u64
    decreases n,
{
    if n <= 0 {
        0
    } else {
        match mb[n - 1] {
            Some(p) => pieces_hash(mb, n - 1) ^ piece_key(n - 1, p),
            None => pieces_hash(mb, n - 1),
        }
    }
}

/// The Zobrist hash of a position: its pieces' keys, the key of its castling rights, the
/// key of its en-passant file if any, and the side key when Black is to move.
pub open spec fn full_hash(mb: Seq<Option<ColoredPiece>>, castling: u8, to_play: Color, ep: Option<int>) -> u64 {
    let h = pieces_hash(mb, 64) ^ castling_key(castling);
    let h = match ep {
        Some(e) => h ^ en_passant_key(file_of(e)),
        None => h,
    };
    if to_play == Color::Black {
        h ^ side_key()
    } else {
        h
    }
}

/// `b` is the position that `d` describes, with its hash and checkers computed and its
/// pinned set not yet computed.
pub open spec fn board_of_fen(b: Board, d: FenData) -> bool {
    &&& b.wf()
    &&& b.mailbox@ == d.mailbox
    &&& b.to_play == d.to_play
    &&& b.castling_rights.0 == d.castling
    &&& b@.ep == d.ep
    &&& b.half_move_clock == d.half_move_clock
    &&& b.ply == d.ply
    &&& b.hash == full_hash(d.mailbox, d.castling, d.to_play, d.ep)
    &&& b.checkers == spec_checkers(b)
    &&& b.pinned == UNCOMPUTED_PINNED
}


/// The bounds of the field that starts at the first non-space from `i` on.
fn next_field(s: &Vec<char>, i: usize) -> (r: (usize, usize))
    requires
        i <= s@.len(),
    ensures
        r.0 == skip_spaces(s@, i as int),
        r.1 == field_end(s@, r.0 as int),
        i <= r.0 <= r.1 <= s@.len(),
{
    let n = s.len();
    let mut a = i;
    while a < n && s[a] == ' '
        invariant
            i <= a <= n,
            n == s@.len(),
            skip_spaces(s@, i as int) == skip_spaces(s@, a as int),
        decreases n - a,
    {
        a += 1;
    }
    let mut b = a;
    while b < n && s[b] != ' '
        invariant
            a <= b <= n,
            n == s@.len(),
            field_end(s@, a as int) == field_end(s@, b as int),
        decreases n - b,
    {
        b += 1;
    }
    (a, b)
}

/// Reads the piece placement in positions `a..b` of `s` onto an empty board.
#[verifier::rlimit(40)]
fn parse_placement(s: &Vec<char>, a: usize, b: usize) -> (r: Option<Board>)
    requires
        a <= b <= s@.len(),
    ensures
        r is Some <==> place(s@.subrange(a as int, b as int), 0, 7, 0, empty_mailbox()) is Some,
        r matches Some(bd) ==> bd.wf() && Some(bd.mailbox@) == place(
            s@.subrange(a as int, b as int),
            0,
            7,
            0,
            empty_mailbox(),
        ) && bd.castling_rights.0 == 0,
{
    let ghost p = s@.subrange(a as int, b as int);
    let mut board = Board::default();
    assert(board.mailbox@ =~= empty_mailbox());
    let mut r: i32 = 7;
    let mut f: i32 = 0;
    let mut i = a;
    while i < b
        invariant
            a <= i <= b <= s@.len(),
            p == s@.subrange(a as int, b as int),
            0 <= r <= 7,
            0 <= f <= 8,
            board.wf(),
            board.castling_rights.0 == 0,
            place(p, 0, 7, 0, empty_mailbox()) == place(p, i - a, r as int, f as int, board.mailbox@),
            forall|j: int|
                0 <= j < 64 && (rank_of(j) < r || (rank_of(j) == r && file_of(j) >= f))
                    ==> #[trigger] board.mailbox@[j] is None,
        decreases b - i,
    {
        let c = s[i];
        assert(p[i - a] == c);
        let run = run_of(c);
        if c == '/' {
            if f == 8 && r > 0 {
                r = r - 1;
                f = 0;
            } else {
                return None;
            }
        } else if run > 0 {
            let n = run;
            if f + n <= 8 {
                f = f + n;
            } else {
                return None;
            }
        } else {
            match ColoredPiece::parse(c) {
                Some(pc) => {
                    if f < 8 {
                        let idx = (r * 8 + f) as u8;
                        let sq = Sq::from_index(idx);
                        assert(rank_of(idx as int) == r && file_of(idx as int) == f);
                        let ghost mb0 = board.mailbox@;
                        assert(place(p, i - a, r as int, f as int, mb0) == place(p, i - a + 1, r as int, f + 1, mb0.update(r * 8 + f, Some(pc))));
                        board.add_piece(sq, pc);
                        assert(board.mailbox@ == mb0.update(r * 8 + f, Some(pc)));
                        f = f + 1;
                    } else {
                        return None;
                    }
                },
                None => {
                    return None;
                },
            }
        }
        i += 1;
    }
    if r == 0 && f == 8 {
        Some(board)
    } else {
        None
    }
}


/// A number no smaller than the value of any of its digit prefixes.
pub(crate) proof fn lemma_digits_grow(t: Seq<char>, i: int, n: int)
    requires
        0 <= i <= n <= t.len(),
        all_digits(t),
    ensures
        digits_value(t, i) <= digits_value(t, n),
    decreases n - i,
{
    if i < n {
        lemma_digits_grow(t, i, n - 1);
        assert(digit_value(t[n - 1]) >= 0);
    }
}

/// Reads the number in positions `a..b` of `s`; `None` when it is not a number or exceeds
/// one million.
pub(crate) fn parse_number_field(s: &Vec<char>, a: usize, b: usize) -> (r: Option<u64>)
    requires
        a <= b <= s@.len(),
    ensures
        r matches Some(v) ==> parse_number(s@.subrange(a as int, b as int)) == Some(v as nat),
        r is None ==> (parse_number(s@.subrange(a as int, b as int)) is None || parse_number(
            s@.subrange(a as int, b as int),
        ).unwrap() > 1_000_000),
{
    let ghost t = s@.subrange(a as int, b as int);
    if a == b {
        return None;
    }
    let mut v: u64 = 0;
    let mut i = a;
    while i < b
        invariant
            a <= i <= b <= s@.len(),
            t == s@.subrange(a as int, b as int),
            v <= 1_000_000,
            v == digits_value(t, i - a),
            forall|j: int| 0 <= j < i - a ==> #[trigger] digit_value(t[j]) >= 0,
        decreases b - i,
    {
        let d = digit_of(s[i]);
        assert(t[i - a] == s@[i as int]);
        if d < 0 {
            return None;
        }
        let nv = v * 10 + d as u64;
        if nv > 1_000_000 {
            proof {
                assert(digits_value(t, i - a + 1) == nv);
                if all_digits(t) {
                    lemma_digits_grow(t, i - a + 1, t.len() as int);
                }
            }
            return None;
        }
        v = nv;
        i += 1;
    }
    Some(v)
}

/// Reads the castling field in positions `a..b` of `s`.
fn parse_castling_field(s: &Vec<char>, a: usize, b: usize) -> (r: Option<u8>)
    requires
        a <= b <= s@.len(),
    ensures
        r == parse_castling(s@.subrange(a as int, b as int)),
        r matches Some(c) ==> c < 16,
{
    let ghost t = s@.subrange(a as int, b as int);
    if b - a == 1 && s[a] == '-' {
        assert(t =~= seq!['-']);
        return Some(0);
    }
    assert(t != seq!['-']) by {
        if t == seq!['-'] {
            assert(t[0] == s@[a as int]);
        }
    }
    let mut acc: u8 = 0;
    let mut i = a;
    while i < b
        invariant
            a <= i <= b <= s@.len(),
            t == s@.subrange(a as int, b as int),
            acc < 16,
            t != seq!['-'],
            castle_chars(t, 0, 0) == castle_chars(t, i - a, acc),
        decreases b - i,
    {
        let c = s[i];
        assert(t[i - a] == c);
        let bit: u8 = if c == 'K' {
            1
        } else if c == 'Q' {
            2
        } else if c == 'k' {
            4
        } else if c == 'q' {
            8
        } else {
            0
        };
        if bit == 0 {
            assert(castle_chars(t, i - a, acc) is None);
            return None;
        }
        assert(acc | bit < 16) by (bit_vector)
            requires
                acc < 16,
                bit == 1 || bit == 2 || bit == 4 || bit == 8,
        ;
        acc = acc | bit;
        i += 1;
    }
    Some(acc)
}

/// The Zobrist hash of `b` computed from scratch (see [`full_hash`]).
pub fn compute_hash(b: &Board) -> (h: u64)
    requires
        b.castling_rights.0 < 16,
    ensures
        h == full_hash(b.mailbox@, b.castling_rights.0, b.to_play, b@.ep),
{
    let mut h: u64 = 0;
    let mut i: usize = 0;
    while i < 64
        invariant
            i <= 64,
            h == pieces_hash(b.mailbox@, i as int),
        decreases 64 - i,
    {
        match b.mailbox[i] {
            Some(p) => {
                h = h ^ zobrist_piece(Sq::from_index(i as u8), p);
            },
            None => {},
        }
        i += 1;
    }
    h = h ^ zobrist_castling(b.castling_rights);
    match b.en_passant_target_sq {
        Some(e) => {
            h = h ^ zobrist_en_passant(e);
        },
        None => {},
    }
    if b.to_play == Color::Black {
        h = h ^ zobrist_side();
    }
    h
}

/// Reads a FEN (see [`spec_fen`]); `None` when it is not one.
#[verifier::rlimit(60)]
pub fn parse_fen(fen: &str) -> (r: Option<Board>)
    ensures
        r is Some <==> spec_fen(fen@) is Some,
        r matches Some(b) ==> board_of_fen(b, spec_fen(fen@).unwrap()),
{
    let s = to_chars(fen);
    let ghost sv = fen@;
    let (a0, b0) = next_field(&s, 0);
    let (a1, b1) = next_field(&s, b0);
    let (a2, b2) = next_field(&s, b1);
    let (a3, b3) = next_field(&s, b2);
    let (a4, b4) = next_field(&s, b3);
    let (a5, b5) = next_field(&s, b4);
    assert(field_bounds(sv, 0) == (a0 as int, b0 as int));
    assert(field_bounds(sv, 1) == (a1 as int, b1 as int));
    assert(field_bounds(sv, 2) == (a2 as int, b2 as int));
    assert(field_bounds(sv, 3) == (a3 as int, b3 as int));
    assert(field_bounds(sv, 4) == (a4 as int, b4 as int));
    assert(field_bounds(sv, 5) == (a5 as int, b5 as int));
    let ghost f1 = sv.subrange(a1 as int, b1 as int);
    let ghost f3 = sv.subrange(a3 as int, b3 as int);
    assert(f1 == field(sv, 1));
    assert(f3 == field(sv, 3));
    assert(s@ == sv);
    let ghost d = spec_fen(sv);
    let mut board = match parse_placement(&s, a0, b0) {
        Some(bd) => bd,
        None => return None,
    };
    let side = if b1 - a1 == 1 && s[a1] == 'w' {
        assert(f1 =~= seq!['w']);
        Color::White
    } else if b1 - a1 == 1 && s[a1] == 'b' {
        assert(f1 =~= seq!['b']);
        Color::Black
    } else {
        assert(f1 != seq!['w'] && f1 != seq!['b']) by {
            if f1 == seq!['w'] || f1 == seq!['b'] {
                assert(f1[0] == s@[a1 as int]);
            }
        }
        return None;
    };
    let castling = match parse_castling_field(&s, a2, b2) {
        Some(c) => c,
        None => return None,
    };
    let ep = if b3 - a3 == 1 && s[a3] == '-' {
        assert(f3 =~= seq!['-']);
        None
    } else {
        assert(f3 != seq!['-']) by {
            if f3 == seq!['-'] {
                assert(f3.len() == 1);
                assert(b3 == a3 + 1);
                assert(f3[0] == sv[a3 as int]);
                assert(s@[a3 as int] == '-');
            }
        }
        if b3 - a3 != 2 {
            return None;
        }
        let fc = s[a3];
        let rc = s[a3 + 1];
        assert(f3[0] == fc && f3[1] == rc);
        let fl: u8 = match fc {
            'a' => 0,
            'b' => 1,
            'c' => 2,
            'd' => 3,
            'e' => 4,
            'f' => 5,
            'g' => 6,
            'h' => 7,
            _ => return None,
        };
        let rk: u8 = match rc {
            '1' => 0,
            '2' => 1,
            '3' => 2,
            '4' => 3,
            '5' => 4,
            '6' => 5,
            '7' => 6,
            '8' => 7,
            _ => return None,
        };
        match Sq::new(fl, rk) {
            Some(sq) => Some(sq),
            None => return None,
        }
    };
    let half: u64 = if a4 == b4 {
        0
    } else {
        match parse_number_field(&s, a4, b4) {
            Some(v) => v,
            None => return None,
        }
    };
    let full: u64 = if a5 == b5 {
        1
    } else {
        match parse_number_field(&s, a5, b5) {
            Some(v) => v,
            None => return None,
        }
    };
    if half > 255 || full > 32768 {
        return None;
    }
    let moves_played: u64 = if full == 0 {
        0
    } else {
        full - 1
    };
    let ply = (moves_played * 2 + if side == Color::Black {
        1
    } else {
        0
    }) as u16;
    board.to_play = side;
    board.castling_rights = CastlingRights(castling);
    board.en_passant_target_sq = ep;
    board.half_move_clock = half as u8;
    board.ply = ply;
    board.pinned = UNCOMPUTED_PINNED;
    board.hash = compute_hash(&board);
    board.set_checkers();
    Some(board)
}

impl Board {
    /// The standard starting position.
    pub fn start_pos() -> (r: Self)
        ensures
            r.wf(),
            board_of_fen(r, start_data()),
    {
        proof {
            lemma_start_fen();
        }
        match parse_fen(START_POS_FEN) {
            Some(b) => b,
            None => Board::default(),
        }
    }

    /// The position a FEN describes (see [`spec_fen`]), if it is one.
    pub fn from_fen(fen: &str) -> (r: Option<Self>)
        ensures
            r is Some <==> spec_fen(fen@) is Some,
            r matches Some(b) ==> board_of_fen(b, spec_fen(fen@).unwrap()),
    {
        parse_fen(fen)
    }
}


/// The FEN text of rank `r` from file `f` on, `run` empty squares being pending: a piece
/// is written as its letter, a run of empty squares as its length.
pub open spec fn fmt_rank(mb: Seq<Option<ColoredPiece>>, r: int, f: int, run: int) -> Seq<char>
    decreases 8 - f,
{
    if f >= 8 {
        if run > 0 {
            seq![digit_char(run)]
        } else {
            Seq::empty()
        }
    } else {
        match mb[r * 8 + f] {
            None => fmt_rank(mb, r, f + 1, run + 1),
            Some(p) => (if run > 0 {
                seq![digit_char(run)]
            } else {
                Seq::empty()
            }) + seq![piece_letter(p)] + fmt_rank(mb, r, f + 1, 0),
        }
    }
}

/// The FEN piece placement of ranks `r` down to the first, separated by `/`.
pub open spec fn fmt_placement(mb: Seq<Option<ColoredPiece>>, r: int) -> Seq<char>
    decreases r,
{
    if r <= 0 {
        fmt_rank(mb, 0, 0, 0)
    } else {
        fmt_rank(mb, r, 0, 0) + seq!['/'] + fmt_placement(mb, r - 1)
    }
}

/// The FEN castling field: `-`, or the letters of the rights held in the order `KQkq`.
pub open spec fn fmt_castling(c: u8) -> Seq<char> {
    if c & 15 == 0 {
        seq!['-']
    } else {
        (if c & 1 != 0 {
            seq!['K']
        } else {
            Seq::empty()
        }) + (if c & 2 != 0 {
            seq!['Q']
        } else {
            Seq::empty()
        }) + (if c & 4 != 0 {
            seq!['k']
        } else {
            Seq::empty()
        }) + (if c & 8 != 0 {
            seq!['q']
        } else {
            Seq::empty()
        })
    }
}

/// The FEN en-passant field: `-` or the target square's name.
pub open spec fn fmt_ep(ep: Option<int>) -> Seq<char> {
    match ep {
        None => seq!['-'],
        Some(e) => seq![('a' as int + file_of(e)) as char, ('1' as int + rank_of(e)) as char],
    }
}

/// The FEN text of a position given by its parts: placement, side to move, castling
/// rights, en-passant target, half-move clock and full-move number (half the ply, plus one).
pub open spec fn fen_text(
    mb: Seq<Option<ColoredPiece>>,
    to_play: Color,
    castling: u8,
    ep: Option<int>,
    half: u8,
    ply: u16,
) -> Seq<char> {
    fmt_placement(mb, 7) + seq![' '] + (if to_play == Color::White {
        seq!['w']
    } else {
        seq!['b']
    }) + seq![' '] + fmt_castling(castling) + seq![' '] + fmt_ep(ep) + seq![' '] + decimal(
        half as nat,
    ) + seq![' '] + decimal((ply / 2 + 1) as nat)
}

/// The FEN of `b` (see [`fen_text`]).
pub open spec fn spec_to_fen(b: Board) -> Seq<char> {
    fen_text(b.mailbox@, b.to_play, b.castling_rights.0, b@.ep, b.half_move_clock, b.ply)
}

fn run_digit(run: u8) -> (c: char)
    requires
        1 <= run <= 8,
    ensures
        c == digit_char(run as int),
{
    match run {
        1 => '1',
        2 => '2',
        3 => '3',
        4 => '4',
        5 => '5',
        6 => '6',
        7 => '7',
        _ => '8',
    }
}

/// Appends the FEN text of rank `r`.
fn push_rank(s: &mut String, b: &Board, r: u8)
    requires
        r < 8,
    ensures
        final(s)@ == old(s)@ + fmt_rank(b.mailbox@, r as int, 0, 0),
{
    let mut run: u8 = 0;
    let mut f: u8 = 0;
    while f < 8
        invariant
            r < 8,
            f <= 8,
            run <= f,
            s@ + fmt_rank(b.mailbox@, r as int, f as int, run as int) == old(s)@ + fmt_rank(
                b.mailbox@,
                r as int,
                0,
                0,
            ),
        decreases 8 - f,
    {
        match b.mailbox[(r * 8 + f) as usize] {
            None => {
                run = run + 1;
            },
            Some(p) => {
                if run > 0 {
                    push_char(s, run_digit(run));
                }
                push_char(s, p.to_char());
                run = 0;
            },
        }
        f = f + 1;
    }
    if run > 0 {
        push_char(s, run_digit(run));
    }
}


/// Writes the FEN piece placement of `b`.
fn format_placement(b: &Board) -> (r: String)
    ensures
        r@ == fmt_placement(b.mailbox@, 7),
{
    let mut s = String::new();
    let mut r: u8 = 7;
    let ghost mb = b.mailbox@;
    loop
        invariant_except_break
            r < 8,
            mb == b.mailbox@,
            s@ + fmt_placement(mb, r as int) == fmt_placement(mb, 7),
        ensures
            s@ == fmt_placement(mb, 7),
        decreases r,
    {
        let ghost before = s@;
        push_rank(&mut s, b, r);
        if r == 0 {
            assert(s@ == before + fmt_placement(mb, 0));
            break;
        }
        push_char(&mut s, '/');
        proof {
            let rest = fmt_placement(mb, r - 1);
            assert(fmt_placement(mb, r as int) == fmt_rank(mb, r as int, 0, 0) + seq!['/'] + rest);
            assert(s@ + rest =~= before + fmt_placement(mb, r as int));
        }
        r = r - 1;
    }
    s
}

fn push_castling(s: &mut String, c: u8)
    ensures
        final(s)@ == old(s)@ + fmt_castling(c),
{
    if c & 15 == 0 {
        push_char(s, '-');
        return;
    }
    let ghost s0 = s@;
    let ghost k = if c & 1 != 0 { seq!['K'] } else { Seq::<char>::empty() };
    let ghost q = if c & 2 != 0 { seq!['Q'] } else { Seq::<char>::empty() };
    let ghost kk = if c & 4 != 0 { seq!['k'] } else { Seq::<char>::empty() };
    let ghost qq = if c & 8 != 0 { seq!['q'] } else { Seq::<char>::empty() };
    if c & 1 != 0 {
        push_char(s, 'K');
    }
    assert(s@ =~= s0 + k);
    if c & 2 != 0 {
        push_char(s, 'Q');
    }
    assert(s@ =~= s0 + k + q);
    if c & 4 != 0 {
        push_char(s, 'k');
    }
    assert(s@ =~= s0 + k + q + kk);
    if c & 8 != 0 {
        push_char(s, 'q');
    }
    assert(s@ =~= s0 + (k + q + kk + qq));
}

pub(crate) fn push_ep(s: &mut String, ep: Option<Sq>)
    ensures
        final(s)@ == old(s)@ + fmt_ep(
            match ep {
                Some(e) => Some(e.idx()),
                None => None,
            },
        ),
{
    match ep {
        None => push_char(s, '-'),
        Some(e) => {
            let ghost s0 = s@;
            let (fc, rc) = e.name_chars();
            push_char(s, fc);
            push_char(s, rc);
            assert(s@ =~= s0 + seq![fc, rc]);
        },
    }
}

/// Writes the FEN of `b` (see [`spec_to_fen`]).
pub fn format_fen(b: &Board) -> (r: String)
    ensures
        r@ == spec_to_fen(*b),
{
    let mut s = format_placement(b);
    let ghost p0 = s@;
    push_char(&mut s, ' ');
    push_char(&mut s, if b.to_play == Color::White { 'w' } else { 'b' });
    push_char(&mut s, ' ');
    let ghost p1 = s@;
    push_castling(&mut s, b.castling_rights.0);
    push_char(&mut s, ' ');
    let ghost p2 = s@;
    push_ep(&mut s, b.en_passant_target_sq);
    push_char(&mut s, ' ');
    let ghost p3 = s@;
    push_decimal(&mut s, b.half_move_clock as u64);
    push_char(&mut s, ' ');
    let ghost p4 = s@;
    push_decimal(&mut s, (b.ply / 2 + 1) as u64);
    proof {
        let side = if b.to_play == Color::White { seq!['w'] } else { seq!['b'] };
        assert(p1 =~= p0 + seq![' '] + side + seq![' ']);
        assert(p2 =~= p1 + fmt_castling(b.castling_rights.0) + seq![' ']);
        assert(p3 =~= p2 + fmt_ep(b@.ep) + seq![' ']);
        assert(p4 =~= p3 + decimal(b.half_move_clock as nat) + seq![' ']);
        assert(s@ =~= p4 + decimal((b.ply / 2 + 1) as nat));
        assert(s@ =~= spec_to_fen(*b));
    }
    s
}

impl Board {
    /// The FEN of this position (see [`spec_to_fen`]).
    pub fn to_fen(&self) -> (r: String)
        ensures
            r@ == spec_to_fen(*self),
    {
        format_fen(self)
    }
}

proof fn lemma_digit_char(d: int)
    requires
        0 <= d < 10,
    ensures
        digit_value(digit_char(d)) == d,
        1 <= d <= 8 ==> empty_run(digit_char(d)) == d,
        digit_char(d) != ' ',
        digit_char(d) != '/',
{
}

proof fn lemma_letter(p: ColoredPiece)
    ensures
        spec_parse_piece(piece_letter(p)) == Some(p),
        empty_run(piece_letter(p)) == 0,
        piece_letter(p) != '/',
        piece_letter(p) != ' ',
{
}

proof fn lemma_ep_chars(e: int)
    requires
        0 <= e < 64,
    ensures
        spec_parse_sq(fmt_ep(Some(e))) == Some(e),
        fmt_ep(Some(e)).len() == 2,
        fmt_ep(Some(e))[0] != ' ',
        fmt_ep(Some(e))[1] != ' ',
        fmt_ep(Some(e)) != seq!['-'],
{
}

/// Whether `t` holds no space.
pub open spec fn no_space(t: Seq<char>) -> bool {
    forall|i: int| 0 <= i < t.len() ==> t[i] != ' '
}

proof fn lemma_skip_shift(x: Seq<char>, y: Seq<char>, i: int)
    requires
        0 <= i <= y.len(),
    ensures
        skip_spaces(x + y, x.len() + i) == x.len() + skip_spaces(y, i),
    decreases y.len() - i,
{
    if i < y.len() {
        assert((x + y)[x.len() + i] == y[i]);
        lemma_skip_shift(x, y, i + 1);
    }
}

proof fn lemma_end_shift(x: Seq<char>, y: Seq<char>, i: int)
    requires
        0 <= i <= y.len(),
    ensures
        field_end(x + y, x.len() + i) == x.len() + field_end(y, i),
    decreases y.len() - i,
{
    if i < y.len() {
        assert((x + y)[x.len() + i] == y[i]);
        lemma_end_shift(x, y, i + 1);
    }
}

proof fn lemma_skip_bound(s: Seq<char>, i: int)
    requires
        0 <= i <= s.len(),
    ensures
        i <= skip_spaces(s, i) <= s.len(),
    decreases s.len() - i,
{
    if i < s.len() && s[i] == ' ' {
        lemma_skip_bound(s, i + 1);
    }
}

proof fn lemma_end_bound(s: Seq<char>, i: int)
    requires
        0 <= i <= s.len(),
    ensures
        i <= field_end(s, i) <= s.len(),
    decreases s.len() - i,
{
    if i < s.len() && s[i] != ' ' {
        lemma_end_bound(s, i + 1);
    }
}

proof fn lemma_bounds_in(s: Seq<char>, k: nat)
    ensures
        0 <= field_bounds(s, k).0 <= field_bounds(s, k).1 <= s.len(),
    decreases k,
{
    if k == 0 {
        lemma_skip_bound(s, 0);
        lemma_end_bound(s, skip_spaces(s, 0));
    } else {
        lemma_bounds_in(s, (k - 1) as nat);
        let e = field_bounds(s, (k - 1) as nat).1;
        lemma_skip_bound(s, e);
        lemma_end_bound(s, skip_spaces(s, e));
    }
}

proof fn lemma_end_run(s: Seq<char>, i: int, j: int)
    requires
        0 <= i <= j <= s.len(),
        forall|k: int| i <= k < j ==> s[k] != ' ',
        j == s.len() || s[j] == ' ',
    ensures
        field_end(s, i) == j,
    decreases j - i,
{
    if i < j {
        lemma_end_run(s, i + 1, j);
    }
}

proof fn lemma_fields_cons(p: Seq<char>, y: Seq<char>, k: nat)
    requires
        p.len() > 0,
        no_space(p),
    ensures
        field_bounds(p + seq![' '] + y, 0) == (0int, p.len() as int),
        field_bounds(p + seq![' '] + y, k + 1) == (
            p.len() + 1 + field_bounds(y, k).0,
            p.len() + 1 + field_bounds(y, k).1,
        ),
    decreases k,
{
    let x = p + seq![' '];
    let s = x + y;
    let n = x.len();
    assert(s[0] == p[0]);
    assert(s[p.len() as int] == ' ');
    assert forall|i: int| 0 <= i < p.len() implies s[i] != ' ' by {
        assert(s[i] == p[i]);
    }
    lemma_end_run(s, 0, p.len() as int);
    assert(skip_spaces(s, 0) == 0);
    assert(field_bounds(s, 0) == (0int, p.len() as int));
    if k == 0 {
        lemma_skip_shift(x, y, 0);
        lemma_skip_bound(y, 0);
        lemma_end_shift(x, y, skip_spaces(y, 0));
        assert(skip_spaces(s, p.len() as int) == skip_spaces(s, n as int));
        assert(field_bounds(s, 1).0 == n + skip_spaces(y, 0));
    } else {
        lemma_fields_cons(p, y, (k - 1) as nat);
        lemma_bounds_in(y, (k - 1) as nat);
        let e = field_bounds(y, (k - 1) as nat).1;
        lemma_skip_shift(x, y, e);
        lemma_skip_bound(y, e);
        lemma_end_shift(x, y, skip_spaces(y, e));
    }
}

/// The fields of `p`, a space, and `y`: `p` first, then the fields of `y`.
proof fn lemma_field_cons(p: Seq<char>, y: Seq<char>, k: nat)
    requires
        p.len() > 0,
        no_space(p),
    ensures
        field(p + seq![' '] + y, 0) == p,
        field(p + seq![' '] + y, k + 1) == field(y, k),
{
    lemma_fields_cons(p, y, k);
    let s = p + seq![' '] + y;
    assert(s.subrange(0, p.len() as int) =~= p);
    lemma_bounds_in(y, k);
    let (a, e) = field_bounds(y, k);
    assert(s.subrange(p.len() + 1 + a, p.len() + 1 + e) =~= y.subrange(a, e));
}

/// A text without spaces is its own first field.
proof fn lemma_field_single(y: Seq<char>)
    requires
        no_space(y),
    ensures
        field(y, 0) == y,
{
    lemma_end_run(y, 0, y.len() as int);
    assert(y.subrange(0, y.len() as int) =~= y);
}

proof fn lemma_digits_prefix(t: Seq<char>, c: char, k: int)
    requires
        0 <= k <= t.len(),
    ensures
        digits_value(t.push(c), k) == digits_value(t, k),
    decreases k,
{
    if k > 0 {
        lemma_digits_prefix(t, c, k - 1);
    }
}

/// The decimal text of a number reads back as that number.
proof fn lemma_decimal_parse(n: nat)
    ensures
        decimal(n).len() > 0,
        no_space(decimal(n)),
        parse_number(decimal(n)) == Some(n),
    decreases n,
{
    if n < 10 {
        lemma_digit_char(n as int);
        assert(digits_value(decimal(n), 0) == 0);
    } else {
        lemma_decimal_parse(n / 10);
        let t = decimal(n / 10);
        let c = digit_char((n % 10) as int);
        lemma_digit_char((n % 10) as int);
        lemma_digits_prefix(t, c, t.len() as int);
        assert(decimal(n) == t.push(c));
        assert(digits_value(t.push(c), t.len() + 1int) == digits_value(t, t.len() as int) * 10
            + digit_value(c));
        assert(all_digits(t));
        assert forall|i: int| 0 <= i < t.len() + 1 implies #[trigger] digit_value(t.push(c)[i])
            >= 0 && t.push(c)[i] != ' ' by {
            if i < t.len() {
                assert(t.push(c)[i] == t[i]);
                assert(digit_value(t[i]) >= 0);
            }
        }
    }
}

proof fn lemma_castle_bits_bv(c: u8)
    by (bit_vector)
    requires
        c < 16,
    ensures
        (c & 15 == 0) == (c == 0),
        c & 1 != 0 ==> c & 1 == 1,
        c & 2 != 0 ==> c & 2 == 2,
        c & 4 != 0 ==> c & 4 == 4,
        c & 8 != 0 ==> c & 8 == 8,
        c & 1 == 0 || c & 1 == 1,
        c & 2 == 0 || c & 2 == 2,
        c & 4 == 0 || c & 4 == 4,
        c & 8 == 0 || c & 8 == 8,
        (((0u8 | (c & 1)) | (c & 2)) | (c & 4)) | (c & 8) == c,
        c != 0 ==> (c & 1 != 0 || c & 2 != 0 || c & 4 != 0 || c & 8 != 0),
{
}

proof fn lemma_or_zero_bv(a: u8)
    by (bit_vector)
    ensures
        a | 0 == a,
{
}

proof fn lemma_castle_step(t: Seq<char>, i: int, acc: u8, v: u8)
    requires
        0 <= i,
        v == 0 || v == 1 || v == 2 || v == 4 || v == 8,
        v == 1 ==> i < t.len() && t[i] == 'K',
        v == 2 ==> i < t.len() && t[i] == 'Q',
        v == 4 ==> i < t.len() && t[i] == 'k',
        v == 8 ==> i < t.len() && t[i] == 'q',
    ensures
        castle_chars(t, i, acc) == castle_chars(t, i + if v == 0 { 0int } else { 1int }, acc | v),
{
    lemma_or_zero_bv(acc);
}

/// The castling field of rights held in the four castling bits reads back as those rights.
proof fn lemma_castling_parse(c: u8)
    requires
        c < 16,
    ensures
        parse_castling(fmt_castling(c)) == Some(c),
        fmt_castling(c).len() > 0,
        no_space(fmt_castling(c)),
{
    lemma_castle_bits_bv(c);
    if c != 0 {
        let o1 = if c & 1 != 0 { seq!['K'] } else { Seq::<char>::empty() };
        let o2 = if c & 2 != 0 { seq!['Q'] } else { Seq::<char>::empty() };
        let o4 = if c & 4 != 0 { seq!['k'] } else { Seq::<char>::empty() };
        let o8 = if c & 8 != 0 { seq!['q'] } else { Seq::<char>::empty() };
        let t = o1 + o2 + o4 + o8;
        assert(fmt_castling(c) == t);
        let p1 = o1.len() as int;
        let p2 = p1 + o2.len();
        let p3 = p2 + o4.len();
        let p4 = p3 + o8.len();
        assert(t.len() == p4);
        assert(c & 1 != 0 ==> t[0] == 'K');
        assert(c & 2 != 0 ==> t[p1] == 'Q');
        assert(c & 4 != 0 ==> t[p2] == 'k');
        assert(c & 8 != 0 ==> t[p3] == 'q');
        lemma_castle_step(t, 0, 0, c & 1);
        lemma_castle_step(t, p1, 0u8 | (c & 1), c & 2);
        lemma_castle_step(t, p2, (0u8 | (c & 1)) | (c & 2), c & 4);
        lemma_castle_step(t, p3, ((0u8 | (c & 1)) | (c & 2)) | (c & 4), c & 8);
        assert(castle_chars(t, p4, c) == Some(c));
        assert(t.len() > 0);
        assert(t[0] != '-');
        assert(t != seq!['-']);
        assert forall|i: int| 0 <= i < t.len() implies t[i] != ' ' by {
            assert(t[i] == 'K' || t[i] == 'Q' || t[i] == 'k' || t[i] == 'q');
        }
    }
}

proof fn lemma_rank_chars(mb: Seq<Option<ColoredPiece>>, r: int, f: int, run: int)
    requires
        0 <= r < 8,
        0 <= run <= f <= 8,
        mb.len() == 64,
    ensures
        no_space(fmt_rank(mb, r, f, run)),
        forall|i: int| 0 <= i < fmt_rank(mb, r, f, run).len() ==> fmt_rank(mb, r, f, run)[i] != '/',
        run > 0 || f < 8 ==> fmt_rank(mb, r, f, run).len() > 0,
    decreases 8 - f,
{
    if f < 8 {
        lemma_rank_chars(mb, r, f + 1, if mb[r * 8 + f] is None { run + 1 } else { 0 });
        if run > 0 {
            lemma_digit_char(run);
        }
        match mb[r * 8 + f] {
            Some(p) => {
                lemma_letter(p);
            },
            None => {},
        }
    } else if run > 0 {
        lemma_digit_char(run);
    }
}

proof fn lemma_placement_chars(mb: Seq<Option<ColoredPiece>>, r: int)
    requires
        0 <= r < 8,
        mb.len() == 64,
    ensures
        no_space(fmt_placement(mb, r)),
        fmt_placement(mb, r).len() > 0,
    decreases r,
{
    lemma_rank_chars(mb, r, 0, 0);
    if r > 0 {
        lemma_placement_chars(mb, r - 1);
    }
}

/// Reading back the text of rank `r` from file `f` on, `run` empty squares pending, that
/// stands at position `i` of `t`: the pieces of the rest of the rank are placed into `acc`.
proof fn lemma_place_rank(
    t: Seq<char>,
    i: int,
    mb: Seq<Option<ColoredPiece>>,
    r: int,
    f: int,
    run: int,
    acc: Seq<Option<ColoredPiece>>,
) -> (acc2: Seq<Option<ColoredPiece>>)
    requires
        0 <= r < 8,
        0 <= run <= f <= 8,
        mb.len() == 64,
        acc.len() == 64,
        0 <= i,
        i + fmt_rank(mb, r, f, run).len() <= t.len(),
        t.subrange(i, i + fmt_rank(mb, r, f, run).len()) == fmt_rank(mb, r, f, run),
        forall|q: int| r * 8 + f - run <= q < r * 8 + f ==> #[trigger] mb[q] is None,
        forall|q: int| r * 8 + f - run <= q < r * 8 + 8 ==> #[trigger] acc[q] is None,
    ensures
        place(t, i, r, f - run, acc) == place(t, i + fmt_rank(mb, r, f, run).len(), r, 8, acc2),
        acc2.len() == 64,
        forall|j: int|
            0 <= j < 64 ==> acc2[j] == if r * 8 + f - run <= j < r * 8 + 8 {
                mb[j]
            } else {
                acc[j]
            },
    decreases 8 - f,
{
    let fr = fmt_rank(mb, r, f, run);
    assert forall|k: int| 0 <= k < fr.len() implies #[trigger] fr[k] == t[i + k] by {
        assert(t.subrange(i, i + fr.len())[k] == t[i + k]);
    }
    if f >= 8 {
        if run > 0 {
            lemma_digit_char(run);
            assert(fr[0] == digit_char(run));
            assert(t[i] == digit_char(run));
        }
        acc
    } else {
        match mb[r * 8 + f] {
            None => {
                let rest = fmt_rank(mb, r, f + 1, run + 1);
                assert(fr == rest);
                lemma_place_rank(t, i, mb, r, f + 1, run + 1, acc)
            },
            Some(p) => {
                let d = if run > 0 {
                    seq![digit_char(run)]
                } else {
                    Seq::empty()
                };
                let rest = fmt_rank(mb, r, f + 1, 0);
                assert(fr == d + seq![piece_letter(p)] + rest);
                lemma_letter(p);
                if run > 0 {
                    lemma_digit_char(run);
                    assert(fr[0] == digit_char(run));
                    assert(t[i] == digit_char(run));
                    assert(place(t, i, r, f - run, acc) == place(t, i + 1, r, f, acc));
                }
                let li = i + d.len();
                assert(fr[d.len() as int] == piece_letter(p));
                assert(t[li] == piece_letter(p));
                let acc1 = acc.update(r * 8 + f, Some(p));
                assert(place(t, li, r, f, acc) == place(t, li + 1, r, f + 1, acc1));
                assert(t.subrange(li + 1, li + 1 + rest.len()) =~= rest) by {
                    assert forall|k: int| 0 <= k < rest.len() implies t.subrange(
                        li + 1,
                        li + 1 + rest.len(),
                    )[k] == rest[k] by {
                        assert(fr[d.len() + 1 + k] == rest[k]);
                        assert(fr[d.len() + 1 + k] == t[i + (d.len() + 1 + k)]);
                    }
                }
                let acc2 = lemma_place_rank(t, li + 1, mb, r, f + 1, 0, acc1);
                assert forall|j: int| 0 <= j < 64 implies acc2[j] == if r * 8 + f - run <= j < r * 8
                    + 8 {
                    mb[j]
                } else {
                    acc[j]
                } by {
                    if r * 8 + f - run <= j < r * 8 + f {
                        assert(mb[j] is None);
                        assert(acc[j] is None);
                    }
                }
                acc2
            },
        }
    }
}

/// Reading back the placement text of ranks `r` down to the first, standing at the end of
/// `t` from position `i`, into `acc` that already holds the higher ranks, gives `mb`.
proof fn lemma_place_ranks(t: Seq<char>, i: int, mb: Seq<Option<ColoredPiece>>, r: int, acc: Seq<
    Option<ColoredPiece>,
>)
    requires
        0 <= r < 8,
        mb.len() == 64,
        acc.len() == 64,
        0 <= i <= t.len(),
        t.subrange(i, t.len() as int) == fmt_placement(mb, r),
        forall|q: int| (r + 1) * 8 <= q < 64 ==> #[trigger] acc[q] == mb[q],
        forall|q: int| 0 <= q < (r + 1) * 8 ==> #[trigger] acc[q] is None,
    ensures
        place(t, i, r, 0, acc) == Some(mb),
    decreases r,
{
    let fr = fmt_rank(mb, r, 0, 0);
    let tail = t.subrange(i, t.len() as int);
    if r == 0 {
        assert(tail == fr);
    } else {
        assert(tail == fr + seq!['/'] + fmt_placement(mb, r - 1));
    }
    assert(fr.len() <= tail.len());
    assert forall|k: int| 0 <= k < fr.len() implies #[trigger] fr[k] == t[i + k] by {
        assert(tail[k] == t[i + k]);
        assert(tail[k] == fr[k]);
    }
    assert(t.subrange(i, i + fr.len()) =~= fr);
    let acc2 = lemma_place_rank(t, i, mb, r, 0, 0, acc);
    let e = i + fr.len();
    if r == 0 {
        assert(fmt_placement(mb, 0) == fr);
        assert(e == t.len());
        assert(acc2 =~= mb);
    } else {
        let rest = fmt_placement(mb, r - 1);
        assert(fmt_placement(mb, r) == fr + seq!['/'] + rest);
        assert(tail[fr.len() as int] == '/');
        assert(t[e] == '/');
        assert(place(t, e, r, 8, acc2) == place(t, e + 1, r - 1, 0, acc2));
        assert(t.subrange(e + 1, t.len() as int) =~= rest) by {
            assert forall|k: int| 0 <= k < rest.len() implies t.subrange(e + 1, t.len() as int)[k]
                == rest[k] by {
                assert(tail[fr.len() + 1 + k] == t[i + (fr.len() + 1 + k)]);
            }
        }
        lemma_place_ranks(t, e + 1, mb, r - 1, acc2);
    }
}

/// The placement text of a mailbox reads back as that mailbox.
proof fn lemma_placement_parse(mb: Seq<Option<ColoredPiece>>)
    requires
        mb.len() == 64,
    ensures
        place(fmt_placement(mb, 7), 0, 7, 0, empty_mailbox()) == Some(mb),
        no_space(fmt_placement(mb, 7)),
        fmt_placement(mb, 7).len() > 0,
{
    let t = fmt_placement(mb, 7);
    assert(t.subrange(0, t.len() as int) =~= t);
    lemma_place_ranks(t, 0, mb, 7, empty_mailbox());
    lemma_placement_chars(mb, 7);
}

/// The six fields of six texts without spaces, joined by single spaces.
proof fn lemma_six_fields(
    p: Seq<char>,
    w: Seq<char>,
    c: Seq<char>,
    e: Seq<char>,
    h: Seq<char>,
    n: Seq<char>,
)
    requires
        p.len() > 0 && no_space(p),
        w.len() > 0 && no_space(w),
        c.len() > 0 && no_space(c),
        e.len() > 0 && no_space(e),
        h.len() > 0 && no_space(h),
        no_space(n),
    ensures
        ({
            let s = p + seq![' '] + w + seq![' '] + c + seq![' '] + e + seq![' '] + h + seq![' ']
                + n;
            &&& field(s, 0) == p
            &&& field(s, 1) == w
            &&& field(s, 2) == c
            &&& field(s, 3) == e
            &&& field(s, 4) == h
            &&& field(s, 5) == n
        }),
{
    let r4 = h + seq![' '] + n;
    let r3 = e + seq![' '] + r4;
    let r2 = c + seq![' '] + r3;
    let r1 = w + seq![' '] + r2;
    let s = p + seq![' '] + w + seq![' '] + c + seq![' '] + e + seq![' '] + h + seq![' '] + n;
    assert(s =~= p + seq![' '] + r1);
    lemma_field_cons(p, r1, 0);
    lemma_field_cons(p, r1, 1);
    lemma_field_cons(p, r1, 2);
    lemma_field_cons(p, r1, 3);
    lemma_field_cons(p, r1, 4);
    lemma_field_cons(w, r2, 0);
    lemma_field_cons(w, r2, 1);
    lemma_field_cons(w, r2, 2);
    lemma_field_cons(w, r2, 3);
    lemma_field_cons(c, r3, 0);
    lemma_field_cons(c, r3, 1);
    lemma_field_cons(c, r3, 2);
    lemma_field_cons(e, r4, 0);
    lemma_field_cons(e, r4, 1);
    lemma_field_cons(h, n, 0);
    lemma_field_single(n);
}

/// Reading back the FEN text of a position's parts gives back those parts, when the
/// parity of the ply matches the side to move (a FEN records the full-move number only).
proof fn lemma_fen_parts(
    mb: Seq<Option<ColoredPiece>>,
    to_play: Color,
    castling: u8,
    ep: Option<int>,
    half: u8,
    ply: u16,
)
    requires
        mb.len() == 64,
        castling < 16,
        ep matches Some(e) ==> 0 <= e < 64,
        (ply % 2 == 1) == (to_play == Color::Black),
    ensures
        spec_fen(fen_text(mb, to_play, castling, ep, half, ply)) == Some(
            FenData { mailbox: mb, to_play, castling, ep, half_move_clock: half, ply },
        ),
{
    let p = fmt_placement(mb, 7);
    let w = if to_play == Color::White {
        seq!['w']
    } else {
        seq!['b']
    };
    let c = fmt_castling(castling);
    let e = fmt_ep(ep);
    let h = decimal(half as nat);
    let n = decimal((ply / 2 + 1) as nat);
    let s = fen_text(mb, to_play, castling, ep, half, ply);
    lemma_placement_parse(mb);
    lemma_castling_parse(castling);
    lemma_decimal_parse(half as nat);
    lemma_decimal_parse((ply / 2 + 1) as nat);
    match ep {
        Some(sq) => {
            lemma_ep_chars(sq);
        },
        None => {},
    }
    lemma_six_fields(p, w, c, e, h, n);
    assert(s == p + seq![' '] + w + seq![' '] + c + seq![' '] + e + seq![' '] + h + seq![' '] + n);
    assert(field(s, 0) == p);
    assert(field(s, 1) == w);
    assert(field(s, 2) == c);
    assert(field(s, 3) == e);
    assert(field(s, 4) == h);
    assert(field(s, 5) == n);
    let side = if w == seq!['w'] {
        Some(Color::White)
    } else if w == seq!['b'] {
        Some(Color::Black)
    } else {
        None
    };
    if to_play == Color::Black {
        assert(w[0] != seq!['w'][0]);
    }
    assert(side == Some(to_play));
    assert(parse_castling(c) == Some(castling));
    let ep_ok = e == seq!['-'] || (e.len() == 2 && spec_parse_sq(e) is Some);
    let ep = if e == seq!['-'] {
        None
    } else {
        spec_parse_sq(e)
    };
    assert(ep_ok);
    assert(ep == ep);
    assert(parse_number(h) == Some(half as nat));
    assert(parse_number(n) == Some((ply / 2 + 1) as nat));
    assert(ply / 2 + 1 <= 32768);
    let moves_played: int = (ply / 2) as int;
    assert(moves_played * 2 + if to_play == Color::Black { 1int } else { 0int } == ply);
}

/// Reading back the FEN of a position gives back its placement, side to move, castling
/// rights, en-passant target, half-move clock and ply, when the parity of the ply matches
/// the side to move (a FEN records the full-move number only).
pub proof fn lemma_fen_roundtrip(b: Board)
    requires
        b.wf(),
        (b.ply % 2 == 1) == (b.to_play == Color::Black),
    ensures
        spec_fen(spec_to_fen(b)) == Some(
            FenData {
                mailbox: b.mailbox@,
                to_play: b.to_play,
                castling: b.castling_rights.0,
                ep: b@.ep,
                half_move_clock: b.half_move_clock,
                ply: b.ply,
            },
        ),
{
    match b.en_passant_target_sq {
        Some(sq) => {
            assert(0 <= sq.idx() < 64);
        },
        None => {},
    }
    lemma_fen_parts(b.mailbox@, b.to_play, b.castling_rights.0, b@.ep, b.half_move_clock, b.ply);
}

/// The piece on file `f` of a back rank at the start: rook, knight, bishop, queen, king,
/// bishop, knight, rook.
pub open spec fn back_rank_piece(f: int) -> Piece {
    if f == 0 || f == 7 {
        Piece::Rook
    } else if f == 1 || f == 6 {
        Piece::Knight
    } else if f == 2 || f == 5 {
        Piece::Bishop
    } else if f == 3 {
        Piece::Queen
    } else {
        Piece::King
    }
}

/// The content of square index `i` in the starting position.
pub open spec fn start_square(i: int) -> Option<ColoredPiece> {
    let r = i / 8;
    let f = i % 8;
    if r == 0 {
        Some(ColoredPiece { piece: back_rank_piece(f), color: Color::White })
    } else if r == 1 {
        Some(ColoredPiece { piece: Piece::Pawn, color: Color::White })
    } else if r == 6 {
        Some(ColoredPiece { piece: Piece::Pawn, color: Color::Black })
    } else if r == 7 {
        Some(ColoredPiece { piece: back_rank_piece(f), color: Color::Black })
    } else {
        None
    }
}

/// The squares of the starting position.
pub open spec fn start_mailbox() -> Seq<Option<ColoredPiece>> {
    Seq::new(64, |i: int| start_square(i))
}

/// The starting position as FEN data: White to move, all castling rights, no en-passant
/// target, clock and ply zero.
pub open spec fn start_data() -> FenData {
    FenData {
        mailbox: start_mailbox(),
        to_play: Color::White,
        castling: 15,
        ep: None,
        half_move_clock: 0,
        ply: 0,
    }
}

proof fn lemma_full_rank(mb: Seq<Option<ColoredPiece>>, r: int, f: int)
    requires
        mb.len() == 64,
        0 <= r < 8,
        0 <= f <= 8,
        forall|j: int| f <= j < 8 ==> #[trigger] mb[r * 8 + j] is Some,
    ensures
        fmt_rank(mb, r, f, 0) == Seq::new((8 - f) as nat, |k: int| piece_letter(mb[r * 8 + f + k].unwrap())),
    decreases 8 - f,
{
    if f < 8 {
        lemma_full_rank(mb, r, f + 1);
        assert(mb[r * 8 + f] is Some);
        assert(fmt_rank(mb, r, f, 0) =~= Seq::new((8 - f) as nat, |k: int| piece_letter(mb[r * 8 + f + k].unwrap())));
    } else {
        assert(fmt_rank(mb, r, f, 0) =~= Seq::new((8 - f) as nat, |k: int| piece_letter(mb[r * 8 + f + k].unwrap())));
    }
}

proof fn lemma_empty_rank(mb: Seq<Option<ColoredPiece>>, r: int, f: int, run: int)
    requires
        mb.len() == 64,
        0 <= r < 8,
        0 <= f <= 8,
        run >= 0,
        run + 8 - f > 0,
        forall|j: int| f <= j < 8 ==> #[trigger] mb[r * 8 + j] is None,
    ensures
        fmt_rank(mb, r, f, run) == seq![digit_char(run + 8 - f)],
    decreases 8 - f,
{
    if f < 8 {
        assert(mb[r * 8 + f] is None);
        lemma_empty_rank(mb, r, f + 1, run + 1);
    }
}

/// The standard starting FEN is the FEN text of the starting position.
pub proof fn lemma_start_fen_text()
    ensures
        START_POS_FEN@ == fen_text(start_mailbox(), Color::White, 15, None, 0, 0),
{
    let mb = start_mailbox();
    assert forall|j: int| 0 <= j < 8 implies #[trigger] mb[0 * 8 + j] is Some by {}
    assert forall|j: int| 0 <= j < 8 implies #[trigger] mb[1 * 8 + j] is Some by {}
    assert forall|j: int| 0 <= j < 8 implies #[trigger] mb[6 * 8 + j] is Some by {}
    assert forall|j: int| 0 <= j < 8 implies #[trigger] mb[7 * 8 + j] is Some by {}
    assert forall|j: int| 0 <= j < 8 implies #[trigger] mb[2 * 8 + j] is None by {}
    assert forall|j: int| 0 <= j < 8 implies #[trigger] mb[3 * 8 + j] is None by {}
    assert forall|j: int| 0 <= j < 8 implies #[trigger] mb[4 * 8 + j] is None by {}
    assert forall|j: int| 0 <= j < 8 implies #[trigger] mb[5 * 8 + j] is None by {}
    lemma_full_rank(mb, 0, 0);
    lemma_full_rank(mb, 1, 0);
    lemma_full_rank(mb, 6, 0);
    lemma_full_rank(mb, 7, 0);
    lemma_empty_rank(mb, 2, 0, 0);
    lemma_empty_rank(mb, 3, 0, 0);
    lemma_empty_rank(mb, 4, 0, 0);
    lemma_empty_rank(mb, 5, 0, 0);
    assert(fmt_rank(mb, 7, 0, 0) =~= seq!['r', 'n', 'b', 'q', 'k', 'b', 'n', 'r']);
    assert(fmt_rank(mb, 6, 0, 0) =~= seq!['p', 'p', 'p', 'p', 'p', 'p', 'p', 'p']);
    assert(fmt_rank(mb, 1, 0, 0) =~= seq!['P', 'P', 'P', 'P', 'P', 'P', 'P', 'P']);
    assert(fmt_rank(mb, 0, 0, 0) =~= seq!['R', 'N', 'B', 'Q', 'K', 'B', 'N', 'R']);
    assert(fmt_rank(mb, 2, 0, 0) =~= seq!['8']);
    reveal_with_fuel(fmt_placement, 9);
    assert(15u8 & 15u8 != 0 && 15u8 & 1u8 != 0 && 15u8 & 2u8 != 0 && 15u8 & 4u8 != 0 && 15u8 & 8u8
        != 0) by (bit_vector);
    assert(fmt_castling(15) =~= seq!['K', 'Q', 'k', 'q']);
    assert(decimal(0) =~= seq!['0']);
    assert(decimal(1) =~= seq!['1']);
    reveal_strlit("rnbqkbnr/pppppppp/8/8/8/8/PPPPPPPP/RNBQKBNR w KQkq - 0 1");
    assert(START_POS_FEN@ =~= fen_text(mb, Color::White, 15, None, 0, 0));
}

/// The standard starting FEN reads as the starting position.
pub proof fn lemma_start_fen()
    ensures
        spec_fen(START_POS_FEN@) == Some(start_data()),
{
    lemma_start_fen_text();
    lemma_fen_parts(start_mailbox(), Color::White, 15, None, 0, 0);
}

/// The key that the content of square `s` adds to a hash: its piece's key, or nothing.
pub open spec fn content_key(v: Option<ColoredPiece>, s: int) -> u64 {
    match v {
        Some(p) => piece_key(s, p),
        None => 0,
    }
}

proof fn lemma_xor_bv(a: u64, b: u64, c: u64)
    by (bit_vector)
    ensures
        a ^ 0 == a,
        0 ^ a == a,
        a ^ a == 0,
        (a ^ b) ^ b == a,
        ((a ^ b) ^ c) == ((a ^ c) ^ b),
        (a ^ b) ^ c == a ^ (b ^ c),
{
}

/// Changing one square of a mailbox toggles the keys of its old and new contents in the
/// hash of the pieces.
proof fn lemma_pieces_hash_update(mb: Seq<Option<ColoredPiece>>, s: int, v: Option<ColoredPiece>, n: int)
    requires
        0 <= s < 64,
        0 <= n <= 64,
        mb.len() == 64,
    ensures
        pieces_hash(mb.update(s, v), n) == if n > s {
            (pieces_hash(mb, n) ^ content_key(mb[s], s)) ^ content_key(v, s)
        } else {
            pieces_hash(mb, n)
        },
    decreases n,
{
    if n > 0 {
        lemma_pieces_hash_update(mb, s, v, n - 1);
        let u = mb.update(s, v);
        let x = pieces_hash(mb, n - 1);
        let ko = content_key(mb[s], s);
        let kv = content_key(v, s);
        let k = content_key(mb[n - 1], n - 1);
        lemma_xor_bv(x, 0, 0);
        lemma_xor_bv(pieces_hash(u, n - 1), 0, 0);
        assert(pieces_hash(mb, n) == x ^ k);
        if n - 1 == s {
            assert(pieces_hash(u, n) == x ^ kv);
            assert(x ^ kv == ((x ^ ko) ^ ko) ^ kv) by {
                lemma_xor_bv(x, ko, 0);
            }
        } else if n - 1 > s {
            assert(u[n - 1] == mb[n - 1]);
            assert(pieces_hash(u, n) == ((x ^ ko) ^ kv) ^ k);
            assert(((x ^ ko) ^ kv) ^ k == ((x ^ k) ^ ko) ^ kv) by {
                lemma_xor_bv(x ^ ko, kv, k);
                lemma_xor_bv(x, ko, k);
            }
        } else {
            assert(u[n - 1] == mb[n - 1]);
        }
    }
}

/// Moving the pieces of move `m` toggles, in the hash of the pieces, exactly the keys that
/// [`hash_pieces`] toggles in the position's hash.
proof fn lemma_pieces_hash_move(b: Board, m: Move)
    requires
        b.wf(),
        pseudo_ok(b, m),
    ensures
        ({
            let a = spec_make(b@, m, 0);
            pieces_hash(a.mailbox, 64) ^ b.hash == pieces_hash(b.mailbox@, 64) ^ hash_pieces(b@, m)
        }),
{
    let mb = b.mailbox@;
    let us = b.to_play;
    let from = m.from_idx();
    let to = m.to_idx();
    let cs = cap_sq(m, us);
    let p = mb[from].unwrap();
    let pl = placed_piece(m, p, us);
    let h = b.hash;
    crate::chess_move::lemma_move_classes(m);
    let cap = m.spec_is_capture();
    let mb1 = if cap { mb.update(cs, None) } else { mb };
    let mb1a = mb1.update(from, None);
    let mb2 = mb1a.update(to, Some(pl));
    let ph0 = pieces_hash(mb, 64);
    // Taking the captured piece off.
    let tc: u64 = if cap { piece_key(cs, mb[cs].unwrap()) } else { 0 };
    if cap {
        lemma_pieces_hash_update(mb, cs, None, 64);
        lemma_xor_bv(ph0 ^ tc, 0, 0);
    }
    let ph1 = pieces_hash(mb1, 64);
    assert(ph1 == ph0 ^ tc) by {
        lemma_xor_bv(ph0, 0, 0);
    }
    // Lifting the mover.
    assert(mb1[from] == Some(p));
    lemma_pieces_hash_update(mb1, from, None, 64);
    let tf = piece_key(from, p);
    let ph1a = pieces_hash(mb1a, 64);
    assert(ph1a == ph1 ^ tf) by {
        lemma_xor_bv(ph1 ^ tf, 0, 0);
    }
    // Placing it (or its promotion) on the target.
    assert(mb1a[to] is None);
    lemma_pieces_hash_update(mb1a, to, Some(pl), 64);
    let tt = piece_key(to, pl);
    let ph2 = pieces_hash(mb2, 64);
    assert(ph2 == ph1a ^ tt) by {
        lemma_xor_bv(ph1a, 0, 0);
    }
    // The pieces part of the incremental hash.
    let h1 = if cap { h ^ tc } else { h };
    assert(h1 == h ^ tc) by {
        lemma_xor_bv(h, 0, 0);
    }
    let h2 = h1 ^ tf ^ piece_key(to, p);
    let h3 = if m.spec_is_promotion() {
        h2 ^ piece_key(to, p) ^ piece_key(to, pl)
    } else {
        h2
    };
    assert(h3 == (h1 ^ tf) ^ tt) by {
        let kp = piece_key(to, p);
        if m.spec_is_promotion() {
            assert((((h1 ^ tf) ^ kp) ^ kp) ^ tt == (h1 ^ tf) ^ tt) by {
                lemma_xor_bv(h1 ^ tf, kp, 0);
            }
        } else {
            assert(pl == p);
        }
    }
    if m.spec_is_castle() {
        let (rf, rt) = rook_sqs(m, us);
        let rook = mb[rf.idx()].unwrap();
        assert(mb2[rf.idx()] == Some(rook));
        let mb2b = mb2.update(rf.idx(), None);
        lemma_pieces_hash_update(mb2, rf.idx(), None, 64);
        let kf = piece_key(rf.idx(), rook);
        let kt = piece_key(rt.idx(), rook);
        assert(pieces_hash(mb2b, 64) == ph2 ^ kf) by {
            lemma_xor_bv(ph2 ^ kf, 0, 0);
        }
        assert(mb2b[rt.idx()] is None);
        lemma_pieces_hash_update(mb2b, rt.idx(), mb2[rf.idx()], 64);
        let mb3 = mb2b.update(rt.idx(), mb2[rf.idx()]);
        assert(pieces_hash(mb3, 64) == (ph2 ^ kf) ^ kt) by {
            lemma_xor_bv(ph2 ^ kf, 0, 0);
        }
        assert(spec_make(b@, m, 0).mailbox == mb3);
        assert(hash_pieces(b@, m) == (h3 ^ kf) ^ kt);
        assert((((((ph0 ^ tc) ^ tf) ^ tt) ^ kf) ^ kt) ^ h == ph0 ^ ((((((h ^ tc) ^ tf) ^ tt) ^ kf) ^ kt)))
            by (bit_vector);
    } else {
        assert(spec_make(b@, m, 0).mailbox == mb2);
        assert(hash_pieces(b@, m) == h3);
        assert((((ph0 ^ tc) ^ tf) ^ tt) ^ h == ph0 ^ (((h ^ tc) ^ tf) ^ tt)) by (bit_vector);
    }
}

/// The hash that a move maintains step by step is the hash computed from scratch: when a
/// position's hash is that of its pieces, castling rights, en-passant target and side to
/// move, so is the hash after any pseudo-legal move.
pub proof fn lemma_make_hash(b: Board, m: Move, c: u64)
    requires
        b.wf(),
        pseudo_ok(b, m),
        b.hash == full_hash(b.mailbox@, b.castling_rights.0, b.to_play, b@.ep),
    ensures
        ({
            let a = spec_make(b@, m, c);
            a.hash == full_hash(a.mailbox, a.castling, a.to_play, a.ep)
        }),
{
    let a = spec_make(b@, m, c);
    lemma_pieces_hash_move(b, m);
    assert(spec_make(b@, m, 0).mailbox == a.mailbox);
    let pp = pieces_hash(b.mailbox@, 64);
    let pn = pieces_hash(a.mailbox, 64);
    let hp = hash_pieces(b@, m);
    let h = b.hash;
    let ck0 = castling_key(b.castling_rights.0);
    let ck1 = castling_key(a.castling);
    let e0: u64 = match b@.ep {
        Some(e) => en_passant_key(file_of(e)),
        None => 0,
    };
    let e1: u64 = match a.ep {
        Some(e) => en_passant_key(file_of(e)),
        None => 0,
    };
    let side = side_key();
    let sb: u64 = if b.to_play == Color::Black { side } else { 0 };
    let sn: u64 = if a.to_play == Color::Black { side } else { 0 };
    assert(h == ((pp ^ ck0) ^ e0) ^ sb) by {
        lemma_xor_bv(pp ^ ck0, 0, 0);
        lemma_xor_bv((pp ^ ck0) ^ e0, 0, 0);
    }
    assert(a.hash == ((((hp ^ ck0) ^ ck1) ^ e0) ^ e1) ^ side) by {
        lemma_xor_bv((hp ^ ck0) ^ ck1, 0, 0);
        lemma_xor_bv(((hp ^ ck0) ^ ck1) ^ e0, 0, 0);
    }
    assert(full_hash(a.mailbox, a.castling, a.to_play, a.ep) == ((pn ^ ck1) ^ e1) ^ sn) by {
        lemma_xor_bv(pn ^ ck1, 0, 0);
        lemma_xor_bv((pn ^ ck1) ^ e1, 0, 0);
    }
    assert(sb ^ sn == side) by {
        lemma_xor_bv(side, 0, 0);
    }
    assert(((((hp ^ ck0) ^ ck1) ^ e0) ^ e1) ^ side == ((pn ^ ck1) ^ e1) ^ sn) by (bit_vector)
        requires
            pn ^ h == pp ^ hp,
            h == ((pp ^ ck0) ^ e0) ^ sb,
            sb ^ sn == side,
    ;
}

/// A null move keeps the hash consistent too: when a position's hash is the one computed
/// from scratch, so is the hash after passing the turn.
pub proof fn lemma_null_hash(b: Board, new_pinned: u64)
    requires
        b.hash == full_hash(b.mailbox@, b.castling_rights.0, b.to_play, b@.ep),
    ensures
        ({
            let a = crate::legality::spec_null(b@, new_pinned);
            a.hash == full_hash(a.mailbox, a.castling, a.to_play, a.ep)
        }),
{
    let a = crate::legality::spec_null(b@, new_pinned);
    let x = pieces_hash(b.mailbox@, 64) ^ castling_key(b.castling_rights.0);
    let e0: u64 = match b@.ep {
        Some(e) => en_passant_key(file_of(e)),
        None => 0,
    };
    let side = side_key();
    let sb: u64 = if b.to_play == Color::Black { side } else { 0 };
    let sn: u64 = if a.to_play == Color::Black { side } else { 0 };
    lemma_xor_bv(x, 0, 0);
    lemma_xor_bv(x ^ e0, 0, 0);
    lemma_xor_bv(side, 0, 0);
    assert(b.hash == (x ^ e0) ^ sb);
    assert(a.hash == ((x ^ e0) ^ sb) ^ e0 ^ side) by {
        lemma_xor_bv(b.hash, 0, 0);
    }
    lemma_xor_bv(x, e0, sb);
    lemma_xor_bv(x ^ sb, e0, 0);
    assert(((x ^ e0) ^ sb) ^ e0 == x ^ sb);
    lemma_xor_bv(x, sb, side);
    lemma_xor_bv(sb, side, 0);
    assert(sb ^ side == sn);
    assert(full_hash(a.mailbox, a.castling, a.to_play, a.ep) == x ^ sn);
}

} // verus!
