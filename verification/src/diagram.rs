use crate::board::Board;
use crate::color::Color;
use crate::fen::{fmt_ep, push_ep};
use crate::piece::{piece_letter, ColoredPiece};
use crate::text::{decimal, digit_char, push_char, push_decimal};
use vstd::prelude::*;

verus! {

/// The character a square shows in the diagram: its piece's letter, or a space.
pub open spec fn cell_char(v: Option<ColoredPiece>) -> char {
    match v {
        Some(p) => piece_letter(p),
        None => ' ',
    }
}

/// The cells of rank `r` from file `f` on, each as ` X |`.
pub open spec fn cells_text(b: Board, r: int, f: int) -> Seq<char>
    decreases 8 - f,
{
    if f >= 8 {
        Seq::empty()
    } else {
        seq![' ', cell_char(b.mailbox@[r * 8 + f]), ' ', '|'] + cells_text(b, r, f + 1)
    }
}

/// The line of rank `r`: its number, then its cells.
pub open spec fn rank_text(b: Board, r: int) -> Seq<char> {
    seq![digit_char(r + 1), ' ', '|'] + cells_text(b, r, 0) + seq!['\n']
}

/// The lines of ranks `r` down to the first, each followed by a rule.
pub open spec fn ranks_text(b: Board, r: int) -> Seq<char>
    decreases r + 1,
{
    if r < 0 {
        Seq::empty()
    } else {
        rank_text(b, r) + "  +---+---+---+---+---+---+---+---+\n"@ + ranks_text(b, r - 1)
    }
}

/// The name of castling right `k` (0 to 3).
pub open spec fn right_name(k: int) -> Seq<char> {
    if k == 0 {
        "WHITE_00"@
    } else if k == 1 {
        "WHITE_000"@
    } else if k == 2 {
        "BLACK_00"@
    } else {
        "BLACK_000"@
    }
}

/// The names of the rights of `c` from right `k` on, separated by ` | `; `first` when no
/// name was written before.
pub open spec fn right_names(c: u8, k: int, first: bool) -> Seq<char>
    decreases 4 - k,
{
    if k >= 4 || k < 0 {
        Seq::empty()
    } else if (c >> (k as u8)) & 1 == 1 {
        (if first {
            Seq::empty()
        } else {
            " | "@
        }) + right_name(k) + right_names(c, k + 1, false)
    } else {
        right_names(c, k + 1, first)
    }
}

/// The castling rights as the diagram writes them.
pub open spec fn rights_text(c: u8) -> Seq<char> {
    if c & 15 == 0 {
        "CastlingRights(0x0)"@
    } else {
        "CastlingRights("@ + right_names(c, 0, true) + ")"@
    }
}

/// The diagram of a position: the board between rules, rank 8 first, the file letters,
/// then the side to move, the castling rights, the en-passant target, the half-move clock
/// and the ply.
pub open spec fn spec_diagram(b: Board) -> Seq<char> {
    "  +---+---+---+---+---+---+---+---+\n"@ + ranks_text(b, 7) + "    a   b   c   d   e   f   g   h\n"@
        + seq!['\n'] + "Side to move: "@ + (if b.to_play == Color::White {
        "White"@
    } else {
        "Black"@
    }) + seq!['\n'] + "Castling:     "@ + rights_text(b.castling_rights.0) + seq!['\n']
        + "En passant:   "@ + fmt_ep(b@.ep) + seq!['\n'] + "Half-move:    "@ + decimal(
        b.half_move_clock as nat,
    ) + seq!['\n'] + "Ply:          "@ + decimal(b.ply as nat)
}

fn push_text(s: &mut String, t: &str)
    ensures
        final(s)@ == old(s)@ + t@,
{
    s.append(t);
}

fn rank_digit(r: u8) -> (c: char)
    requires
        r < 8,
    ensures
        c == digit_char(r + 1),
{
    match r {
        0 => '1',
        1 => '2',
        2 => '3',
        3 => '4',
        4 => '5',
        5 => '6',
        6 => '7',
        _ => '8',
    }
}

fn push_rank(s: &mut String, b: &Board, r: u8)
    requires
        r < 8,
    ensures
        final(s)@ == old(s)@ + rank_text(*b, r as int),
{
    let ghost s0 = s@;
    push_char(s, rank_digit(r));
    push_char(s, ' ');
    push_char(s, '|');
    let mut f: u8 = 0;
    while f < 8
        invariant
            r < 8,
            f <= 8,
            s@ + cells_text(*b, r as int, f as int) == s0 + seq![digit_char(r + 1), ' ', '|'] + cells_text(
                *b,
                r as int,
                0,
            ),
        decreases 8 - f,
    {
        let ghost before = s@;
        let c = match b.mailbox[(r * 8 + f) as usize] {
            Some(p) => p.to_char(),
            None => ' ',
        };
        push_char(s, ' ');
        push_char(s, c);
        push_char(s, ' ');
        push_char(s, '|');
        assert(s@ =~= before + seq![' ', cell_char(b.mailbox@[r * 8 + f]), ' ', '|']);
        f = f + 1;
    }
    push_char(s, '\n');
    assert(s@ =~= s0 + rank_text(*b, r as int));
}

fn push_right_names(s: &mut String, c: u8)
    ensures
        final(s)@ == old(s)@ + right_names(c, 0, true),
{
    let mut first = true;
    let mut k: u8 = 0;
    while k < 4
        invariant
            k <= 4,
            s@ + right_names(c, k as int, first) == old(s)@ + right_names(c, 0, true),
        decreases 4 - k,
    {
        let ghost before = s@;
        if (c >> k) & 1 == 1 {
            if !first {
                push_text(s, " | ");
            }
            let name = if k == 0 {
                "WHITE_00"
            } else if k == 1 {
                "WHITE_000"
            } else if k == 2 {
                "BLACK_00"
            } else {
                "BLACK_000"
            };
            push_text(s, name);
            assert(s@ =~= before + (if first {
                Seq::empty()
            } else {
                " | "@
            }) + right_name(k as int));
            first = false;
        }
        k = k + 1;
    }
}

impl Board {
    /// The diagram of this position (see [`spec_diagram`]).
    pub fn diagram(&self) -> (r: String)
        ensures
            r@ == spec_diagram(*self),
    {
        let mut s = String::new();
        push_text(&mut s, "  +---+---+---+---+---+---+---+---+\n");
        let ghost p0 = s@;
        let mut r: u8 = 8;
        while r > 0
            invariant
                r <= 8,
                s@ + ranks_text(*self, r - 1) == p0 + ranks_text(*self, 7),
            decreases r,
        {
            let ghost before = s@;
            push_rank(&mut s, self, r - 1);
            push_text(&mut s, "  +---+---+---+---+---+---+---+---+\n");
            assert(s@ + ranks_text(*self, r - 2) =~= before + ranks_text(*self, r - 1));
            r = r - 1;
        }
        assert(s@ =~= p0 + ranks_text(*self, 7));
        let ghost q0 = s@;
        push_text(&mut s, "    a   b   c   d   e   f   g   h\n");
        push_char(&mut s, '\n');
        push_text(&mut s, "Side to move: ");
        if self.to_play == Color::White {
            push_text(&mut s, "White");
        } else {
            push_text(&mut s, "Black");
        }
        push_char(&mut s, '\n');
        let ghost q1 = s@;
        push_text(&mut s, "Castling:     ");
        let c = self.castling_rights.0;
        let ghost q1a = s@;
        if c & 15 == 0 {
            push_text(&mut s, "CastlingRights(0x0)");
        } else {
            push_text(&mut s, "CastlingRights(");
            push_right_names(&mut s, c);
            push_text(&mut s, ")");
        }
        assert(s@ =~= q1a + rights_text(c));
        push_char(&mut s, '\n');
        let ghost q2 = s@;
        push_text(&mut s, "En passant:   ");
        push_ep(&mut s, self.en_passant_target_sq);
        push_char(&mut s, '\n');
        push_text(&mut s, "Half-move:    ");
        push_decimal(&mut s, self.half_move_clock as u64);
        push_char(&mut s, '\n');
        push_text(&mut s, "Ply:          ");
        push_decimal(&mut s, self.ply as u64);
        let ghost side = if self.to_play == Color::White {
            "White"@
        } else {
            "Black"@
        };
        assert(q1 =~= q0 + "    a   b   c   d   e   f   g   h\n"@ + seq!['\n'] + "Side to move: "@ + side + seq!['\n']);
        assert(s@ =~= q2 + "En passant:   "@ + fmt_ep(self@.ep) + seq!['\n'] + "Half-move:    "@ + decimal(
            self.half_move_clock as nat,
        ) + seq!['\n'] + "Ply:          "@ + decimal(self.ply as nat));
        assert(s@ =~= spec_diagram(*self));
        s
    }
}

} // verus!
