use crate::bench::{is_white, white};
use crate::board::{king_bb, Board};
use crate::chess_move::Move;
use crate::color::Color;
use crate::diagram::spec_diagram;
use crate::eval::{eval_board, spec_eval};
use crate::fen::{
    board_of_fen, parse_number, parse_number_field, spec_fen, spec_to_fen, start_data,
};
use crate::perft::{perft, walkable};
use crate::piece::Piece;
use crate::text::{decimal, push_char, push_decimal, to_chars};
use crate::uci::{find_move, format_score, spec_format_score};
use uci_parser::{UciCommand, UciSearchOptions};
use vstd::prelude::*;

verus! {

/// The search options of a `go` command, as `uci_parser` reads them.
#[verifier::external_type_specification]
#[verifier::external_body]
pub struct ExUciSearchOptions(UciSearchOptions);

/// A command line as the UCI reader understands it.
pub enum UciInput {
    Uci,
    IsReady,
    SetOption { name: String, value: Option<String> },
    Register,
    UciNewGame,
    Position { fen: Option<String>, moves: Vec<String> },
    Go { perft: Option<u32>, options: UciSearchOptions },
    Stop,
    Quit,
    /// A command that asks for nothing here (`debug`, `ponderhit`).
    Other,
    /// A line that is no UCI command.
    Unparsed,
}

/// What the UCI reader makes of a line.
pub uninterp spec fn spec_uci_input(line: Seq<char>) -> UciInput;

/// Reads `line` with `uci_parser` (`str::parse::<UciCommand>`), keeping the parts of the
/// command that the session acts on. The contract names the result only: what the parser
/// makes of a line is not restated here.
#[verifier::external_body]
fn parse_uci(line: &str) -> (r: UciInput)
    ensures
        r == spec_uci_input(line@),
{
    match line.parse::<UciCommand>() {
        Ok(UciCommand::Uci) => UciInput::Uci,
        Ok(UciCommand::IsReady) => UciInput::IsReady,
        Ok(UciCommand::SetOption { name, value }) => UciInput::SetOption { name, value },
        Ok(UciCommand::Register { .. }) => UciInput::Register,
        Ok(UciCommand::UciNewGame) => UciInput::UciNewGame,
        Ok(UciCommand::Position { fen, moves }) => UciInput::Position { fen, moves },
        Ok(UciCommand::Go(o)) => UciInput::Go { perft: o.perft, options: o },
        Ok(UciCommand::Stop) => UciInput::Stop,
        Ok(UciCommand::Quit) => UciInput::Quit,
        Ok(_) => UciInput::Other,
        Err(_) => UciInput::Unparsed,
    }
}

/// What the program around the session does after a command, before printing its lines.
pub enum UciTask {
    Nothing,
    /// Wait for the running search to finish.
    WaitSearch,
    /// Stop the running search and wait for it.
    StopSearch,
    /// Replace the table by one of this many megabytes (after stopping the search).
    ResizeTable(usize),
    /// Clear the table (after stopping the search).
    ClearTable,
    /// Stop the search, clear the stop request and the table.
    NewGame,
    /// Start a search of the current position in the background.
    StartSearch(UciSearchOptions),
}

/// The answer to a command: whether to read on, the lines for the output and for the
/// error stream, and the task left to the program.
pub struct UciReply {
    pub keep_going: bool,
    pub lines: Vec<String>,
    pub errors: Vec<String>,
    pub task: UciTask,
}

/// The end of the leading white space of `s` from `i` on.
pub open spec fn lead_end(s: Seq<char>, i: int) -> int
    decreases s.len() - i,
{
    if i < 0 || i >= s.len() || !is_white(s[i]) {
        i
    } else {
        lead_end(s, i + 1)
    }
}

/// The start of the trailing white space of the first `j` characters of `s`.
pub open spec fn trail_start(s: Seq<char>, j: int) -> int
    decreases j,
{
    if j <= 0 || j > s.len() || !is_white(s[j - 1]) {
        j
    } else {
        trail_start(s, j - 1)
    }
}

/// `s` without leading and trailing white space.
pub open spec fn trimmed(s: Seq<char>) -> Seq<char> {
    let a = lead_end(s, 0);
    let b = trail_start(s, s.len() as int);
    if a >= b {
        Seq::empty()
    } else {
        s.subrange(a, b)
    }
}

/// `c` with an ASCII capital made small.
pub open spec fn ascii_lower(c: char) -> char {
    if 'A' <= c && c <= 'Z' {
        ((c as u32) + 32) as char
    } else {
        c
    }
}

/// Whether `a` and `b` are equal but for the case of ASCII letters.
pub open spec fn same_ignoring_case(a: Seq<char>, b: Seq<char>) -> bool {
    a.len() == b.len() && forall|i: int| 0 <= i < a.len() ==> ascii_lower(#[trigger] a[i]) == ascii_lower(b[i])
}

/// A byte read from decimal text, optionally signed `+`, as `str::parse::<u8>` reads it.
pub open spec fn parse_byte(t: Seq<char>) -> Option<u8> {
    let d = if t.len() > 0 && t[0] == '+' {
        t.subrange(1, t.len() as int)
    } else {
        t
    };
    match parse_number(d) {
        Some(n) => if n <= 255 {
            Some(n as u8)
        } else {
            None
        },
        None => None,
    }
}

/// The depth of a `perft` command whose text after the word is `rest`: the byte it reads
/// as, one when it reads as none or as zero.
pub open spec fn perft_depth(rest: Seq<char>) -> u8 {
    match parse_byte(trimmed(rest)) {
        Some(d) => if d >= 1 {
            d
        } else {
            1
        },
        None => 1,
    }
}

/// The hexadecimal digit (capital) of `d < 16`.
pub open spec fn hex_digit(d: u64) -> char {
    if d < 10 {
        ((48 + d) as u8) as char
    } else {
        ((55 + d) as u8) as char
    }
}

/// The sixteen hexadecimal digits of `h`, most significant first.
pub open spec fn hex16(h: u64) -> Seq<char> {
    Seq::new(16, |i: int| hex_digit((h >> ((60 - 4 * i) as u64)) % 16))
}

/// The text the `d` command shows: the diagram, the FEN and the hash key.
pub open spec fn display_text(b: Board) -> Seq<char> {
    spec_diagram(b) + "\nFEN: "@ + spec_to_fen(b) + "\nKey: 0x"@ + hex16(b.hash)
}

/// The text a `perft` command shows for a count.
pub open spec fn perft_line(nodes: u64) -> Seq<char> {
    "Nodes searched: "@ + decimal(nodes as nat)
}

/// The identification the `uci` command answers with.
pub open spec fn id_text() -> Seq<char> {
    "id name lucky_chess 1.0\nid author Razvan\noption name Hash type spin default 64 min 1 max 1024\noption name ClearHash type button\nuciok"@
}

/// Whether a `perft` answer of `lines` for `depth` on `b` is right: the count line when
/// the position can be walked that deep, nothing otherwise.
pub open spec fn perft_answer(b: Board, depth: u8, lines: Seq<String>) -> bool {
    if walkable(b, depth) {
        lines.len() == 1 && exists|n: u64| lines[0]@ == #[trigger] perft_line(n)
    } else {
        lines.len() == 0
    }
}

fn trim_chars(s: &Vec<char>) -> (r: Vec<char>)
    ensures
        r@ == trimmed(s@),
{
    let n = s.len();
    let mut a: usize = 0;
    while a < n && white(s[a])
        invariant
            a <= n == s@.len(),
            lead_end(s@, 0) == lead_end(s@, a as int),
        decreases n - a,
    {
        a += 1;
    }
    let mut b: usize = n;
    while b > 0 && white(s[b - 1])
        invariant
            b <= n == s@.len(),
            trail_start(s@, n as int) == trail_start(s@, b as int),
        decreases b,
    {
        b -= 1;
    }
    let mut r: Vec<char> = Vec::new();
    if a >= b {
        return r;
    }
    let mut i = a;
    while i < b
        invariant
            a <= i <= b <= n == s@.len(),
            r@ == s@.subrange(a as int, i as int),
        decreases b - i,
    {
        r.push(s[i]);
        i += 1;
        assert(r@ == s@.subrange(a as int, i as int));
    }
    r
}

fn lower(c: char) -> (r: char)
    ensures
        r == ascii_lower(c),
{
    if 'A' <= c && c <= 'Z' {
        ((c as u8) + 32) as char
    } else {
        c
    }
}

fn same_text(a: &Vec<char>, b: &str) -> (r: bool)
    ensures
        r == same_ignoring_case(a@, b@),
{
    let bc = to_chars(b);
    if a.len() != bc.len() {
        return false;
    }
    let mut i: usize = 0;
    while i < a.len()
        invariant
            i <= a@.len() == bc@.len(),
            bc@ == b@,
            forall|j: int| 0 <= j < i ==> ascii_lower(#[trigger] a@[j]) == ascii_lower(bc@[j]),
        decreases a@.len() - i,
    {
        if lower(a[i]) != lower(bc[i]) {
            return false;
        }
        i += 1;
    }
    true
}

fn starts_with(a: &Vec<char>, p: &str) -> (r: bool)
    ensures
        r == (a@.len() >= p@.len() && a@.subrange(0, p@.len() as int) == p@),
{
    let pc = to_chars(p);
    if a.len() < pc.len() {
        return false;
    }
    let mut i: usize = 0;
    while i < pc.len()
        invariant
            i <= pc@.len() <= a@.len(),
            pc@ == p@,
            forall|j: int| 0 <= j < i ==> a@[j] == pc@[j],
        decreases pc@.len() - i,
    {
        if a[i] != pc[i] {
            assert(a@.subrange(0, p@.len() as int)[i as int] != p@[i as int]);
            return false;
        }
        i += 1;
    }
    assert(a@.subrange(0, p@.len() as int) =~= p@);
    true
}

fn tail(a: &Vec<char>, k: usize) -> (r: Vec<char>)
    requires
        k <= a@.len(),
    ensures
        r@ == a@.subrange(k as int, a@.len() as int),
{
    let mut r: Vec<char> = Vec::new();
    let mut i = k;
    while i < a.len()
        invariant
            k <= i <= a@.len(),
            r@ == a@.subrange(k as int, i as int),
        decreases a@.len() - i,
    {
        r.push(a[i]);
        i += 1;
        assert(r@ == a@.subrange(k as int, i as int));
    }
    r
}

fn read_byte(t: &Vec<char>) -> (r: Option<u8>)
    ensures
        r == parse_byte(t@),
{
    let start: usize = if t.len() > 0 && t[0] == '+' {
        1
    } else {
        0
    };
    assert(t@.subrange(0, t@.len() as int) == t@);
    match parse_number_field(t, start, t.len()) {
        Some(v) => if v <= 255 {
            Some(v as u8)
        } else {
            None
        },
        None => None,
    }
}

fn text_of(s: &Vec<char>) -> (r: String)
    ensures
        r@ == s@,
{
    let mut r = String::new();
    let mut i: usize = 0;
    while i < s.len()
        invariant
            i <= s@.len(),
            r@ == s@.subrange(0, i as int),
        decreases s@.len() - i,
    {
        push_char(&mut r, s[i]);
        i += 1;
        assert(r@ == s@.subrange(0, i as int));
    }
    assert(s@.subrange(0, s@.len() as int) == s@);
    r
}

fn line_of(t: &str) -> (r: String)
    ensures
        r@ == t@,
{
    let mut r = String::new();
    r.append(t);
    r
}

fn push_hex16(s: &mut String, h: u64)
    ensures
        final(s)@ == old(s)@ + hex16(h),
{
    let mut i: u64 = 0;
    while i < 16
        invariant
            i <= 16,
            s@ == old(s)@ + hex16(h).subrange(0, i as int),
        decreases 16 - i,
    {
        let d = (h >> (60 - 4 * i)) % 16;
        let c = if d < 10 {
            ((48 + d) as u8) as char
        } else {
            ((55 + d) as u8) as char
        };
        assert(c == hex16(h)[i as int]);
        push_char(s, c);
        i += 1;
        assert(s@ == old(s)@ + hex16(h).subrange(0, i as int));
    }
    assert(hex16(h).subrange(0, 16) == hex16(h));
}

/// The text of the `d` command for `b` (see [`display_text`]).
pub fn display(b: &Board) -> (r: String)
    requires
        b.wf(),
    ensures
        r@ == display_text(*b),
{
    let mut s = b.diagram();
    s.append("\nFEN: ");
    let f = b.to_fen();
    s.append(f.as_str());
    s.append("\nKey: 0x");
    push_hex16(&mut s, b.hash);
    s
}

/// The answer to `perft` to `depth` on `b` (see [`perft_answer`]).
fn perft_reply(b: &Board, depth: u8) -> (r: Vec<String>)
    requires
        b.wf(),
    ensures
        perft_answer(*b, depth, r@),
{
    let mut lines: Vec<String> = Vec::new();
    let mut board = *b;
    if board.color_piece(Piece::King, Color::White) == 0 || board.color_piece(Piece::King, Color::Black)
        == 0 || board.half_move_clock as u32 + depth as u32 > 255 || board.ply as u32 + depth as u32
        > 65535 {
        return lines;
    }
    let nodes = perft(&mut board, depth);
    let mut s = line_of("Nodes searched: ");
    push_decimal(&mut s, nodes);
    assert(s@ == perft_line(nodes));
    lines.push(s);
    lines
}

fn reply(keep_going: bool, lines: Vec<String>, errors: Vec<String>, task: UciTask) -> (r: UciReply)
    ensures
        r == (UciReply { keep_going, lines, errors, task }),
{
    UciReply { keep_going, lines, errors, task }
}

/// Whether `after` is `b` with the move written `text` played: a move the generator
/// produces, legal, written so in coordinate notation, with both kings on the board and
/// room in the move counters.
pub open spec fn text_step(b: Board, text: String, m: Move, after: Board) -> bool {
    &&& crate::uci::spec_format_move(m) == text@
    &&& crate::search::legal_root_move(b, m)
    &&& king_bb(b, Color::White) != 0 && king_bb(b, Color::Black) != 0
    &&& b.half_move_clock < 255 && b.ply < 65535
    &&& after.wf()
    &&& after@ == crate::board::spec_make(b@, m, after.checkers)
    &&& after.checkers == (if crate::legality::spec_gives_check(b, m) {
        crate::board::spec_checkers(after)
    } else {
        0
    })
}

/// Whether the move written `text` cannot be played in `b` (see [`text_step`]).
pub open spec fn text_stuck(b: Board, text: String) -> bool {
    !(king_bb(b, Color::White) != 0 && king_bb(b, Color::Black) != 0 && b.half_move_clock < 255
        && b.ply < 65535 && exists|m: Move| crate::uci::spec_format_move(m) == text@
        && #[trigger] crate::search::legal_root_move(b, m))
}

/// Whether playing the moves written `texts` one after the other leads from `b0` to `b1`.
pub open spec fn texts_played(b0: Board, texts: Seq<String>, b1: Board) -> bool
    decreases texts.len(),
{
    if texts.len() == 0 {
        b1 == b0
    } else {
        exists|m: Move, mid: Board|
            texts_played(b0, texts.drop_last(), mid) && #[trigger] text_step(mid, texts.last(), m, b1)
    }
}

/// Whether `after` and `errors` answer a `position` command from `start` with `moves`:
/// the longest run of moves that can be played is played, and a move that cannot be
/// played is reported.
pub open spec fn position_played(start: Board, moves: Seq<String>, after: Board, errors: Seq<String>) -> bool {
    exists|k: int|
        0 <= k <= moves.len() && #[trigger] texts_played(start, moves.subrange(0, k), after) && (k
            < moves.len() ==> text_stuck(after, moves[k]) && errors.len() == 1) && (k == moves.len()
            ==> errors.len() == 0)
}

/// Whether reply `r` and position `after` answer the parsed command `input` given at
/// position `before`.
pub open spec fn answers(input: UciInput, before: Board, after: Board, r: UciReply) -> bool {
    match input {
        UciInput::Uci => after == before && r.lines@.len() == 1
            && r.lines@[0]@ == id_text() && r.task is Nothing,
        UciInput::IsReady => after == before && r.lines@.len() == 1
            && r.lines@[0]@ == "readyok"@ && r.task is WaitSearch,
        UciInput::SetOption { name, value } => after == before
            && r.lines@.len() == 0 && (same_ignoring_case(name@, "ClearHash"@) && !same_ignoring_case(name@, "Hash"@)
            ==> r.task is ClearTable) && (same_ignoring_case(name@, "Hash"@) ==> match value {
            Some(v) => match parse_size(v@) {
                Some(mb) => mb <= 1_000_000 ==> r.task == UciTask::ResizeTable(
                    if mb < 1 { 1 } else if mb > 4095 { 4095 } else { mb as usize },
                ),
                None => r.task is Nothing,
            },
            None => r.task is Nothing,
        }),
        UciInput::Register => after == before && r.lines@.len() == 1
            && r.lines@[0]@ == "registration ok"@ && r.task is Nothing,
        UciInput::UciNewGame => board_of_fen(after, start_data()) && r.lines@.len()
            == 0 && r.task is NewGame,
        UciInput::Position { fen, moves } => r.lines@.len() == 0 && r.task is Nothing && match fen {
            Some(f) => match spec_fen(f@) {
                None => after == before && r.errors@.len() == 1,
                Some(d) => exists|start: Board| #[trigger] board_of_fen(start, d) && position_played(
                    start,
                    moves@,
                    after,
                    r.errors@,
                ),
            },
            None => exists|start: Board| #[trigger] board_of_fen(start, start_data()) && position_played(
                start,
                moves@,
                after,
                r.errors@,
            ),
        },
        UciInput::Go { perft, options } => after == before && match perft {
            Some(d) => perft_answer(before, d as u8, r.lines@) && r.task is StopSearch,
            None => r.lines@.len() == 0 && r.task == UciTask::StartSearch(options),
        },
        UciInput::Stop => after == before && r.lines@.len() == 0
            && r.task is StopSearch,
        UciInput::Quit => after == before && r.lines@.len() == 0
            && r.task is StopSearch,
        UciInput::Other => after == before && r.lines@.len() == 0
            && r.task is Nothing,
        UciInput::Unparsed => after == before && r.lines@.len() == 0
            && r.errors@.len() == 1 && r.task is Nothing,
    }
}

/// The engine side of a UCI session: the position commands act on.
pub struct UciSession {
    pub board: Board,
}

impl UciSession {
    /// A session at the starting position.
    pub fn new() -> (r: Self)
        ensures
            board_of_fen(r.board, start_data()),
    {
        UciSession { board: Board::start_pos() }
    }

    /// Acts on one input line: `d`/`display` and `eval` (any case) and `perft [depth]`
    /// first, then the UCI commands as `uci_parser` reads the trimmed line. Returns `false`
    /// in `keep_going` for `quit` only.
    #[verifier::rlimit(60)]
    pub fn process_command(&mut self, line: &str) -> (r: UciReply)
        requires
            old(self).board.wf(),
        ensures
            final(self).board.wf(),
            ({
                let t = trimmed(line@);
                let input = spec_uci_input(t);
                let pre = t.len() == 0 || same_ignoring_case(t, "d"@) || same_ignoring_case(t, "display"@)
                    || same_ignoring_case(t, "eval"@) || (t.len() >= 5 && t.subrange(0, 5) == "perft"@);
                &&& r.keep_going == (pre || !(input is Quit))
                &&& t.len() == 0 ==> final(self).board == old(self).board && r.lines@.len() == 0
                    && r.task is Nothing
                &&& t.len() > 0 && (same_ignoring_case(t, "d"@) || same_ignoring_case(t, "display"@))
                    ==> final(self).board == old(self).board && r.lines@.len() == 1
                    && r.lines@[0]@ == display_text(old(self).board) && r.task is Nothing
                &&& same_ignoring_case(t, "eval"@) ==> final(self).board == old(self).board
                    && r.lines@.len() == 1 && r.lines@[0]@ == "score: "@ + spec_format_score(
                    spec_eval(old(self).board),
                ) && r.task is Nothing
                &&& (t.len() >= 5 && t.subrange(0, 5) == "perft"@ && !same_ignoring_case(t, "d"@)
                    && !same_ignoring_case(t, "display"@) && !same_ignoring_case(t, "eval"@))
                    ==> final(self).board == old(self).board && perft_answer(
                    old(self).board,
                    perft_depth(t.subrange(5, t.len() as int)),
                    r.lines@,
                ) && r.task is StopSearch
                &&& !pre ==> answers(input, old(self).board, final(self).board, r)
            }),
    {
        proof {
            reveal_strlit("d");
            reveal_strlit("display");
            reveal_strlit("eval");
            reveal_strlit("perft");
        }
        let chars = to_chars(line);
        let t = trim_chars(&chars);
        let no_lines: Vec<String> = Vec::new();
        let no_errors: Vec<String> = Vec::new();
        if t.len() == 0 {
            return reply(true, no_lines, no_errors, UciTask::Nothing);
        }
        if same_text(&t, "d") || same_text(&t, "display") {
            let mut lines: Vec<String> = Vec::new();
            lines.push(display(&self.board));
            return reply(true, lines, no_errors, UciTask::Nothing);
        }
        if same_text(&t, "eval") {
            let mut s = line_of("score: ");
            let e = format_score(eval_board(&self.board));
            s.append(e.as_str());
            let mut lines: Vec<String> = Vec::new();
            lines.push(s);
            return reply(true, lines, no_errors, UciTask::Nothing);
        }
        if starts_with(&t, "perft") {
            let rest = tail(&t, 5);
            let r2 = trim_chars(&rest);
            let depth = match read_byte(&r2) {
                Some(d) => if d >= 1 {
                    d
                } else {
                    1
                },
                None => 1,
            };
            let lines = perft_reply(&self.board, depth);
            return reply(true, lines, no_errors, UciTask::StopSearch);
        }
        let text = text_of(&t);
        let input = parse_uci(text.as_str());
        self.answer(input)
    }

    /// Acts on a parsed UCI command (see [`UciSession::process_command`]).
    #[verifier::rlimit(60)]
    fn answer(&mut self, input: UciInput) -> (r: UciReply)
        requires
            old(self).board.wf(),
        ensures
            final(self).board.wf(),
            r.keep_going == !(input is Quit),
            answers(input, old(self).board, final(self).board, r),
    {
        let mut lines: Vec<String> = Vec::new();
        let mut errors: Vec<String> = Vec::new();
        match input {
            UciInput::Uci => {
                lines.push(line_of(
                    "id name lucky_chess 1.0\nid author Razvan\noption name Hash type spin default 64 min 1 max 1024\noption name ClearHash type button\nuciok",
                ));
                reply(true, lines, errors, UciTask::Nothing)
            },
            UciInput::IsReady => {
                lines.push(line_of("readyok"));
                reply(true, lines, errors, UciTask::WaitSearch)
            },
            UciInput::SetOption { name, value } => {
                let nc = to_chars(name.as_str());
                if same_text(&nc, "Hash") {
                    let task = match value {
                        Some(v) => {
                            let vc = to_chars(v.as_str());
                            match read_size(&vc) {
                                Some(mb) => UciTask::ResizeTable(
                                    if mb < 1 {
                                        1
                                    } else if mb > 4095 {
                                        4095
                                    } else {
                                        mb as usize
                                    },
                                ),
                                None => UciTask::Nothing,
                            }
                        },
                        None => UciTask::Nothing,
                    };
                    reply(true, lines, errors, task)
                } else if same_text(&nc, "ClearHash") {
                    reply(true, lines, errors, UciTask::ClearTable)
                } else {
                    reply(true, lines, errors, UciTask::Nothing)
                }
            },
            UciInput::Register => {
                lines.push(line_of("registration ok"));
                reply(true, lines, errors, UciTask::Nothing)
            },
            UciInput::UciNewGame => {
                self.board = Board::start_pos();
                reply(true, lines, errors, UciTask::NewGame)
            },
            UciInput::Position { fen, moves } => {
                let start = match fen {
                    Some(f) => match Board::from_fen(f.as_str()) {
                        Some(b) => b,
                        None => {
                            errors.push(line_of("Invalid FEN"));
                            return reply(true, lines, errors, UciTask::Nothing);
                        },
                    },
                    None => Board::start_pos(),
                };
                self.board = start;
                let ghost b0 = start;
                let mut i: usize = 0;
                let mut stuck = false;
                while !stuck && i < moves.len()
                    invariant
                        self.board.wf(),
                        i <= moves@.len(),
                        errors@.len() == (if stuck { 1int } else { 0int }),
                        texts_played(b0, moves@.subrange(0, i as int), self.board),
                        stuck ==> i < moves@.len() && text_stuck(self.board, moves@[i as int]),
                    decreases moves@.len() - i, if stuck { 0int } else { 1int },
                {
                    let ghost before = self.board;
                    let found = find_move(&self.board, moves[i].as_str());
                    let ok = match found {
                        Some(mov) => self.board.color_piece(Piece::King, Color::White) != 0
                            && self.board.color_piece(Piece::King, Color::Black) != 0
                            && self.board.half_move_clock < 255 && self.board.ply < 65535,
                        None => false,
                    };
                    if !ok {
                        proof {
                            if found is None && king_bb(before, before.to_play) != 0 {
                                assert forall|m: Move| crate::uci::spec_format_move(m) == moves@[i as int]@
                                    && #[trigger] crate::search::legal_root_move(before, m) implies false by {
                                    assert(crate::movegen::produces(before, crate::movegen::move_pass(before), m));
                                }
                            }
                            if found is None && king_bb(before, before.to_play) == 0 {
                                assert(before.to_play == Color::White || before.to_play == Color::Black);
                            }
                            assert(text_stuck(before, moves@[i as int]));
                        }
                        errors.push(line_of("Illegal or unrecognized move in position command"));
                        stuck = true;
                        continue;
                    }
                    let mov = found.unwrap();
                    proof {
                        crate::chess_move::lemma_move_classes(mov);
                    }
                    self.board.make_move(mov);
                    proof {
                        assert(text_step(before, moves@[i as int], mov, self.board));
                        assert(moves@.subrange(0, i + 1).drop_last() == moves@.subrange(0, i as int));
                        assert(moves@.subrange(0, i + 1).last() == moves@[i as int]);
                    }
                    i += 1;
                }
                proof {
                    assert(moves@.subrange(0, moves@.len() as int) == moves@);
                    assert(texts_played(b0, moves@.subrange(0, i as int), self.board));
                }
                reply(true, lines, errors, UciTask::Nothing)
            },
            UciInput::Go { perft, options } => {
                match perft {
                    Some(d) => {
                        let lines = perft_reply(&self.board, d as u8);
                        reply(true, lines, errors, UciTask::StopSearch)
                    },
                    None => reply(true, lines, errors, UciTask::StartSearch(options)),
                }
            },
            UciInput::Stop => reply(true, lines, errors, UciTask::StopSearch),
            UciInput::Quit => reply(false, lines, errors, UciTask::StopSearch),
            UciInput::Other => reply(true, lines, errors, UciTask::Nothing),
            UciInput::Unparsed => {
                errors.push(line_of("Failed to parse the command"));
                reply(true, lines, errors, UciTask::Nothing)
            },
        }
    }
}

/// A size read from decimal text as `str::parse::<usize>` reads it (at most a million
/// here; larger sizes are out of the table's range anyway and read as that bound).
pub open spec fn parse_size(t: Seq<char>) -> Option<nat> {
    let d = if t.len() > 0 && t[0] == '+' {
        t.subrange(1, t.len() as int)
    } else {
        t
    };
    parse_number(d)
}

fn read_size(t: &Vec<char>) -> (r: Option<u64>)
    ensures
        r is None ==> parse_size(t@) is None || parse_size(t@).unwrap() > 1_000_000,
        r matches Some(v) ==> parse_size(t@) == Some(v as nat),
{
    let start: usize = if t.len() > 0 && t[0] == '+' {
        1
    } else {
        0
    };
    assert(t@.subrange(0, t@.len() as int) == t@);
    parse_number_field(t, start, t.len())
}

} // verus!
