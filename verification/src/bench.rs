use crate::fen::{all_digits, digit_value, digits_value, lemma_digits_grow, parse_fen, parse_number};
use crate::search::{search, searchable};
use crate::text::{decimal, push_char, push_decimal};
use crate::time::{elapsed_ns, now, TimeManager};
use crate::transposition::TranspositionTable;
use std::sync::atomic::AtomicBool;
use vstd::prelude::*;

verus! {

/// Number of benchmark positions.
pub const BENCH_POSITION_COUNT: usize = 32;

/// The benchmark positions: openings, middlegames, endgames and tactical lines; `i`
/// counts from zero (the last position for any larger `i`).
pub open spec fn bench_fen(i: usize) -> &'static str {
    match i {
        0 => "rnbqkbnr/pppppppp/8/8/8/8/PPPPPPPP/RNBQKBNR w KQkq - 0 1",
        1 => "r3k2r/p1ppqpb1/bn2pnp1/3PN3/1p2P3/2N2Q1p/PPPBBPPP/R3K2R w KQkq - 0 1",
        2 => "8/2p5/3p4/KP5r/1R3p1k/8/4P1P1/8 w - - 0 1",
        3 => "r3k2r/Pppp1ppp/1b3nbN/nP6/BBP1P3/q4N2/Pp1P2PP/R2Q1RK1 w kq - 0 1",
        4 => "rnbq1k1r/pp1Pbppp/2p5/8/2B5/8/PPP1NnPP/RNBQK2R w KQ - 1 8",
        5 => "r4rk1/1pp1qppp/p1np1n2/2b1p1B1/2B1P1b1/P1NP1N2/1PP1QPPP/R4RK1 w - - 0 10",
        6 => "4rrk1/pp1n3p/3q2pQ/2p1pb2/2PP4/2P3N1/P2B2PP/4RRK1 b - - 7 19",
        7 => "r1bq1r1k/1pp1n1pp/1p1p4/4p2Q/4Pp2/1BNP4/PPP2PPP/3R1RK1 w - - 2 14",
        8 => "r3r1k1/2p2ppp/p1p1bn2/8/1q2P3/2NPQN2/PPP3PP/R4RK1 b - - 2 15",
        9 => "2rqkb1r/ppp2p2/2npb1p1/1N1Nn2p/2P1PP2/8/PP2B1PP/R1BQK2R b KQ - 0 11",
        10 => "r1bq1r1k/b1p1npp1/p2p3p/1p6/3PP3/1B2NN2/PP3PPP/R2Q1RK1 w - - 1 16",
        11 => "r1q2rk1/2p1bppp/2Pp4/p6b/Q1PNp3/4B3/PP1R1PPP/2K4R w - - 2 18",
        12 => "4k2r/1pb2ppp/1p2p3/1R1p4/3P4/2r1PN2/P4PPP/1R4K1 b - - 3 22",
        13 => "3q2k1/pb3p1p/4pbp1/2r5/PpN2N2/1P2P2P/5PP1/Q2R2K1 b - - 4 26",
        14 => "6k1/6p1/6Pp/ppp5/3pn2P/1P3K2/1PP2P2/3N4 b - - 0 1",
        15 => "8/2p5/8/2kPKp1p/2p4P/2P5/3P4/8 w - - 0 1",
        16 => "8/1p3pp1/7p/5P1P/2k3P1/8/2K2P2/8 w - - 0 1",
        17 => "8/pp2r1k1/2p1p3/3pP2p/1P1P1P1P/P5KR/8/8 w - - 0 1",
        18 => "8/3b4/p1bk3p/Pp6/1Kp1PpPp/2P2P1P/2P5/5B2 b - - 0 1",
        19 => "5k2/7R/4P2p/5K2/p1r2P1p/8/8/8 b - - 0 1",
        20 => "6k1/6p1/P6p/r1N5/5p2/7P/1b3PP1/4R1K1 w - - 0 1",
        21 => "1r3k2/4q3/2Pp3b/3Bp3/2Q2p2/1p1P2P1/1P2KP2/3N4 w - - 0 1",
        22 => "6k1/4pp1p/3p2p1/P1pPb3/R7/1r2P1PP/3B1P2/6K1 w - - 0 1",
        23 => "8/3p3B/5p2/5P2/p7/PP5b/k7/6K1 w - - 0 1",
        24 => "r1bq1rk1/ppp1npbp/3p2p1/3Pp3/2P1P3/2N1B3/PP2BPPP/R2Q1RK1 w - - 0 11",
        25 => "r2qkbnr/pp1b1ppp/2n1p3/1B1pP3/3P4/5N2/PP3PPP/RNBQK2R b KQkq - 0 7",
        26 => "3r1rk1/p5pp/bpp1pp2/8/q1PP1P2/b3P3/P2NQRPP/1R2B1K1 b - - 6 22",
        27 => "8/6pk/1p6/8/PP3p1p/5P2/4KP1q/3Q4 w - - 0 1",
        28 => "4r1k1/r1q2ppp/ppp2n2/4P3/5Rb1/1N1BQ3/PPP3PP/R5K1 w - - 1 17",
        29 => "r1bbk1nr/pp3p1p/2n5/1N4p1/2Np1B2/8/PPP2PPP/2KR1B1R w kq - 0 13",
        30 => "r3k2r/3nnpbp/q2pp1p1/p7/Pp1PPPP1/4BNN1/1P5P/R2Q1RK1 w kq - 0 16",
        _ => "4rrk1/1p1nq3/p7/2p1P1pp/3P2bp/3Q1Bn1/PPPB4/1K2R1NR w - - 40 21",
    }
}

/// The benchmark position `i` (see [`bench_fen`]).
pub fn bench_position(i: usize) -> (r: &'static str)
    ensures
        r == bench_fen(i),
{
    match i {
        0 => "rnbqkbnr/pppppppp/8/8/8/8/PPPPPPPP/RNBQKBNR w KQkq - 0 1",
        1 => "r3k2r/p1ppqpb1/bn2pnp1/3PN3/1p2P3/2N2Q1p/PPPBBPPP/R3K2R w KQkq - 0 1",
        2 => "8/2p5/3p4/KP5r/1R3p1k/8/4P1P1/8 w - - 0 1",
        3 => "r3k2r/Pppp1ppp/1b3nbN/nP6/BBP1P3/q4N2/Pp1P2PP/R2Q1RK1 w kq - 0 1",
        4 => "rnbq1k1r/pp1Pbppp/2p5/8/2B5/8/PPP1NnPP/RNBQK2R w KQ - 1 8",
        5 => "r4rk1/1pp1qppp/p1np1n2/2b1p1B1/2B1P1b1/P1NP1N2/1PP1QPPP/R4RK1 w - - 0 10",
        6 => "4rrk1/pp1n3p/3q2pQ/2p1pb2/2PP4/2P3N1/P2B2PP/4RRK1 b - - 7 19",
        7 => "r1bq1r1k/1pp1n1pp/1p1p4/4p2Q/4Pp2/1BNP4/PPP2PPP/3R1RK1 w - - 2 14",
        8 => "r3r1k1/2p2ppp/p1p1bn2/8/1q2P3/2NPQN2/PPP3PP/R4RK1 b - - 2 15",
        9 => "2rqkb1r/ppp2p2/2npb1p1/1N1Nn2p/2P1PP2/8/PP2B1PP/R1BQK2R b KQ - 0 11",
        10 => "r1bq1r1k/b1p1npp1/p2p3p/1p6/3PP3/1B2NN2/PP3PPP/R2Q1RK1 w - - 1 16",
        11 => "r1q2rk1/2p1bppp/2Pp4/p6b/Q1PNp3/4B3/PP1R1PPP/2K4R w - - 2 18",
        12 => "4k2r/1pb2ppp/1p2p3/1R1p4/3P4/2r1PN2/P4PPP/1R4K1 b - - 3 22",
        13 => "3q2k1/pb3p1p/4pbp1/2r5/PpN2N2/1P2P2P/5PP1/Q2R2K1 b - - 4 26",
        14 => "6k1/6p1/6Pp/ppp5/3pn2P/1P3K2/1PP2P2/3N4 b - - 0 1",
        15 => "8/2p5/8/2kPKp1p/2p4P/2P5/3P4/8 w - - 0 1",
        16 => "8/1p3pp1/7p/5P1P/2k3P1/8/2K2P2/8 w - - 0 1",
        17 => "8/pp2r1k1/2p1p3/3pP2p/1P1P1P1P/P5KR/8/8 w - - 0 1",
        18 => "8/3b4/p1bk3p/Pp6/1Kp1PpPp/2P2P1P/2P5/5B2 b - - 0 1",
        19 => "5k2/7R/4P2p/5K2/p1r2P1p/8/8/8 b - - 0 1",
        20 => "6k1/6p1/P6p/r1N5/5p2/7P/1b3PP1/4R1K1 w - - 0 1",
        21 => "1r3k2/4q3/2Pp3b/3Bp3/2Q2p2/1p1P2P1/1P2KP2/3N4 w - - 0 1",
        22 => "6k1/4pp1p/3p2p1/P1pPb3/R7/1r2P1PP/3B1P2/6K1 w - - 0 1",
        23 => "8/3p3B/5p2/5P2/p7/PP5b/k7/6K1 w - - 0 1",
        24 => "r1bq1rk1/ppp1npbp/3p2p1/3Pp3/2P1P3/2N1B3/PP2BPPP/R2Q1RK1 w - - 0 11",
        25 => "r2qkbnr/pp1b1ppp/2n1p3/1B1pP3/3P4/5N2/PP3PPP/RNBQK2R b KQkq - 0 7",
        26 => "3r1rk1/p5pp/bpp1pp2/8/q1PP1P2/b3P3/P2NQRPP/1R2B1K1 b - - 6 22",
        27 => "8/6pk/1p6/8/PP3p1p/5P2/4KP1q/3Q4 w - - 0 1",
        28 => "4r1k1/r1q2ppp/ppp2n2/4P3/5Rb1/1N1BQ3/PPP3PP/R5K1 w - - 1 17",
        29 => "r1bbk1nr/pp3p1p/2n5/1N4p1/2Np1B2/8/PPP2PPP/2KR1B1R w kq - 0 13",
        30 => "r3k2r/3nnpbp/q2pp1p1/p7/Pp1PPPP1/4BNN1/1P5P/R2Q1RK1 w kq - 0 16",
        _ => "4rrk1/1p1nq3/p7/2p1P1pp/3P2bp/3Q1Bn1/PPPB4/1K2R1NR w - - 40 21",
    }
}

/// Whether `c` is a white-space character (Unicode `White_Space`).
pub open spec fn is_white(c: char) -> bool {
    let u = c as u32;
    ||| 9 <= u <= 13
    ||| u == 32
    ||| u == 0x85
    ||| u == 0xA0
    ||| u == 0x1680
    ||| 0x2000 <= u <= 0x200A
    ||| u == 0x2028
    ||| u == 0x2029
    ||| u == 0x202F
    ||| u == 0x205F
    ||| u == 0x3000
}

pub(crate) fn white(c: char) -> (r: bool)
    ensures
        r == is_white(c),
{
    let u = c as u32;
    (9 <= u && u <= 13) || u == 32 || u == 0x85 || u == 0xA0 || u == 0x1680 || (0x2000 <= u && u
        <= 0x200A) || u == 0x2028 || u == 0x2029 || u == 0x202F || u == 0x205F || u == 0x3000
}

/// Whether `nodes ` starts at position `i` of `s`.
pub open spec fn key_at(s: Seq<char>, i: int) -> bool {
    0 <= i && i + 6 <= s.len() && s.subrange(i, i + 6) == seq!['n', 'o', 'd', 'e', 's', ' ']
}

/// The first position at or after `i` where `nodes ` starts, if any.
pub open spec fn find_key(s: Seq<char>, i: int) -> Option<int>
    decreases s.len() - i,
{
    if i < 0 || i + 6 > s.len() {
        None
    } else if key_at(s, i) {
        Some(i)
    } else {
        find_key(s, i + 1)
    }
}

/// The first position at or after `i` that is not white space, or the end.
pub open spec fn skip_white(s: Seq<char>, i: int) -> int
    decreases s.len() - i,
{
    if i < 0 || i >= s.len() {
        i
    } else if is_white(s[i]) {
        skip_white(s, i + 1)
    } else {
        i
    }
}

/// The first position at or after `i` that is white space, or the end.
pub open spec fn token_end(s: Seq<char>, i: int) -> int
    decreases s.len() - i,
{
    if i < 0 || i >= s.len() {
        i
    } else if is_white(s[i]) {
        i
    } else {
        token_end(s, i + 1)
    }
}

/// The unsigned 64-bit number a token spells: an optional `+`, then decimal digits.
pub open spec fn parse_u64(t: Seq<char>) -> Option<u64> {
    let d = if t.len() > 0 && t[0] == '+' {
        t.subrange(1, t.len() as int)
    } else {
        t
    };
    match parse_number(d) {
        Some(v) => if v <= u64::MAX {
            Some(v as u64)
        } else {
            None
        },
        None => None,
    }
}

/// The number in the first token after the first `nodes ` of `s`, if it is one.
pub open spec fn spec_nodes_in(s: Seq<char>) -> Option<u64> {
    match find_key(s, 0) {
        None => None,
        Some(i) => {
            let a = skip_white(s, i + 6);
            let b = token_end(s, a);
            if a >= s.len() {
                None
            } else {
                parse_u64(s.subrange(a, b))
            }
        },
    }
}

fn key_char(k: usize) -> (c: char)
    requires
        k < 6,
    ensures
        c == seq!['n', 'o', 'd', 'e', 's', ' '][k as int],
{
    match k {
        0 => 'n',
        1 => 'o',
        2 => 'd',
        3 => 'e',
        4 => 's',
        _ => ' ',
    }
}

fn find_nodes_key(line: &Vec<char>) -> (r: Option<usize>)
    ensures
        r matches Some(i) ==> find_key(line@, 0) == Some(i as int) && i + 6 <= line@.len(),
        r is None ==> find_key(line@, 0) is None,
{
    let ghost key = seq!['n', 'o', 'd', 'e', 's', ' '];
    let n = line.len();
    if n < 6 {
        return None;
    }
    let mut start: usize = 0;
    while start <= n - 6
        invariant
            n == line@.len(),
            n >= 6,
            start <= n - 5,
            key == seq!['n', 'o', 'd', 'e', 's', ' '],
            find_key(line@, 0) == find_key(line@, start as int),
        decreases n - start,
    {
        let mut k: usize = 0;
        let mut same = true;
        while k < 6
            invariant
                start + 6 <= n,
                k <= 6,
                n == line@.len(),
                key == seq!['n', 'o', 'd', 'e', 's', ' '],
                same == forall|j: int| 0 <= j < k ==> line@[start + j] == key[j],
            decreases 6 - k,
        {
            if line[start + k] != key_char(k) {
                same = false;
            }
            k += 1;
        }
        if same {
            assert(line@.subrange(start as int, start + 6) =~= seq!['n', 'o', 'd', 'e', 's', ' ']) by {
                assert forall|j: int| 0 <= j < 6 implies line@.subrange(start as int, start + 6)[j]
                    == key[j] by {
                    assert(line@[start + j] == key[j]);
                }
            }
            return Some(start);
        }
        proof {
            if key_at(line@, start as int) {
                let j = choose|j: int| 0 <= j < 6 && line@[start + j] != key[j];
                assert(line@.subrange(start as int, start + 6)[j] == line@[start + j]);
            }
        }
        start += 1;
    }
    None
}

/// The number written after the first `nodes ` in `line` (see [`spec_nodes_in`]).
pub fn nodes_in_info(line: &Vec<char>) -> (r: Option<u64>)
    ensures
        r == spec_nodes_in(line@),
{
    let start = match find_nodes_key(line) {
        Some(s) => s,
        None => return None,
    };
    let n = line.len();
    let mut a = start + 6;
    while a < n && white(line[a])
        invariant
            start + 6 <= a <= n,
            n == line@.len(),
            skip_white(line@, a as int) == skip_white(line@, start + 6),
        decreases n - a,
    {
        a += 1;
    }
    assert(skip_white(line@, a as int) == a);
    if a >= n {
        return None;
    }
    let mut b = a;
    while b < n && !white(line[b])
        invariant
            a <= b <= n,
            n == line@.len(),
            token_end(line@, b as int) == token_end(line@, a as int),
        decreases n - b,
    {
        b += 1;
    }
    let ghost t = line@.subrange(a as int, b as int);
    let mut i = a;
    if line[a] == '+' {
        i = a + 1;
    }
    assert(token_end(line@, b as int) == b);
    assert(b > a);
    assert(t[0] == line@[a as int]);
    let ghost d = line@.subrange(i as int, b as int);
    assert(d =~= (if t.len() > 0 && t[0] == '+' { t.subrange(1, t.len() as int) } else { t }));
    if i == b {
        assert(d.len() == 0);
        return None;
    }
    assert(spec_nodes_in(line@) == parse_u64(t));
    let mut v: u64 = 0;
    let mut k = i;
    while k < b
        invariant
            spec_nodes_in(line@) == (match parse_number(d) {
                Some(x) => if x <= u64::MAX {
                    Some(x as u64)
                } else {
                    None
                },
                None => None,
            }),
            d.len() > 0,
            a <= i <= k <= b <= n,
            n == line@.len(),
            d == line@.subrange(i as int, b as int),
            v == digits_value(d, k - i),
            forall|j: int| 0 <= j < k - i ==> #[trigger] digit_value(d[j]) >= 0,
        decreases b - k,
    {
        let c = line[k];
        assert(d[k - i] == c);
        let dv: u64 = match c {
            '0' => 0,
            '1' => 1,
            '2' => 2,
            '3' => 3,
            '4' => 4,
            '5' => 5,
            '6' => 6,
            '7' => 7,
            '8' => 8,
            '9' => 9,
            _ => 10,
        };
        if dv == 10 {
            assert(digit_value(d[k - i]) < 0);
            assert(!all_digits(d));
            return None;
        }
        assert(dv == digit_value(d[k - i]));
        let nv: u128 = v as u128 * 10 + dv as u128;
        if nv > u64::MAX as u128 {
            proof {
                assert(digits_value(d, k - i + 1) == nv);
                if all_digits(d) {
                    lemma_digits_grow(d, k - i + 1, d.len() as int);
                }
            }
            return None;
        }
        v = nv as u64;
        k += 1;
    }
    assert(all_digits(d));
    Some(v)
}

/// Appends `n` right-aligned in a field of `width` characters.
fn push_padded(s: &mut String, n: u64, width: usize) {
    let mut len: usize = 1;
    let mut m = n;
    while m >= 10
        invariant
            len <= 20,
        decreases m,
    {
        m = m / 10;
        if len < 20 {
            len += 1;
        }
    }
    let mut pad = len;
    while pad < width
        decreases width - pad,
    {
        push_char(s, ' ');
        pad += 1;
    }
    push_decimal(s, n);
}

fn push_text(s: &mut String, t: &str)
    ensures
        final(s)@ == old(s)@ + t@,
{
    s.append(t);
}

/// Searches every benchmark position to depth `depth` with a fresh `tt_mb`-megabyte
/// table, appends a line per position (nodes, time, speed) and a summary to `output`, and
/// returns the total of the nodes searched (as the last `info` line of each search reports
/// them).
pub fn run_bench(depth: u8, tt_mb: usize, output: &mut Vec<String>) -> (r: u64)
    requires
        tt_mb <= 4095,
    ensures
        final(output)@.subrange(0, old(output)@.len() as int) == old(output)@,
        old(output)@.len() + 4 <= final(output)@.len() <= old(output)@.len() + BENCH_POSITION_COUNT + 4,
        final(output)@[final(output)@.len() - 4]@ == "==========================="@,
        final(output)@[final(output)@.len() - 2]@ == "Nodes searched  : "@ + decimal(r as nat),
        exists|ms: u64| ms >= 1 && final(output)@[final(output)@.len() - 3]@ == "Total time (ms) : "@ + decimal(ms as nat),
{
    let mut tt = TranspositionTable::new(tt_mb);
    let stop = AtomicBool::new(false);
    let mut total_nodes: u64 = 0;
    let start_total = now();
    let mut i: usize = 0;
    while i < BENCH_POSITION_COUNT
        invariant
            tt.wf(),
            i <= BENCH_POSITION_COUNT,
            output@.subrange(0, old(output)@.len() as int) == old(output)@,
            old(output)@.len() <= output@.len() <= old(output)@.len() + i,
        decreases BENCH_POSITION_COUNT - i,
    {
        let fen = bench_position(i);
        i += 1;
        let board = match parse_fen(fen) {
            Some(b) => b,
            None => continue,
        };
        if board.color_piece(crate::piece::Piece::King, crate::color::Color::White) == 0
            || board.color_piece(crate::piece::Piece::King, crate::color::Color::Black) == 0 {
            continue;
        }
        tt.clear();
        let tm = TimeManager::from_depth(depth);
        let pos_start = now();
        let mut info: Vec<String> = Vec::new();
        let _best = search(board, tm, &stop, &mut tt, &mut info);
        let mut nodes: u64 = 0;
        let mut j: usize = 0;
        while j < info.len()
            decreases info@.len() - j,
        {
            let chars = crate::text::to_chars(info[j].as_str());
            match nodes_in_info(&chars) {
                Some(n) => {
                    nodes = n;
                },
                None => {},
            }
            j += 1;
        }
        let ms0 = elapsed_ns(&pos_start) / 1_000_000;
        let pos_elapsed = if ms0 < 1 {
            1
        } else {
            ms0
        };
        let pos_nps = (nodes as u128 * 1000 / pos_elapsed as u128) as u64;
        total_nodes = total_nodes.saturating_add(nodes);
        let mut line = String::new();
        push_text(&mut line, "Position ");
        push_padded(&mut line, i as u64, 2);
        push_char(&mut line, '/');
        push_decimal(&mut line, BENCH_POSITION_COUNT as u64);
        push_text(&mut line, ": ");
        push_padded(&mut line, nodes, 8);
        push_text(&mut line, " nodes  ");
        push_padded(&mut line, pos_elapsed, 5);
        push_text(&mut line, " ms  ");
        push_padded(&mut line, pos_nps, 8);
        push_text(&mut line, " nps");
        output.push(line);
    }
    let t0 = elapsed_ns(&start_total) / 1_000_000;
    let total_time_ms = if t0 < 1 {
        1
    } else {
        t0
    };
    let nps = (total_nodes as u128 * 1000 / total_time_ms as u128) as u64;
    let mut l1 = String::new();
    push_text(&mut l1, "===========================");
    output.push(l1);
    let mut l2 = String::new();
    push_text(&mut l2, "Total time (ms) : ");
    push_decimal(&mut l2, total_time_ms);
    assert(l2@ =~= "Total time (ms) : "@ + decimal(total_time_ms as nat));
    let ghost line2 = l2;
    output.push(l2);
    assert(output@.last() == line2);
    let mut l3 = String::new();
    push_text(&mut l3, "Nodes searched  : ");
    push_decimal(&mut l3, total_nodes);
    output.push(l3);
    assert(output@[output@.len() - 2] == line2);
    let mut l4 = String::new();
    push_text(&mut l4, "Nodes/second    : ");
    push_decimal(&mut l4, nps);
    output.push(l4);
    total_nodes
}

} // verus!
