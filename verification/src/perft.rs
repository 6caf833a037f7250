use crate::board::{king_bb, lemma_make_undo_roundtrip, lemma_view_determines, Board};
use crate::chess_move::lemma_move_classes;
use crate::color::{opponent, Color};
use crate::legality::legal_pre;
use crate::movegen::{gen_all_moves, generated_ok, list_ok};
use crate::piece::Piece;
use crate::fen::{parse_fen, spec_fen};
use crate::time::{elapsed_ns, now};
use vstd::prelude::*;

verus! {

/// What a position needs for the move counter to walk it `depth` plies deep: consistent
/// bitboards, both kings on the board, and room in the counters.
pub open spec fn walkable(b: Board, depth: u8) -> bool {
    &&& b.wf()
    &&& king_bb(b, Color::White) != 0
    &&& king_bb(b, Color::Black) != 0
    &&& b.half_move_clock as int + depth as int <= 255
    &&& b.ply as int + depth as int <= 65535
}

/// Counts the leaf nodes of the tree of legal moves `depth` plies deep (one at depth zero),
/// leaving the board as it found it. A move that takes a king is counted but not searched
/// further.
pub fn perft(board: &mut Board, depth: u8) -> (nodes: u64)
    requires
        walkable(*old(board), depth),
    ensures
        *final(board) == *old(board),
        depth == 0 ==> nodes == 1,
    decreases depth,
{
    if depth == 0 {
        return 1;
    }
    let moves = gen_all_moves(board);
    let ghost b0 = *board;
    let mut nodes: u64 = 0;
    let mut i: usize = 0;
    while i < moves.moves.len()
        invariant
            i <= moves.moves@.len(),
            *board == b0,
            walkable(b0, depth),
            depth >= 1,
            list_ok(b0, moves.moves@, 0),
        decreases moves.moves@.len() - i,
    {
        let mov = moves.moves[i].mov;
        assert(generated_ok(b0, moves.moves@[i as int].mov));
        proof {
            lemma_move_classes(mov);
        }
        i += 1;
        if !board.legal(mov) {
            continue;
        }
        if depth == 1 {
            nodes = nodes.saturating_add(1);
            continue;
        }
        let undo_info = board.make_move(mov);
        let ghost b1 = *board;
        if board.color_piece(Piece::King, Color::White) != 0 && board.color_piece(Piece::King, Color::Black) != 0 {
            let sub = perft(board, depth - 1);
            nodes = nodes.saturating_add(sub);
        } else {
            nodes = nodes.saturating_add(1);
        }
        assert(*board == b1);
        proof {
            lemma_make_undo_roundtrip(b0, mov, b1.checkers);
        }
        board.undo_move(mov, undo_info);
        proof {
            lemma_view_determines(*board, b0);
        }
    }
    nodes
}


/// A position of the move-generation check: its name, FEN, the depth checked by default
/// and the known leaf counts at depths 1, 2, and so on.
pub struct PerftSuiteEntry {
    pub name: &'static str,
    pub fen: &'static str,
    pub default_depth: u8,
    pub expected: Vec<u64>,
}

fn entry(name: &'static str, fen: &'static str, default_depth: u8, expected: &[u64]) -> (r: PerftSuiteEntry)
    ensures
        r.name == name,
        r.fen == fen,
        r.default_depth == default_depth,
        r.expected@ == expected@,
{
    let mut v: Vec<u64> = Vec::new();
    let mut i: usize = 0;
    while i < expected.len()
        invariant
            i <= expected@.len(),
            v@ == expected@.subrange(0, i as int),
        decreases expected@.len() - i,
    {
        v.push(expected[i]);
        i += 1;
        assert(v@ == expected@.subrange(0, i as int));
    }
    assert(expected@.subrange(0, expected@.len() as int) == expected@);
    PerftSuiteEntry { name, fen, default_depth, expected: v }
}

/// The positions of the move-generation check, with their known leaf counts.
pub fn perft_suite() -> (r: Vec<PerftSuiteEntry>)
    ensures
        r@.len() == 7,
        r@[0].name == "Start Position",
        r@[0].fen == "rnbqkbnr/pppppppp/8/8/8/8/PPPPPPPP/RNBQKBNR w KQkq - 0 1",
        r@[0].default_depth == 5,
        r@[0].expected@ == seq![20u64, 400u64, 8902u64, 197281u64, 4865609u64, 119060324u64, 3195901860u64, 84998978956u64],
        r@[1].name == "Kiwipete (Position 2)",
        r@[1].fen == "r3k2r/p1ppqpb1/bn2pnp1/3PN3/1p2P3/2N2Q1p/PPPBBPPP/R3K2R w KQkq - 0 1",
        r@[1].default_depth == 4,
        r@[1].expected@ == seq![48u64, 2039u64, 97862u64, 4085603u64, 193690690u64, 8031647685u64],
        r@[2].name == "Position 3",
        r@[2].fen == "8/2p5/3p4/KP5r/1R3p1k/8/4P1P1/8 w - - 0 1",
        r@[2].default_depth == 5,
        r@[2].expected@ == seq![14u64, 191u64, 2812u64, 43238u64, 674624u64, 11030083u64, 178633661u64, 3009794393u64],
        r@[3].name == "Position 4",
        r@[3].fen == "r3k2r/Pppp1ppp/1b3nbN/nP6/BBP1P3/q4N2/Pp1P2PP/R2Q1RK1 w kq - 0 1",
        r@[3].default_depth == 4,
        r@[3].expected@ == seq![6u64, 264u64, 9467u64, 422333u64, 15833292u64, 706045033u64],
        r@[4].name == "Position 4 (Mirrored)",
        r@[4].fen == "r2q1rk1/pP1p2pp/Q4n2/bbp1p3/Np6/1B3NBn/pPPP1PPP/R3K2R b KQ - 0 1",
        r@[4].default_depth == 4,
        r@[4].expected@ == seq![6u64, 264u64, 9467u64, 422333u64, 15833292u64, 706045033u64],
        r@[5].name == "Position 5",
        r@[5].fen == "rnbq1k1r/pp1Pbppp/2p5/8/2B5/8/PPP1NnPP/RNBQK2R w KQ - 1 8",
        r@[5].default_depth == 4,
        r@[5].expected@ == seq![44u64, 1486u64, 62379u64, 2103487u64, 89941194u64],
        r@[6].name == "Position 6",
        r@[6].fen == "r4rk1/1pp1qppp/p1np1n2/2b1p1B1/2B1P1b1/P1NP1N2/1PP1QPPP/R4RK1 w - - 0 10",
        r@[6].default_depth == 4,
        r@[6].expected@ == seq![46u64, 2079u64, 89890u64, 3894594u64, 164075551u64, 6923051137u64, 287188994746u64],
{
    let mut v: Vec<PerftSuiteEntry> = Vec::new();
    v.push(entry("Start Position", "rnbqkbnr/pppppppp/8/8/8/8/PPPPPPPP/RNBQKBNR w KQkq - 0 1", 5, &[20, 400, 8902, 197281, 4865609, 119060324, 3195901860, 84998978956]));
    v.push(entry("Kiwipete (Position 2)", "r3k2r/p1ppqpb1/bn2pnp1/3PN3/1p2P3/2N2Q1p/PPPBBPPP/R3K2R w KQkq - 0 1", 4, &[48, 2039, 97862, 4085603, 193690690, 8031647685]));
    v.push(entry("Position 3", "8/2p5/3p4/KP5r/1R3p1k/8/4P1P1/8 w - - 0 1", 5, &[14, 191, 2812, 43238, 674624, 11030083, 178633661, 3009794393]));
    v.push(entry("Position 4", "r3k2r/Pppp1ppp/1b3nbN/nP6/BBP1P3/q4N2/Pp1P2PP/R2Q1RK1 w kq - 0 1", 4, &[6, 264, 9467, 422333, 15833292, 706045033]));
    v.push(entry("Position 4 (Mirrored)", "r2q1rk1/pP1p2pp/Q4n2/bbp1p3/Np6/1B3NBn/pPPP1PPP/R3K2R b KQ - 0 1", 4, &[6, 264, 9467, 422333, 15833292, 706045033]));
    v.push(entry("Position 5", "rnbq1k1r/pp1Pbppp/2p5/8/2B5/8/PPP1NnPP/RNBQK2R w KQ - 1 8", 4, &[44, 1486, 62379, 2103487, 89941194]));
    v.push(entry("Position 6", "r4rk1/1pp1qppp/p1np1n2/2b1p1B1/2B1P1b1/P1NP1N2/1PP1QPPP/R4RK1 w - - 0 10", 4, &[46, 2079, 89890, 3894594, 164075551, 6923051137, 287188994746]));
    v
}

impl PerftSuiteEntry {
    /// The deepest depth checked for a requested depth: the request, or the default, but
    /// not beyond the number of known counts, which is taken as a byte.
    pub open spec fn limit_of(&self, target_depth: Option<u8>) -> int {
        let d = match target_depth {
            Some(d) => d as int,
            None => self.default_depth as int,
        };
        let known = (self.expected@.len() % 256) as int;
        if d < known {
            d
        } else {
            known
        }
    }

    /// The deepest depth checked for a requested depth (see [`PerftSuiteEntry::limit_of`]).
    pub fn depth_limit(&self, target_depth: Option<u8>) -> (r: u8)
        ensures
            r == self.limit_of(target_depth),
    {
        let d = match target_depth {
            Some(d) => d,
            None => self.default_depth,
        };
        let known = (self.expected.len() % 256) as u8;
        if d < known {
            d
        } else {
            known
        }
    }
}

/// One depth of the check of a suite position: the count found, the known count, and the
/// milliseconds taken.
pub struct PerftStep {
    pub depth: u8,
    pub nodes: u64,
    pub expected: u64,
    pub elapsed_ms: u64,
}

/// The check of one suite position: the depths walked, whether every count up to the depth
/// limit matched, and the leaf count of the deepest depth when it did.
pub struct PerftRun {
    pub steps: Vec<PerftStep>,
    pub passed: bool,
    pub leaf_nodes: u64,
}

/// Checks the position of `entry` at depths 1, 2, ... up to its depth limit for
/// `target_depth`, stopping at the first count that differs from the known one or at a
/// depth the position cannot be walked; `None` when its FEN does not read.
pub fn run_perft_entry(entry: &PerftSuiteEntry, target_depth: Option<u8>) -> (r: Option<PerftRun>)
    ensures
        r is None <==> spec_fen(entry.fen@) is None,
        r matches Some(run) ==> ({
            let limit = entry.limit_of(target_depth);
            let n = run.steps@.len();
            &&& n <= limit
            &&& forall|i: int| 0 <= i < n ==> (#[trigger] run.steps@[i]).depth == i + 1
                && run.steps@[i].expected == entry.expected@[i]
            &&& forall|i: int| 0 <= i < n - 1 ==> (#[trigger] run.steps@[i]).nodes == run.steps@[i].expected
            &&& run.passed == (n == limit && (n == 0 || run.steps@[n - 1].nodes == run.steps@[n - 1].expected))
            &&& run.leaf_nodes == (if run.passed && n > 0 { run.steps@[n - 1].nodes } else { 0 })
            &&& n < limit ==> (n > 0 && run.steps@[n - 1].nodes != run.steps@[n - 1].expected) || exists|b: Board, d: u8|
                #![trigger crate::fen::board_of_fen(b, spec_fen(entry.fen@).unwrap()), walkable(b, d)]
                d == n + 1 && crate::fen::board_of_fen(b, spec_fen(entry.fen@).unwrap()) && !walkable(b, d)
        }),
{
    let max_d = entry.depth_limit(target_depth);
    let mut board = match parse_fen(entry.fen) {
        Some(b) => b,
        None => return None,
    };
    let mut steps: Vec<PerftStep> = Vec::new();
    let mut d: u8 = 1;
    let mut ok = true;
    while d <= max_d
        invariant_except_break
            ok,
            steps@.len() == d - 1,
            forall|i: int| 0 <= i < steps@.len() ==> (#[trigger] steps@[i]).nodes == steps@[i].expected,
        invariant
            1 <= d <= max_d as int + 1,
            max_d == entry.limit_of(target_depth),
            max_d <= entry.expected@.len(),
            board.wf(),
            steps@.len() <= max_d,
            steps@.len() <= d,
            forall|i: int| 0 <= i < steps@.len() ==> (#[trigger] steps@[i]).depth == i + 1
                && steps@[i].expected == entry.expected@[i],
            forall|i: int| 0 <= i < steps@.len() - 1 ==> (#[trigger] steps@[i]).nodes == steps@[i].expected,
            ok ==> steps@.len() == d - 1 || (steps@.len() == d && d == max_d),
            ok ==> forall|i: int| 0 <= i < steps@.len() ==> (#[trigger] steps@[i]).nodes == steps@[i].expected,
            !ok ==> steps@.len() < max_d || (steps@.len() > 0 && steps@[steps@.len() - 1].nodes != steps@[steps@.len() - 1].expected),
            crate::fen::board_of_fen(board, spec_fen(entry.fen@).unwrap()),
            !ok ==> (steps@.len() > 0 && steps@[steps@.len() - 1].nodes != steps@[steps@.len() - 1].expected)
                || (steps@.len() == d - 1 && !walkable(board, d)),
        ensures
            ok ==> steps@.len() == max_d,
        decreases 256 - d,
    {
        if board.color_piece(Piece::King, Color::White) == 0 || board.color_piece(Piece::King, Color::Black) == 0
            || board.half_move_clock as u32 + d as u32 > 255 || board.ply as u32 + d as u32 > 65535 {
            ok = false;
            break;
        }
        let start = now();
        let nodes = perft(&mut board, d);
        let ms = elapsed_ns(&start) / 1_000_000;
        let expected = entry.expected[d as usize - 1];
        steps.push(PerftStep { depth: d, nodes, expected, elapsed_ms: ms });
        if nodes != expected {
            ok = false;
            break;
        }
        if d == 255 {
            break;
        }
        d = d + 1;
    }
    let n = steps.len();
    proof {
        if !ok && !(steps@.len() > 0 && steps@[steps@.len() - 1].nodes != steps@[steps@.len() - 1].expected) {
            assert(d == steps@.len() + 1);
            assert(crate::fen::board_of_fen(board, spec_fen(entry.fen@).unwrap()) && !walkable(board, d));
        }
    }
    let passed = ok && n == max_d as usize;
    let leaf_nodes = if passed && n > 0 {
        steps[n - 1].nodes
    } else {
        0
    };
    Some(PerftRun { steps, passed, leaf_nodes })
}

} // verus!
