use crate::board::Board;
use crate::chess_move::move_none;
use crate::search::{legal_root_move, search, searchable};
use crate::stop::{clear_stop, request_stop};
use crate::time::{now, elapsed_ns, TimeLimits, TimeManager, NANOS_PER_MILLI};
use crate::transposition::TranspositionTable;
use std::sync::atomic::AtomicBool;
use std::sync::Arc;
use vstd::prelude::*;

verus! {

/// A search service for the user interface: a transposition table kept between searches
/// and a stop flag another thread may raise.
pub struct SearchEngine {
    pub tt: TranspositionTable,
    pub tt_size_mb: usize,
    pub stop_flag: Arc<AtomicBool>,
}

/// The outcome of a search: the move's bits (zero when none), the time taken and the last
/// `info` line.
pub struct SearchResult {
    pub best_move: i32,
    pub search_time_ms: u64,
    pub advanced_stats: String,
}

impl SearchEngine {
    /// The table a well-formed engine keeps.
    pub open spec fn wf(&self) -> bool {
        self.tt.wf()
    }

    /// An engine with a `default_tt_size_mb`-megabyte table.
    pub fn new(default_tt_size_mb: usize) -> (r: Self)
        requires
            default_tt_size_mb <= 4095,
        ensures
            r.wf(),
            r.tt_size_mb == default_tt_size_mb,
    {
        SearchEngine {
            tt: TranspositionTable::new(default_tt_size_mb),
            tt_size_mb: default_tt_size_mb,
            stop_flag: Arc::new(AtomicBool::new(false)),
        }
    }

    /// Asks a running search to stop.
    pub fn stop(&self) {
        request_stop(&self.stop_flag);
    }

    /// The engine's stop flag, shared: another thread raises it to stop a search that runs
    /// meanwhile (the search itself holds the engine).
    pub fn stop_handle(&self) -> (r: Arc<AtomicBool>)
        ensures
            r == self.stop_flag,
    {
        self.stop_flag.clone()
    }

    /// Searches `board` to `depth` plies (64 when not positive) and, when `max_time_ms` is
    /// positive, for at most that many milliseconds; resizes the table first when
    /// `hash_size_mb` asks for another (usable) size. The move returned is legal, or zero when
    /// the position has none.
    pub fn search(&mut self, board: Board, depth: i32, max_time_ms: i64, hash_size_mb: i32) -> (r: SearchResult)
        requires
            old(self).wf(),
            searchable(board),
        ensures
            final(self).wf(),
            r.best_move != 0 ==> exists|m: crate::chess_move::Move| m.0 as i32 == r.best_move
                && #[trigger] legal_root_move(board, m),
            r.best_move == 0 ==> !crate::search::has_root_move(board),
    {
        clear_stop(&self.stop_flag);
        let max_depth = if depth > 0 {
            let d = depth as u8;
            if d < 64 {
                d
            } else {
                64
            }
        } else {
            64
        };
        let time_manager = if max_time_ms > 0 {
            let ms = if max_time_ms > 0x1000_0000_0000 {
                0x1000_0000_0000u64
            } else {
                max_time_ms as u64
            };
            TimeManager {
                limits: TimeLimits {
                    max_depth,
                    max_nodes: None,
                    optimum_time: Some(ms * NANOS_PER_MILLI),
                    max_time: Some(ms * NANOS_PER_MILLI),
                    infinite: false,
                },
                start_time: now(),
            }
        } else {
            TimeManager::from_depth(max_depth)
        };
        if hash_size_mb > 0 && hash_size_mb <= 4095 && hash_size_mb as usize != self.tt_size_mb {
            self.tt = TranspositionTable::new(hash_size_mb as usize);
            self.tt_size_mb = hash_size_mb as usize;
        }
        self.tt.new_search();
        let start = now();
        let mut info: Vec<String> = Vec::new();
        let best = search(board, time_manager, &self.stop_flag, &mut self.tt, &mut info);
        let elapsed = elapsed_ns(&start) / 1_000_000;
        let best_move = if best.is_none() {
            0
        } else {
            best.bits() as i32
        };
        let advanced_stats = match info.pop() {
            Some(l) => l,
            None => String::new(),
        };
        SearchResult { best_move, search_time_ms: elapsed, advanced_stats }
    }
}

} // verus!
