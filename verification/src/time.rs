use crate::color::Color;
use std::time::Instant;
use vstd::prelude::*;

verus! {

/// A moment on the monotonic clock.
#[verifier::external_type_specification]
#[verifier::external_body]
pub struct ExInstant(std::time::Instant);

/// The current moment.
///
/// Calls `std::time::Instant::now`; nothing is claimed of the moment it returns.
#[verifier::external_body]
pub(crate) fn now() -> Instant {
    Instant::now()
}

/// Nanoseconds gone by since `start`, as far as they fit in 64 bits.
///
/// Calls `Instant::elapsed` on `start` and reads the duration in nanoseconds; the result
/// depends on the clock, so nothing is claimed of it.
#[verifier::external_body]
pub(crate) fn elapsed_ns(start: &Instant) -> u64 {
    start.elapsed().as_nanos() as u64
}

/// Nanoseconds in a millisecond.
pub const NANOS_PER_MILLI: u64 = 1_000_000;

/// The limits of a search: deepest iteration, node budget, the time it should take and the
/// time it must not exceed (both in nanoseconds), and whether it runs until stopped.
#[derive(Copy, Clone, Debug, PartialEq, Eq, Structural)]
pub struct TimeLimits {
    pub max_depth: u8,
    pub max_nodes: Option<u64>,
    pub optimum_time: Option<u64>,
    pub max_time: Option<u64>,
    pub infinite: bool,
}

/// The limits of a search and the moment it started.
pub struct TimeManager {
    pub limits: TimeLimits,
    pub start_time: Instant,
}

/// The time controls of a `go` command, times in milliseconds.
#[derive(Copy, Clone, Debug, PartialEq, Eq, Structural)]
pub struct SearchOptions {
    pub wtime: Option<u64>,
    pub btime: Option<u64>,
    pub winc: Option<u64>,
    pub binc: Option<u64>,
    pub movestogo: Option<u32>,
    pub depth: Option<u32>,
    pub nodes: Option<u32>,
    pub movetime: Option<u64>,
    pub infinite: bool,
}

/// `v` clamped into `lo..=hi` (which must not be empty).
pub open spec fn clamp_int(v: int, lo: int, hi: int) -> int {
    if v < lo {
        lo
    } else if v > hi {
        hi
    } else {
        v
    }
}

/// The time a fixed move time allows: ten milliseconds less, at least one millisecond.
pub open spec fn safe_movetime_ms(ms: u64) -> int {
    if ms >= 11 {
        ms - 10
    } else {
        1
    }
}

/// The depth limit of a `go` command: its depth (as a byte) between 1 and 64, 64 if none.
pub open spec fn depth_limit(depth: Option<u32>) -> u8 {
    match depth {
        Some(d) => clamp_int(d as u8 as int, 1, 64) as u8,
        None => 64,
    }
}

/// The (optimum, maximum) times in milliseconds for a clock of `time_ms` with increment
/// `inc_ms` and `mtg` moves to go: the usable time (40 ms kept back) shared among the
/// moves to go plus three quarters of the increment, and three and a half times that at
/// most, neither above the usable time (nor below one millisecond for the optimum).
pub open spec fn clock_times(time_ms: u64, inc_ms: u64, mtg: int) -> (int, int) {
    let usable = if time_ms >= 40 {
        time_ms - 40
    } else {
        0
    };
    let opt0 = usable / mtg + inc_ms * 3 / 4;
    let opt = clamp_int(opt0, 1, if usable >= 1 { usable } else { 1 });
    let mx = clamp_int(opt * 7 / 2, opt, if usable >= opt { usable } else { opt });
    (opt, mx)
}

/// A time in milliseconds as the limits hold it: at most 2^44 ms (over five centuries),
/// so that its nanoseconds fit in 64 bits; longer times count as that.
pub open spec fn cap_ms(t: u64) -> u64 {
    if t > 0x1000_0000_0000 {
        0x1000_0000_0000
    } else {
        t
    }
}

fn cap(t: u64) -> (r: u64)
    ensures
        r == cap_ms(t),
{
    if t > 0x1000_0000_0000 {
        0x1000_0000_0000
    } else {
        t
    }
}

/// The limits a `go` command sets for `to_play` (times taken as [`cap_ms`] holds them).
pub open spec fn limits_from_options(o: SearchOptions, to_play: Color) -> TimeLimits {
    let max_depth = depth_limit(o.depth);
    let max_nodes = match o.nodes {
        Some(n) => Some(if n >= 1 { n as u64 } else { 1u64 }),
        None => None,
    };
    match o.movetime {
        Some(mt) => TimeLimits {
            max_depth,
            max_nodes,
            optimum_time: Some((safe_movetime_ms(cap_ms(mt)) * NANOS_PER_MILLI) as u64),
            max_time: Some((safe_movetime_ms(cap_ms(mt)) * NANOS_PER_MILLI) as u64),
            infinite: o.infinite,
        },
        None => {
            let (time, inc) = if to_play == Color::White {
                (o.wtime, o.winc)
            } else {
                (o.btime, o.binc)
            };
            let inc_ms: u64 = match inc {
                Some(i) => cap_ms(i),
                None => 0,
            };
            match time {
                Some(t) => {
                    let mtg = clamp_int(
                        match o.movestogo {
                            Some(m) => m as int,
                            None => 28,
                        },
                        1,
                        50,
                    );
                    let (opt, mx) = clock_times(cap_ms(t), inc_ms, mtg);
                    TimeLimits {
                        max_depth,
                        max_nodes,
                        optimum_time: Some((opt * NANOS_PER_MILLI) as u64),
                        max_time: Some((mx * NANOS_PER_MILLI) as u64),
                        infinite: o.infinite,
                    }
                },
                None => TimeLimits {
                    max_depth,
                    max_nodes,
                    optimum_time: None,
                    max_time: None,
                    infinite: o.infinite,
                },
            }
        },
    }
}

/// Whether a search that has visited `nodes` nodes and run `elapsed` nanoseconds must stop
/// now: never when infinite; when the node budget is spent, or the maximum time reached.
pub open spec fn hard_limit_reached(l: TimeLimits, nodes: u64, elapsed: u64) -> bool {
    !l.infinite && ((l.max_nodes matches Some(m) && nodes >= m) || (l.max_time matches Some(
        t,
    ) && elapsed >= t))
}

/// The time an iteration may run up to before no further one starts: the optimum, thirty
/// percent more when the best move just changed.
pub open spec fn depth_target(optimum: u64, stable: bool) -> int {
    if stable {
        optimum as int
    } else {
        let extra = optimum as int * 3 / 10;
        if optimum + extra > u64::MAX {
            u64::MAX as int
        } else {
            optimum + extra
        }
    }
}

/// Whether no further iteration should start after finishing depth `depth` at `elapsed`
/// nanoseconds: never when infinite; when the depth limit is reached, or the optimum time
/// (stretched when the best move is unstable) has passed.
pub open spec fn stop_after_depth(l: TimeLimits, depth: u8, stable: bool, elapsed: u64) -> bool {
    !l.infinite && (depth >= l.max_depth || (l.optimum_time matches Some(o) && elapsed
        >= depth_target(o, stable)))
}

/// Decides [`hard_limit_reached`] for a measured elapsed time.
pub fn hard_limit_decision(l: &TimeLimits, nodes: u64, elapsed: u64) -> (r: bool)
    ensures
        r == hard_limit_reached(*l, nodes, elapsed),
{
    if l.infinite {
        return false;
    }
    match l.max_nodes {
        Some(m) => {
            if nodes >= m {
                return true;
            }
        },
        None => {},
    }
    match l.max_time {
        Some(t) => elapsed >= t,
        None => false,
    }
}

/// Decides [`stop_after_depth`] for a measured elapsed time.
pub fn stop_after_depth_decision(l: &TimeLimits, depth: u8, stable: bool, elapsed: u64) -> (r: bool)
    ensures
        r == stop_after_depth(*l, depth, stable, elapsed),
{
    if l.infinite {
        return false;
    }
    if depth >= l.max_depth {
        return true;
    }
    match l.optimum_time {
        Some(o) => {
            let target = if stable {
                o
            } else {
                assert(o as int * 3 / 10 <= o) by (nonlinear_arith)
                    requires
                        o >= 0,
                ;
                let extra = ((o as u128) * 3 / 10) as u64;
                o.saturating_add(extra)
            };
            elapsed >= target
        },
        None => false,
    }
}

fn depth_clamp(d: u8) -> (r: u8)
    ensures
        r == clamp_int(d as int, 1, 64),
{
    if d < 1 {
        1
    } else if d > 64 {
        64
    } else {
        d
    }
}

impl TimeManager {
    /// A search to depth `depth` (between 1 and 64), without time or node limits.
    pub fn from_depth(depth: u8) -> (r: Self)
        ensures
            r.limits == (TimeLimits {
                max_depth: clamp_int(depth as int, 1, 64) as u8,
                max_nodes: None,
                optimum_time: None,
                max_time: None,
                infinite: false,
            }),
    {
        TimeManager {
            limits: TimeLimits {
                max_depth: depth_clamp(depth),
                max_nodes: None,
                optimum_time: None,
                max_time: None,
                infinite: false,
            },
            start_time: now(),
        }
    }

    /// A search of a fixed time of `movetime_ms` milliseconds (see [`safe_movetime_ms`]).
    pub fn from_movetime(movetime_ms: u64) -> (r: Self)
        requires
            movetime_ms <= 0x1000_0000_0000,
        ensures
            r.limits == (TimeLimits {
                max_depth: 64,
                max_nodes: None,
                optimum_time: Some((safe_movetime_ms(movetime_ms) * NANOS_PER_MILLI) as u64),
                max_time: Some((safe_movetime_ms(movetime_ms) * NANOS_PER_MILLI) as u64),
                infinite: false,
            }),
    {
        let safe = if movetime_ms >= 11 {
            movetime_ms - 10
        } else {
            1
        };
        let ns = safe * NANOS_PER_MILLI;
        TimeManager {
            limits: TimeLimits {
                max_depth: 64,
                max_nodes: None,
                optimum_time: Some(ns),
                max_time: Some(ns),
                infinite: false,
            },
            start_time: now(),
        }
    }

    /// A search of `nodes` nodes (at least one).
    pub fn from_nodes(nodes: u64) -> (r: Self)
        ensures
            r.limits == (TimeLimits {
                max_depth: 64,
                max_nodes: Some(if nodes >= 1 { nodes } else { 1 }),
                optimum_time: None,
                max_time: None,
                infinite: false,
            }),
    {
        TimeManager {
            limits: TimeLimits {
                max_depth: 64,
                max_nodes: Some(if nodes >= 1 {
                    nodes
                } else {
                    1
                }),
                optimum_time: None,
                max_time: None,
                infinite: false,
            },
            start_time: now(),
        }
    }

    /// A search that runs until stopped.
    pub fn infinite() -> (r: Self)
        ensures
            r.limits == (TimeLimits {
                max_depth: 64,
                max_nodes: None,
                optimum_time: None,
                max_time: None,
                infinite: true,
            }),
    {
        TimeManager {
            limits: TimeLimits {
                max_depth: 64,
                max_nodes: None,
                optimum_time: None,
                max_time: None,
                infinite: true,
            },
            start_time: now(),
        }
    }

    /// The limits of a `go` command for `to_play` (see [`limits_from_options`]).
    pub fn from_uci_options(opts: &SearchOptions, to_play: Color) -> (r: Self)
        ensures
            r.limits == limits_from_options(*opts, to_play),
    {
        let start_time = now();
        let max_depth = match opts.depth {
            Some(d) => depth_clamp(d as u8),
            None => 64,
        };
        let max_nodes = match opts.nodes {
            Some(n) => Some(if n >= 1 {
                n as u64
            } else {
                1
            }),
            None => None,
        };
        match opts.movetime {
            Some(mt0) => {
                let mt = cap(mt0);
                let safe = if mt >= 11 {
                    mt - 10
                } else {
                    1
                };
                let ns = safe * NANOS_PER_MILLI;
                return TimeManager {
                    limits: TimeLimits {
                        max_depth,
                        max_nodes,
                        optimum_time: Some(ns),
                        max_time: Some(ns),
                        infinite: opts.infinite,
                    },
                    start_time,
                };
            },
            None => {},
        }
        let (time, inc) = if to_play == Color::White {
            (opts.wtime, opts.winc)
        } else {
            (opts.btime, opts.binc)
        };
        let inc_ms: u64 = match inc {
            Some(i) => cap(i),
            None => 0,
        };
        let (optimum_time, max_time) = match time {
            Some(time_ms0) => {
                let time_ms = cap(time_ms0);
                let mtg0: u64 = match opts.movestogo {
                    Some(m) => m as u64,
                    None => 28,
                };
                let mtg: u64 = if mtg0 < 1 {
                    1
                } else if mtg0 > 50 {
                    50
                } else {
                    mtg0
                };
                let usable = if time_ms >= 40 {
                    time_ms - 40
                } else {
                    0
                };
                let mut opt = usable / mtg + inc_ms * 3 / 4;
                let hi = if usable >= 1 {
                    usable
                } else {
                    1
                };
                if opt < 1 {
                    opt = 1;
                } else if opt > hi {
                    opt = hi;
                }
                let hi2 = if usable >= opt {
                    usable
                } else {
                    opt
                };
                let mut mx = opt * 7 / 2;
                if mx < opt {
                    mx = opt;
                } else if mx > hi2 {
                    mx = hi2;
                }
                (Some(opt * NANOS_PER_MILLI), Some(mx * NANOS_PER_MILLI))
            },
            None => (None, None),
        };
        TimeManager {
            limits: TimeLimits { max_depth, max_nodes, optimum_time, max_time, infinite: opts.infinite },
            start_time,
        }
    }

    /// Whether the search must stop now, having visited `nodes_searched` nodes: the
    /// clock is read only when a maximum time is set (see [`hard_limit_reached`]).
    pub fn is_hard_limit_exceeded(&self, nodes_searched: u64) -> (r: bool)
        ensures
            self.limits.infinite ==> !r,
            !self.limits.infinite && (self.limits.max_nodes matches Some(m) && nodes_searched >= m) ==> r,
            self.limits.max_time is None ==> r == hard_limit_reached(self.limits, nodes_searched, 0),
            exists|e: u64| r == hard_limit_reached(self.limits, nodes_searched, e),
    {
        let elapsed = match self.limits.max_time {
            Some(_) => elapsed_ns(&self.start_time),
            None => 0,
        };
        hard_limit_decision(&self.limits, nodes_searched, elapsed)
    }

    /// Whether no further iteration should start after finishing depth `depth`: the clock
    /// is read only when an optimum time is set (see [`stop_after_depth`]).
    pub fn should_stop_after_depth(&self, depth: u8, best_move_stable: bool) -> (r: bool)
        ensures
            self.limits.optimum_time is None ==> r == stop_after_depth(self.limits, depth, best_move_stable, 0),
            exists|e: u64| r == stop_after_depth(self.limits, depth, best_move_stable, e),
    {
        let elapsed = match self.limits.optimum_time {
            Some(_) => elapsed_ns(&self.start_time),
            None => 0,
        };
        stop_after_depth_decision(&self.limits, depth, best_move_stable, elapsed)
    }
}


/// A clock-based `go` plans with the clock of the side to move only: Black's limits do not
/// change with White's time or increment, White's do not change with Black's, and Black's
/// limits are those White gets from the same numbers.
pub proof fn lemma_own_clock(o: SearchOptions, wt: Option<u64>, wi: Option<u64>, bt: Option<u64>, bi: Option<u64>)
    ensures
        limits_from_options(SearchOptions { wtime: wt, winc: wi, ..o }, Color::Black)
            == limits_from_options(o, Color::Black),
        limits_from_options(SearchOptions { btime: bt, binc: bi, ..o }, Color::White)
            == limits_from_options(o, Color::White),
        limits_from_options(o, Color::Black) == limits_from_options(
            SearchOptions { wtime: o.btime, winc: o.binc, btime: bt, binc: bi, ..o },
            Color::White,
        ),
{
}


/// The planned times stay within the clock: the optimum is at least a millisecond and at
/// most the clock less the 40 ms kept back (or one millisecond when less is left), and the
/// maximum lies between the optimum and the larger of that usable time and the optimum.
pub proof fn lemma_clock_times_within(time_ms: u64, inc_ms: u64, mtg: int)
    requires
        mtg >= 1,
    ensures
        ({
            let (opt, mx) = clock_times(time_ms, inc_ms, mtg);
            let usable: int = if time_ms >= 40 { time_ms - 40 } else { 0 };
            &&& 1 <= opt <= (if usable >= 1 { usable } else { 1 })
            &&& opt <= mx <= (if usable >= opt { usable } else { opt })
        }),
{
}

} // verus!
