//! Search limits, the time budget of a move, and the services that a
//! running search asks of its surroundings.

use vstd::prelude::*;
use vstd::arithmetic::div_mod::lemma_div_is_ordered;
use crate::piece_move::BitMove;
use crate::score::Value;
use crate::types::Player;

verus! {

/// Moves taken to remain in the game when the clock names none.
pub const MOVE_HORIZON: i64 = 50;

/// The longest clock time, in milliseconds, that the budget takes into
/// account; longer times count as this.
pub const MAX_CLOCK: i64 = 0x100_0000_0000;

/// The clocks of a game: for each player, White first, the time left and
/// the increment per move in milliseconds, and the number of moves to the
/// next time control, zero if unknown.
#[derive(Clone, Copy, PartialEq, Eq, Debug)]
pub struct UCITimer {
    pub time_msec: [i64; 2],
    pub inc_msec: [i64; 2],
    pub moves_to_go: u32,
}

/// What ends a search.
#[derive(Clone, Copy, PartialEq, Eq, Debug)]
pub enum LimitsType {
    /// The clocks of the game.
    Time(UCITimer),
    /// A fixed time for the move, in milliseconds.
    MoveTime(u64),
    /// A mate in this many moves.
    Mate(u16),
    /// A fixed depth in plies.
    Depth(u16),
    /// A number of nodes.
    Nodes(u64),
    /// Nothing but a stop request.
    Infinite,
    /// Nothing but a stop request, on the opponent's time.
    Ponder,
}

/// The limits of one search.
#[derive(Clone, Copy, PartialEq, Eq, Debug)]
pub struct Limits {
    pub limits_type: LimitsType,
}

impl Limits {
    /// Limits that only a stop request ends.
    pub fn blank() -> (l: Limits)
        ensures
            l.limits_type == LimitsType::Infinite,
    {
        Limits { limits_type: LimitsType::Infinite }
    }

    /// The clocks, where the search is run by them.
    pub open spec fn timer(self) -> Option<UCITimer> {
        match self.limits_type {
            LimitsType::Time(timer) => Some(timer),
            _ => None,
        }
    }

    /// The fixed move time, where the search has one.
    pub open spec fn movetime(self) -> Option<u64> {
        match self.limits_type {
            LimitsType::MoveTime(time) => Some(time),
            _ => None,
        }
    }

    /// The fixed depth, where the search has one.
    pub open spec fn depth(self) -> Option<u16> {
        match self.limits_type {
            LimitsType::Depth(depth) => Some(depth),
            _ => None,
        }
    }

    /// Returns the clocks, where the search is run by them.
    pub fn use_time_management(&self) -> (t: Option<UCITimer>)
        ensures
            t == self.timer(),
    {
        match self.limits_type {
            LimitsType::Time(timer) => Some(timer),
            _ => None,
        }
    }

    /// Returns the fixed move time, where the search has one.
    pub fn use_movetime(&self) -> (t: Option<u64>)
        ensures
            t == self.movetime(),
    {
        match self.limits_type {
            LimitsType::MoveTime(time) => Some(time),
            _ => None,
        }
    }

    /// Returns the fixed depth, where the search has one.
    pub fn use_depth(&self) -> (d: Option<u16>)
        ensures
            d == self.depth(),
    {
        match self.limits_type {
            LimitsType::Depth(depth) => Some(depth),
            _ => None,
        }
    }
}

/// A clock time as the budget counts it: not below zero, not above
/// `MAX_CLOCK`.
pub open spec fn clamp_time(t: int) -> int {
    if t < 0 {
        0
    } else if t > MAX_CLOCK {
        MAX_CLOCK as int
    } else {
        t
    }
}

/// The number of moves over which the remaining time is spread.
pub open spec fn horizon(moves_to_go: int) -> int {
    if moves_to_go <= 0 {
        MOVE_HORIZON as int
    } else {
        moves_to_go
    }
}

/// The time that a move should take: an even share of the time left plus
/// three quarters of the increment.
pub open spec fn ideal_budget(remaining: int, increment: int, moves_to_go: int) -> int {
    let share = if moves_to_go <= 0 {
        clamp_time(remaining) / 50
    } else {
        clamp_time(remaining) / moves_to_go
    };
    share + (clamp_time(increment) / 4) * 3
}

/// The time that a move may take at most: five times the ideal time, but
/// not more than four fifths of the time left.
pub open spec fn maximum_budget(remaining: int, increment: int, moves_to_go: int) -> int {
    let share = (clamp_time(remaining) * 4) / 5;
    let stretch = 5 * ideal_budget(remaining, increment, moves_to_go);
    if share < stretch {
        share
    } else {
        stretch
    }
}

/// Neither budget is ever negative.
pub proof fn lemma_budget_not_negative(remaining: int, increment: int, moves_to_go: int)
    ensures
        ideal_budget(remaining, increment, moves_to_go) >= 0,
        maximum_budget(remaining, increment, moves_to_go) >= 0,
        ideal_budget(remaining, increment, moves_to_go) <= 2 * MAX_CLOCK,
{
    let r = clamp_time(remaining);
    let h = horizon(moves_to_go);
    assert(0 <= r / h <= r) by (nonlinear_arith)
        requires
            0 <= r,
            1 <= h,
    ;
}

/// Both budgets grow with the time left: more time on the clock never
/// gives a smaller budget.
pub proof fn lemma_budget_monotone(less: int, more: int, increment: int, moves_to_go: int)
    requires
        less <= more,
    ensures
        ideal_budget(less, increment, moves_to_go) <= ideal_budget(more, increment, moves_to_go),
        maximum_budget(less, increment, moves_to_go) <= maximum_budget(
            more,
            increment,
            moves_to_go,
        ),
{
    lemma_div_is_ordered(clamp_time(less), clamp_time(more), horizon(moves_to_go));
}

fn clamp(t: i64) -> (c: i64)
    ensures
        c == clamp_time(t as int),
{
    if t < 0 {
        0
    } else if t > MAX_CLOCK {
        MAX_CLOCK
    } else {
        t
    }
}

/// The time budget of the move being searched, in milliseconds.
#[derive(Clone, Copy, PartialEq, Eq, Debug)]
pub struct TimeManager {
    ideal_time: i64,
    maximum_time: i64,
}

impl TimeManager {
    /// The ideal time as a mathematical value.
    pub closed spec fn ideal(self) -> int {
        self.ideal_time as int
    }

    /// The maximum time as a mathematical value.
    pub closed spec fn maximum(self) -> int {
        self.maximum_time as int
    }

    /// A manager that has not been given a clock: both budgets are zero.
    pub fn uninitialized() -> (tm: TimeManager)
        ensures
            tm.ideal() == 0,
            tm.maximum() == 0,
    {
        TimeManager { ideal_time: 0, maximum_time: 0 }
    }

    /// Sets the budgets for a move of `turn` from the clocks. The number
    /// of half-moves played is accepted for the caller's convenience; the
    /// budgets do not depend on it.
    pub fn init(&mut self, timer: &UCITimer, turn: Player, ply: u16)
        ensures
            final(self).ideal() == ideal_budget(
                timer.time_msec@[turn.index()] as int,
                timer.inc_msec@[turn.index()] as int,
                timer.moves_to_go as int,
            ),
            final(self).maximum() == maximum_budget(
                timer.time_msec@[turn.index()] as int,
                timer.inc_msec@[turn.index()] as int,
                timer.moves_to_go as int,
            ),
    {
        let side: usize = match turn {
            Player::White => 0,
            Player::Black => 1,
        };
        let remaining = clamp(timer.time_msec[side]);
        let increment = clamp(timer.inc_msec[side]);
        let moves: i64 = if timer.moves_to_go == 0 {
            MOVE_HORIZON
        } else {
            timer.moves_to_go as i64
        };
        proof {
            lemma_budget_not_negative(
                timer.time_msec@[side as int] as int,
                timer.inc_msec@[side as int] as int,
                timer.moves_to_go as int,
            );
        }
        assert(moves == horizon(timer.moves_to_go as int));
        let ideal = remaining / moves + (increment / 4) * 3;
        let share = (remaining * 4) / 5;
        let stretch = 5 * ideal;
        self.ideal_time = ideal;
        self.maximum_time = if share < stretch {
            share
        } else {
            stretch
        };
    }

    /// Returns the time that the move should take.
    pub fn ideal_time(&self) -> (t: i64)
        ensures
            t == self.ideal(),
    {
        self.ideal_time
    }

    /// Returns the time that the move may take at most.
    pub fn maximum_time(&self) -> (t: i64)
        ensures
            t == self.maximum(),
    {
        self.maximum_time
    }
}

/// Whether the clock has run out for a search under the given limits: on
/// the clocks of the game when the time elapsed has reached the maximum
/// time, with a fixed move time when it has reached that time, and never
/// under other limits.
pub open spec fn time_is_up(limit: Limits, maximum: int, elapsed: int) -> bool {
    match limit.limits_type {
        LimitsType::Time(_) => elapsed >= maximum,
        LimitsType::MoveTime(time) => elapsed >= time,
        _ => false,
    }
}

/// Returns whether the clock has run out for a search under the given
/// limits.
pub fn out_of_time(limit: &Limits, maximum: i64, elapsed: i64) -> (b: bool)
    ensures
        b == time_is_up(*limit, maximum as int, elapsed as int),
{
    match limit.limits_type {
        LimitsType::Time(_) => elapsed >= maximum,
        LimitsType::MoveTime(time) => elapsed >= 0 && elapsed as u64 >= time,
        _ => false,
    }
}

/// Returns whether a main worker on the clock ends its iterations: there
/// is a single root move, or the time elapsed has reached the ideal time
/// for the move as reduced for its stability.
pub fn iterations_end(root_count: usize, elapsed: i64, reduced_ideal: i64) -> (b: bool)
    ensures
        b == (root_count == 1 || elapsed >= reduced_ideal),
{
    root_count == 1 || elapsed >= reduced_ideal
}

/// What a running search asks of its surroundings: whether it is to stop,
/// how long it has run, and somewhere to report to. Of the answers only
/// this is promised: surroundings that never ask for a stop say so.
pub trait SearchControl {
    /// Whether these surroundings can ever ask for a stop.
    spec fn may_stop(&self) -> bool;

    /// Whether the search has been asked to stop.
    fn stop(&self) -> (b: bool)
        ensures
            b ==> self.may_stop(),
    ;

    /// Asks every worker to stop, or withdraws the request.
    fn set_stop(&self, stop: bool);

    /// Milliseconds since the search began.
    fn elapsed(&self) -> i64;

    /// The ideal time scaled down for a best move that has stayed the same
    /// for `stability` iterations.
    fn reduced_ideal(&self, ideal: i64, stability: u32) -> i64;

    /// Reports that the worker `id` starts to search.
    fn report_start(&self, id: usize);

    /// Reports the score and best move of a finished iteration.
    fn report_depth(&self, depth: u16, score: Value, best: BitMove);

    /// Reports the first root move of the worker `id`.
    fn report_pv(&self, id: usize, best: BitMove);

    /// Reports the move that the search settled on.
    fn report_bestmove(&self, best: BitMove);
}

/// The surroundings of a search that nothing interrupts: no stop request,
/// no clock, no reports.
pub struct Untimed {}

impl SearchControl for Untimed {
    open spec fn may_stop(&self) -> bool {
        false
    }

    fn stop(&self) -> (b: bool) {
        false
    }

    fn set_stop(&self, stop: bool) {
    }

    fn elapsed(&self) -> (ms: i64)
        ensures
            ms == 0,
    {
        0
    }

    fn reduced_ideal(&self, ideal: i64, stability: u32) -> (t: i64)
        ensures
            t == ideal,
    {
        ideal
    }

    fn report_start(&self, id: usize) {
    }

    fn report_depth(&self, depth: u16, score: Value, best: BitMove) {
    }

    fn report_pv(&self, id: usize, best: BitMove) {
    }

    fn report_bestmove(&self, best: BitMove) {
    }
}

} // verus!
