use vstd::prelude::*;
use std::time::{Duration, Instant};

verus! {

#[verifier::external_type_specification]
#[verifier::external_body]
pub struct ExInstant(Instant);

/// The largest whole number of milliseconds a `Duration` can hold:
/// `u64::MAX` seconds and 999 more milliseconds.
pub const MAX_ELAPSED_MS: u128 = 18_446_744_073_709_551_615_999u128;

/// The score that marks "no score seen yet".
pub const NO_SCORE: i32 = -30000;

/// `Instant::now`: the current reading of the monotonic clock.  Nothing is
/// stated of the reading, which depends on the time of the call.
#[verifier::external_body]
fn clock_now() -> Instant {
    Instant::now()
}

/// `Instant::elapsed`: the time passed since `start`.  Nothing is stated of
/// it, as it depends on the time of the call.
#[verifier::external_body]
fn clock_elapsed(start: &Instant) -> Duration {
    start.elapsed()
}

/// `Duration::as_millis`: the whole milliseconds of `d`.  Only the bound
/// that a `Duration` (at most `u64::MAX` seconds and 999 999 999
/// nanoseconds) puts on it is stated; its exact value is left unsaid, as the
/// duration's own fields are not modelled here.
#[verifier::external_body]
fn duration_millis(d: &Duration) -> (ms: u128)
    ensures
        ms <= MAX_ELAPSED_MS,
{
    d.as_millis()
}

/// Search time budget of one move: a soft limit (`opt_time`) checked between
/// iterations, a hard limit (`max_time`) checked during the search, both in
/// milliseconds since `start_time`.
pub struct TimeManager {
    pub start_time: Instant,
    pub opt_time: u128,
    pub max_time: u128,
    pub last_score: i32,
    pub last_pv_move: u16,
    pub base_opt_time: u128,
}

/// What the next iteration is predicted to need, in milliseconds: twice the
/// nodes of the last one at the measured speed.
pub open spec fn predicted_ms(nodes_this_iter: u64, nps: u64) -> int {
    let nodes: int = if 2 * nodes_this_iter > u64::MAX { u64::MAX as int } else { 2 * nodes_this_iter };
    (nodes * 1000) / (nps as int)
}

/// Whether another iteration may start: the soft limit is not reached at the
/// first clock reading, and, where the speed is known, the predicted time of
/// the next iteration added to the second reading stays within it.
pub open spec fn iteration_fits(first_ms: u128, second_ms: u128, nodes_this_iter: u64, nps: u64, opt_time: u128) -> bool {
    &&& first_ms < opt_time
    &&& nps > 0 ==> second_ms + predicted_ms(nodes_this_iter, nps) <= opt_time
}

/// Decides whether another iteration may start from two clock readings (in
/// milliseconds since the start of the search), the nodes of the last
/// iteration and the measured speed in nodes per second.
pub fn next_iteration_fits(first_ms: u128, second_ms: u128, nodes_this_iter: u64, nps: u64, opt_time: u128) -> (fits: bool)
    requires
        second_ms <= MAX_ELAPSED_MS,
    ensures
        fits == iteration_fits(first_ms, second_ms, nodes_this_iter, nps, opt_time),
{
    if first_ms >= opt_time {
        return false;
    }
    if nps > 0 {
        let predicted_nodes: u64 = if nodes_this_iter > u64::MAX / 2 { u64::MAX } else { nodes_this_iter * 2 };
        assert(predicted_nodes as int * 1000 <= u64::MAX as int * 1000);
        let predicted_time_needed_ms = (predicted_nodes as u128 * 1000) / (nps as u128);
        assert(predicted_time_needed_ms <= predicted_nodes as int * 1000) by (nonlinear_arith)
            requires
                nps as int >= 1,
                predicted_time_needed_ms as int == (predicted_nodes as int * 1000) / (nps as int),
        ;
        if second_ms + predicted_time_needed_ms > opt_time {
            return false;
        }
    }
    true
}

impl TimeManager {
    /// A manager with no limit: both budgets at `u128::MAX`, no score and no
    /// principal move seen, the clock started now.
    pub fn new() -> (tm: TimeManager)
        ensures
            tm.opt_time == u128::MAX,
            tm.max_time == u128::MAX,
            tm.base_opt_time == u128::MAX,
            tm.last_score == NO_SCORE,
            tm.last_pv_move == 0,
    {
        TimeManager {
            start_time: clock_now(),
            opt_time: u128::MAX,
            max_time: u128::MAX,
            last_score: NO_SCORE,
            last_pv_move: 0,
            base_opt_time: u128::MAX,
        }
    }

    /// Restarts the clock with the given soft and hard limits, which become
    /// the base of later adjustments; forgets the last score and principal
    /// move.
    pub fn set_exact_limits(&mut self, soft_limit: u128, hard_limit: u128)
        ensures
            final(self).opt_time == soft_limit,
            final(self).max_time == hard_limit,
            final(self).base_opt_time == soft_limit,
            final(self).last_score == NO_SCORE,
            final(self).last_pv_move == 0,
    {
        self.start_time = clock_now();
        self.opt_time = soft_limit;
        self.max_time = hard_limit;
        self.base_opt_time = soft_limit;
        self.last_score = NO_SCORE;
        self.last_pv_move = 0;
    }

    /// Milliseconds since the clock was started.
    pub fn elapsed(&self) -> (ms: u128)
        ensures
            ms <= MAX_ELAPSED_MS,
    {
        let d = clock_elapsed(&self.start_time);
        duration_millis(&d)
    }

    /// Brings the soft limit back to its base value.
    pub fn reset_to_base(&mut self)
        ensures
            final(self).opt_time == old(self).base_opt_time,
            final(self).max_time == old(self).max_time,
            final(self).base_opt_time == old(self).base_opt_time,
            final(self).last_score == old(self).last_score,
            final(self).last_pv_move == old(self).last_pv_move,
    {
        self.opt_time = self.base_opt_time;
    }

    /// Whether the hard limit is reached.  The clock reading decides; a hard
    /// limit of zero is always reached, and one beyond any reading never is.
    pub fn should_stop(&self) -> (stop: bool)
        ensures
            self.max_time == 0 ==> stop,
            self.max_time > MAX_ELAPSED_MS ==> !stop,
    {
        self.elapsed() >= self.max_time
    }

    /// Whether another iteration of the deepening may start, judged by
    /// `next_iteration_fits` on two readings of the clock.  Nothing changes.
    pub fn can_start_next_iteration(&mut self, nodes_this_iter: u64, nps: u64) -> (fits: bool)
        ensures
            *final(self) == *old(self),
            exists|first_ms: u128, second_ms: u128|
                first_ms <= MAX_ELAPSED_MS && second_ms <= MAX_ELAPSED_MS && fits == #[trigger] iteration_fits(
                    first_ms,
                    second_ms,
                    nodes_this_iter,
                    nps,
                    old(self).opt_time,
                ),
            old(self).opt_time == 0 ==> !fits,
    {
        let first = self.elapsed();
        let second = if first >= self.opt_time || nps == 0 {
            first
        } else {
            self.elapsed()
        };
        let fits = next_iteration_fits(first, second, nodes_this_iter, nps, self.opt_time);
        proof {
            assert(fits == iteration_fits(first, second, nodes_this_iter, nps, self.opt_time));
        }
        fits
    }
}

impl Clone for TimeManager {
    fn clone(&self) -> (tm: TimeManager)
        ensures
            tm == *self,
    {
        TimeManager {
            start_time: self.start_time,
            opt_time: self.opt_time,
            max_time: self.max_time,
            last_score: self.last_score,
            last_pv_move: self.last_pv_move,
            base_opt_time: self.base_opt_time,
        }
    }
}

impl Default for TimeManager {
    fn default() -> (tm: TimeManager)
        ensures
            tm.opt_time == u128::MAX,
            tm.max_time == u128::MAX,
            tm.base_opt_time == u128::MAX,
            tm.last_score == NO_SCORE,
            tm.last_pv_move == 0,
    {
        TimeManager::new()
    }
}

} // verus!
