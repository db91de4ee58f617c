//! A timer that counts raw clock ticks from a baseline.

use crate::timebase::MachTimeBaseInfo;
use vstd::prelude::*;

verus! {

/// What a timer is, to its callers.
pub enum TimerState {
    /// No baseline was ever taken.
    Uninitialized,
    /// The baseline tick count and the tick rate were taken, once.
    Ready { baseline: u64, ticks_per_second: u64 },
}

/// Time since the baseline, as the exact fraction `ticks / ticks_per_second`
/// of a second. `ticks` is negative where the clock read less than it did at
/// the baseline.
#[derive(Clone, Copy, Debug, PartialEq, Eq, Structural)]
pub struct Elapsed {
    pub ticks: i128,
    pub ticks_per_second: u64,
}

impl TimerState {
    /// The state of a timer started at tick count `now` on a clock with time
    /// base `info`.
    pub open spec fn started(info: MachTimeBaseInfo, now: u64) -> TimerState {
        TimerState::Ready {
            baseline: now,
            ticks_per_second: info.spec_ticks_per_second() as u64,
        }
    }

    /// What a timer in this state reads when the clock is at tick count `now`.
    pub open spec fn elapsed_at(self, now: u64) -> Option<Elapsed> {
        match self {
            TimerState::Uninitialized => None,
            TimerState::Ready { baseline, ticks_per_second } => Some(
                Elapsed { ticks: (now - baseline) as i128, ticks_per_second },
            ),
        }
    }
}

/// Baseline and tick rate of a monotonic clock, fixed when the timer is made.
#[derive(Clone, Copy, Debug)]
pub struct Timer {
    offset: u64,
    frequency: u64,
    initialized: bool,
}

impl View for Timer {
    type V = TimerState;

    closed spec fn view(&self) -> TimerState {
        if self.initialized {
            TimerState::Ready { baseline: self.offset, ticks_per_second: self.frequency }
        } else {
            TimerState::Uninitialized
        }
    }
}

impl Default for Timer {
    /// A timer without a baseline.
    fn default() -> (timer: Timer)
        ensures
            timer@ == TimerState::Uninitialized,
    {
        Timer { offset: 0, frequency: 0, initialized: false }
    }
}

impl Timer {
    /// Starts a timer: `now` is the clock's current tick count and becomes
    /// the baseline, `info` its time base. The timer is ready whatever the
    /// time base holds.
    pub fn new(info: MachTimeBaseInfo, now: u64) -> (timer: Timer)
        ensures
            timer@ == TimerState::started(info, now),
    {
        Timer { offset: now, frequency: info.ticks_per_second(), initialized: true }
    }

    /// Reads the timer at the clock's tick count `now`: the ticks since the
    /// baseline together with the tick rate, or nothing where the timer was
    /// never started.
    pub fn get_time(&self, now: u64) -> (elapsed: Option<Elapsed>)
        ensures
            elapsed == self@.elapsed_at(now),
    {
        if !self.initialized {
            return None;
        }
        Some(Elapsed { ticks: now as i128 - self.offset as i128, ticks_per_second: self.frequency })
    }
}

/// A timer never runs backwards. Of two readings, the one taken at the later
/// tick count holds at least as many ticks at the same rate, and the two
/// differ by the ticks the clock made in between. A timer that was never
/// started reads nothing both times.
pub proof fn lemma_readings_are_monotonic(timer: Timer, first: u64, second: u64)
    requires
        first <= second,
    ensures
        match (timer@.elapsed_at(first), timer@.elapsed_at(second)) {
            (Some(a), Some(b)) => {
                &&& a.ticks <= b.ticks
                &&& b.ticks - a.ticks == second - first
                &&& a.ticks_per_second == b.ticks_per_second
            },
            (None, None) => true,
            _ => false,
        },
{
}

/// A timer read at the tick count it was started at reads zero, and read at
/// any later tick count it reads the ticks made since, which are not negative.
pub proof fn lemma_reading_starts_at_zero(info: MachTimeBaseInfo, start: u64, now: u64)
    requires
        start <= now,
    ensures
        TimerState::started(info, start).elapsed_at(start) matches Some(at_start)
            && at_start.ticks == 0,
        TimerState::started(info, start).elapsed_at(now) matches Some(later) && later.ticks == now
            - start && later.ticks >= 0,
{
}

} // verus!
