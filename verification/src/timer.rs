//! The repeating timer that paces mana-gem spawn attempts.

use bevy::time::{Timer, TimerMode};
use std::time::Duration;
use vstd::prelude::*;

verus! {

/// Where a repeating timer stands after `delta` more nanoseconds: the time
/// left over once every completed period is taken out.
pub open spec fn elapsed_after(period: int, elapsed: int, delta: int) -> int {
    if period <= 0 {
        0
    } else if elapsed + delta >= period {
        (elapsed + delta) % period
    } else {
        elapsed + delta
    }
}

/// Whether a repeating timer completes at least one period within `delta`.
pub open spec fn fires_after(period: int, elapsed: int, delta: int) -> bool {
    elapsed + delta >= period
}

/// Runs one `bevy::time::Timer::tick` on a fresh, unpaused repeating timer
/// of `period_ns` that has `elapsed_ns` on its stopwatch. Returns the time
/// on the stopwatch afterwards and whether the timer finished.
///
/// Trusted: the timer adds `delta_ns` to the elapsed time, reports itself
/// finished when the sum reaches the period, and in that case keeps only the
/// remainder modulo the period (zero for a zero period).
#[verifier::external_body]
fn tick_repeating(period_ns: u64, elapsed_ns: u64, delta_ns: u64) -> (ticked: (u64, bool))
    ensures
        ticked.0 == elapsed_after(period_ns as int, elapsed_ns as int, delta_ns as int),
        ticked.1 == fires_after(period_ns as int, elapsed_ns as int, delta_ns as int),
{
    let mut timer = Timer::new(Duration::from_nanos(period_ns), TimerMode::Repeating);
    timer.set_elapsed(Duration::from_nanos(elapsed_ns));
    timer.tick(Duration::from_nanos(delta_ns));
    (timer.elapsed().as_nanos() as u64, timer.finished())
}

/// A repeating timer measured in nanoseconds.
pub struct GemTimer {
    period_ns: u64,
    elapsed_ns: u64,
}

impl GemTimer {
    /// The elapsed time never reaches a whole period between ticks.
    pub open spec fn wf(&self) -> bool {
        if self.period() == 0 {
            self.elapsed() == 0
        } else {
            self.elapsed() < self.period()
        }
    }

    /// The period, in nanoseconds.
    pub closed spec fn period(&self) -> nat {
        self.period_ns as nat
    }

    /// The time run since the timer last fired, in nanoseconds.
    pub closed spec fn elapsed(&self) -> nat {
        self.elapsed_ns as nat
    }

    /// A timer at rest that fires every `period_ns` nanoseconds.
    pub fn new(period_ns: u64) -> (timer: GemTimer)
        ensures
            timer.wf(),
            timer.period() == period_ns,
            timer.elapsed() == 0,
    {
        GemTimer { period_ns, elapsed_ns: 0 }
    }

    /// The period, in nanoseconds.
    pub fn period_ns(&self) -> (ns: u64)
        ensures
            ns == self.period(),
    {
        self.period_ns
    }

    /// The time run since the timer last fired, in nanoseconds.
    pub fn elapsed_ns(&self) -> (ns: u64)
        ensures
            ns == self.elapsed(),
    {
        self.elapsed_ns
    }

    /// Advances the timer by `delta_ns` and reports whether it fired.
    pub fn tick(&mut self, delta_ns: u64) -> (fired: bool)
        requires
            old(self).wf(),
        ensures
            final(self).wf(),
            final(self).period() == old(self).period(),
            fired == fires_after(
                old(self).period() as int,
                old(self).elapsed() as int,
                delta_ns as int,
            ),
            final(self).elapsed() == elapsed_after(
                old(self).period() as int,
                old(self).elapsed() as int,
                delta_ns as int,
            ),
    {
        let (elapsed, fired) = tick_repeating(self.period_ns, self.elapsed_ns, delta_ns);
        self.elapsed_ns = elapsed;
        fired
    }
}

} // verus!
