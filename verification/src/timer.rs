//! Recurring timers, advanced by `bevy`'s `Timer`.

use bevy::time::{Timer, TimerMode};
use std::time::Duration;
use vstd::prelude::*;

verus! {

/// Elapsed time, in nanoseconds, that a repeating timer of period `period`
/// shows after it stood at `elapsed` and was advanced by `delta`.
pub open spec fn ticked_elapsed(period: u64, elapsed: u64, delta: u64) -> int {
    if period == 0 {
        0
    } else {
        (elapsed + delta) % (period as int)
    }
}

/// Number of completions that a repeating timer reports for one advance.
///
/// The count is kept in 32 bits and wraps; a timer without a period reports
/// the largest count.
pub open spec fn ticked_completions(period: u64, elapsed: u64, delta: u64) -> int {
    if period == 0 {
        0xffff_ffff
    } else {
        ((elapsed + delta) / (period as int)) % 0x1_0000_0000
    }
}

/// Runs one `Timer::tick` of `bevy` on a repeating, unpaused timer of the
/// given period that stands at `elapsed`, and returns the new elapsed time
/// with `Timer::times_finished_this_tick`.
///
/// Trusted: the timer adds `delta` to its elapsed time, reports how many
/// whole periods fit into the sum (truncated to 32 bits), and keeps the
/// remainder; with a zero period it reports `u32::MAX` and keeps zero.
#[verifier::external_body]
fn tick_repeating(period: u64, elapsed: u64, delta: u64) -> (r: (u64, u32))
    ensures
        r.0 == ticked_elapsed(period, elapsed, delta),
        r.1 == ticked_completions(period, elapsed, delta),
{
    let mut timer = Timer::new(Duration::from_nanos(period), TimerMode::Repeating);
    timer.set_elapsed(Duration::from_nanos(elapsed));
    timer.tick(Duration::from_nanos(delta));
    (timer.elapsed().as_nanos() as u64, timer.times_finished_this_tick())
}

/// A recurring timer with a fixed period, in nanoseconds.
#[derive(Clone, Copy, Debug, PartialEq, Eq, Structural)]
pub struct Cooldown {
    pub period: u64,
    pub elapsed: u64,
}

impl Cooldown {
    /// A timer of the given period that has not run yet.
    pub fn new(period: u64) -> (c: Cooldown)
        ensures
            c == (Cooldown { period, elapsed: 0 }),
    {
        Cooldown { period, elapsed: 0 }
    }

    /// The timer after `delta` nanoseconds.
    pub open spec fn ticked(self, delta: u64) -> Cooldown {
        Cooldown {
            period: self.period,
            elapsed: ticked_elapsed(self.period, self.elapsed, delta) as u64,
        }
    }

    /// Advances the timer and returns how many periods completed.
    pub fn tick(&mut self, delta: u64) -> (n: u32)
        ensures
            *final(self) == old(self).ticked(delta),
            n == ticked_completions(old(self).period, old(self).elapsed, delta),
    {
        let r = tick_repeating(self.period, self.elapsed, delta);
        self.elapsed = r.0;
        r.1
    }
}

} // verus!
