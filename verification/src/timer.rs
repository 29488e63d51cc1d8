//! A pausable countdown timer over integer milliseconds, used for the
//! gravity interval, the lock delay and the animation durations.

use vstd::prelude::*;

verus! {

/// A countdown: `tick(dt)` accumulates elapsed time and reports `true`
/// exactly when the accumulated time crosses the configured duration, at
/// which point it resets to 0. Pausing suspends accumulation without losing
/// progress.
#[derive(Debug, Copy, Clone)]
pub struct Timer {
    duration_ms: u64,
    elapsed_ms: u64,
    paused: bool,
}

impl Timer {
    /// The configured duration, in milliseconds. Always positive.
    pub closed spec fn duration(self) -> u64 {
        self.duration_ms
    }

    /// The accumulated elapsed time, in milliseconds. Always below the
    /// duration: crossing it resets the accumulator.
    pub closed spec fn elapsed(self) -> u64 {
        self.elapsed_ms
    }

    /// Whether accumulation is suspended.
    pub closed spec fn is_paused(self) -> bool {
        self.paused
    }

    /// Construction keeps the duration positive and the accumulator below it.
    pub open spec fn wf(self) -> bool {
        0 < self.duration() && self.elapsed() < self.duration()
    }

    /// A timer with the given duration, not yet started.
    pub fn new(duration_ms: u64) -> (t: Self)
        requires
            duration_ms > 0,
        ensures
            t.duration() == duration_ms,
            t.elapsed() == 0,
            !t.is_paused(),
            t.wf(),
    {
        Self { duration_ms, elapsed_ms: 0, paused: false }
    }

    /// A timer with the given duration, or `None` for the misconfigured
    /// duration 0.
    pub fn try_new(duration_ms: u64) -> (t: Option<Self>)
        ensures
            t matches Some(t) ==> t.duration() == duration_ms && t.elapsed() == 0 && !t.is_paused()
                && t.wf(),
            t is None <==> duration_ms == 0,
    {
        if duration_ms == 0 {
            None
        } else {
            Some(Self::new(duration_ms))
        }
    }

    /// Advance the timer by `dt` milliseconds. Returns `true` exactly when
    /// the accumulated time reaches the duration; the accumulator then
    /// restarts from 0. A paused timer neither advances nor fires.
    pub fn tick(&mut self, dt: u64) -> (fired: bool)
        requires
            old(self).wf(),
        ensures
            final (self).duration() == old(self).duration(),
            final (self).is_paused() == old(self).is_paused(),
            final (self).wf(),
            fired == (!old(self).is_paused() && old(self).elapsed() + dt >= old(
                self,
            ).duration()),
            final (self).elapsed() == if old(self).is_paused() {
                old(self).elapsed() as int
            } else if fired {
                0int
            } else {
                old(self).elapsed() + dt
            },
    {
        if self.paused {
            return false;
        }
        if dt >= self.duration_ms - self.elapsed_ms {
            self.elapsed_ms = 0;
            true
        } else {
            self.elapsed_ms = self.elapsed_ms + dt;
            false
        }
    }

    /// Restart the accumulator from 0.
    pub fn reset(&mut self)
        ensures
            final (self).duration() == old(self).duration(),
            final (self).is_paused() == old(self).is_paused(),
            final (self).elapsed() == 0,
    {
        self.elapsed_ms = 0;
    }

    /// Suspend accumulation.
    pub fn pause(&mut self)
        ensures
            final (self).duration() == old(self).duration(),
            final (self).elapsed() == old(self).elapsed(),
            final (self).is_paused(),
    {
        self.paused = true;
    }

    /// Continue accumulation from the suspended progress.
    pub fn resume(&mut self)
        ensures
            final (self).duration() == old(self).duration(),
            final (self).elapsed() == old(self).elapsed(),
            !final (self).is_paused(),
    {
        self.paused = false;
    }

    /// Fractional progress toward the duration, in thousandths. Always below
    /// 1000, since crossing the duration resets the accumulator.
    pub fn progress(&self) -> (p: u64)
        requires
            self.wf(),
        ensures
            p == self.elapsed() as int * 1000 / self.duration() as int,
            p < 1000,
    {
        let p128 = self.elapsed_ms as u128 * 1000 / self.duration_ms as u128;
        proof {
            let e = self.elapsed_ms as int;
            let d = self.duration_ms as int;
            assert(e * 1000 / d < 1000) by (nonlinear_arith)
                requires
                    0 < d,
                    e < d,
            ;
        }
        p128 as u64
    }

    /// The configured duration, in milliseconds.
    pub fn duration_ms(&self) -> (d: u64)
        ensures
            d == self.duration(),
    {
        self.duration_ms
    }

    /// The accumulated elapsed time, in milliseconds.
    pub fn elapsed_ms(&self) -> (e: u64)
        ensures
            e == self.elapsed(),
    {
        self.elapsed_ms
    }
}

} // verus!
