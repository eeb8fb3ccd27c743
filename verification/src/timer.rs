//! A one-shot delay, counted in milliseconds: it runs while time is handed
//! to it, finishes once its duration has passed, and then stays finished.

use vstd::prelude::*;

verus! {

/// A one-shot delay of `duration_ms` milliseconds.
pub struct DelayTimer {
    pub duration_ms: u64,
    /// Time counted so far, never past the duration.
    pub elapsed_ms: u64,
    /// Whether the duration has passed.
    pub finished: bool,
}

/// Whether a tick of `delta_ms` makes `t` finish.
pub open spec fn finishes_on_tick(t: DelayTimer, delta_ms: u64) -> bool {
    !t.finished && t.elapsed_ms + delta_ms >= t.duration_ms
}

/// `t` after a tick of `delta_ms`: a finished timer stays as it is; a
/// running one counts the time, and finishes when its duration is reached,
/// stopping there.
pub open spec fn after_tick(t: DelayTimer, delta_ms: u64) -> DelayTimer {
    if t.finished {
        t
    } else if finishes_on_tick(t, delta_ms) {
        DelayTimer { duration_ms: t.duration_ms, elapsed_ms: t.duration_ms, finished: true }
    } else {
        DelayTimer { duration_ms: t.duration_ms, elapsed_ms: (t.elapsed_ms + delta_ms) as u64, finished: false }
    }
}

/// A timer of `duration_ms` that has counted nothing yet.
pub open spec fn fresh_timer(duration_ms: u64) -> DelayTimer {
    DelayTimer { duration_ms, elapsed_ms: 0, finished: false }
}

impl DelayTimer {
    /// A timer of `duration_ms` that has counted nothing yet.
    pub fn new(duration_ms: u64) -> (r: Self)
        ensures
            r == fresh_timer(duration_ms),
    {
        DelayTimer { duration_ms, elapsed_ms: 0, finished: false }
    }

    /// Count `delta_ms` more; the result says whether the timer finished on
    /// this tick.
    pub fn tick(&mut self, delta_ms: u64) -> (just_finished: bool)
        ensures
            *final(self) == after_tick(*old(self), delta_ms),
            just_finished == finishes_on_tick(*old(self), delta_ms),
    {
        if self.finished {
            return false;
        }
        if self.elapsed_ms >= self.duration_ms || delta_ms >= self.duration_ms - self.elapsed_ms {
            self.elapsed_ms = self.duration_ms;
            self.finished = true;
            true
        } else {
            self.elapsed_ms = self.elapsed_ms + delta_ms;
            false
        }
    }

    /// Whether the duration has passed.
    pub fn is_finished(&self) -> (r: bool)
        ensures
            r == self.finished,
    {
        self.finished
    }

    /// Start counting again from nothing.
    pub fn reset(&mut self)
        ensures
            *final(self) == fresh_timer(old(self).duration_ms),
    {
        self.elapsed_ms = 0;
        self.finished = false;
    }
}

/// A delay finishes once: whatever time later ticks hand it, a timer that
/// finished on one tick never finishes again (until it is reset), and it
/// stays finished.
pub proof fn law_finishes_once(t: DelayTimer, first_ms: u64, later_ms: u64)
    requires
        finishes_on_tick(t, first_ms),
    ensures
        after_tick(t, first_ms).finished,
        !finishes_on_tick(after_tick(t, first_ms), later_ms),
        after_tick(after_tick(t, first_ms), later_ms) == after_tick(t, first_ms),
{
}

/// A running delay of `d` milliseconds finishes on the tick that brings the
/// time counted to `d`, and not before.
pub proof fn law_finishes_at_duration(t: DelayTimer, delta_ms: u64)
    requires
        !t.finished,
    ensures
        finishes_on_tick(t, delta_ms) <==> t.elapsed_ms + delta_ms >= t.duration_ms,
        !finishes_on_tick(t, delta_ms) ==> after_tick(t, delta_ms).elapsed_ms == t.elapsed_ms + delta_ms,
{
}

} // verus!
