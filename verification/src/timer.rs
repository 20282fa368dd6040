//! A one-shot countdown measured in nanoseconds.

use vstd::prelude::*;

verus! {

/// Counts elapsed time up to a duration, once. `finished` turns on at the
/// tick that reaches the duration and stays on; `just_finished` is on only
/// right after that tick.
#[derive(Clone, Copy, Debug, PartialEq, Eq, Structural)]
pub struct Timer {
    pub duration: u64,
    pub elapsed: u64,
    pub finished: bool,
    pub just_finished: bool,
}

/// The timer after `delta` nanoseconds: a finished timer stays as it is
/// (only `just_finished` goes off); otherwise time advances, and when it
/// reaches the duration the timer finishes and stops there.
pub open spec fn tick_spec(t: Timer, delta: u64) -> Timer {
    if t.finished {
        Timer { just_finished: false, ..t }
    } else if t.elapsed + delta >= t.duration {
        Timer { elapsed: t.duration, finished: true, just_finished: true, ..t }
    } else {
        Timer { elapsed: (t.elapsed + delta) as u64, finished: false, just_finished: false, ..t }
    }
}

/// The time left before the duration is reached, zero once it is.
pub open spec fn remaining_spec(t: Timer) -> u64 {
    if t.duration >= t.elapsed {
        (t.duration - t.elapsed) as u64
    } else {
        0
    }
}

impl Timer {
    /// A timer of `duration` nanoseconds that has not started.
    #[verifier::allow_in_spec]
    pub fn new(duration: u64) -> Timer
        returns
            (Timer { duration, elapsed: 0, finished: false, just_finished: false }),
    {
        Timer { duration, elapsed: 0, finished: false, just_finished: false }
    }

    /// A timer of no duration that has not been ticked: it finishes on its first tick.
    #[verifier::allow_in_spec]
    pub fn zero() -> Timer
        returns
            (Timer { duration: 0, elapsed: 0, finished: false, just_finished: false }),
    {
        Timer { duration: 0, elapsed: 0, finished: false, just_finished: false }
    }

    /// Advances the timer by `delta` nanoseconds.
    pub fn tick(&mut self, delta: u64)
        requires
            old(self).finished || old(self).elapsed + delta <= u64::MAX,
        ensures
            *final(self) == tick_spec(*old(self), delta),
    {
        if self.finished {
            self.just_finished = false;
            return;
        }
        let e = self.elapsed + delta;
        if e >= self.duration {
            self.elapsed = self.duration;
            self.finished = true;
            self.just_finished = true;
        } else {
            self.elapsed = e;
            self.just_finished = false;
        }
    }

    pub fn is_finished(&self) -> (r: bool)
        ensures
            r == self.finished,
    {
        self.finished
    }

    pub fn just_finished(&self) -> (r: bool)
        ensures
            r == self.just_finished,
    {
        self.just_finished
    }

    /// Runs the timer to its end by ticking the time that remains.
    pub fn finish(&mut self)
        ensures
            *final(self) == tick_spec(*old(self), remaining_spec(*old(self))),
    {
        let remaining = if self.duration >= self.elapsed {
            self.duration - self.elapsed
        } else {
            0
        };
        self.tick(remaining);
    }

    /// Changes the duration; the elapsed time and the flags stay.
    pub fn set_duration(&mut self, duration: u64)
        ensures
            *final(self) == (Timer { duration, ..*old(self) }),
    {
        self.duration = duration;
    }

    /// Starts over: nothing elapsed, not finished.
    pub fn reset(&mut self)
        ensures
            *final(self) == (Timer { elapsed: 0, finished: false, just_finished: false, ..*old(self) }),
    {
        self.elapsed = 0;
        self.finished = false;
        self.just_finished = false;
    }
}

/// A timer finishes exactly once: `just_finished` is on after at most one
/// tick, and never again after it.
pub proof fn law_finishes_once(t: Timer, d1: u64, d2: u64)
    requires
        tick_spec(t, d1).just_finished,
    ensures
        tick_spec(t, d1).finished,
        !tick_spec(tick_spec(t, d1), d2).just_finished,
        tick_spec(tick_spec(t, d1), d2).finished,
{
}

/// The elapsed time never passes the duration of a timer that started below it.
pub proof fn law_elapsed_bounded(t: Timer, d: u64)
    requires
        t.elapsed <= t.duration,
        !t.finished ==> t.elapsed + d <= u64::MAX,
    ensures
        tick_spec(t, d).elapsed <= tick_spec(t, d).duration,
{
}

/// Counts elapsed time over and over: each time the duration is reached
/// the count starts again from what is left over, and `just_finished` is on
/// right after such a tick.
#[derive(Clone, Copy, Debug, PartialEq, Eq, Structural)]
pub struct RepeatingTimer {
    pub duration: u64,
    pub elapsed: u64,
    pub just_finished: bool,
}

/// The repeating timer after `delta` nanoseconds. A timer of no duration
/// finishes on every tick and keeps nothing.
pub open spec fn repeat_tick_spec(t: RepeatingTimer, delta: u64) -> RepeatingTimer {
    if t.duration == 0 {
        RepeatingTimer { elapsed: 0, just_finished: true, ..t }
    } else {
        RepeatingTimer {
            elapsed: ((t.elapsed + delta) % (t.duration as int)) as u64,
            just_finished: t.elapsed + delta >= t.duration,
            ..t
        }
    }
}

impl RepeatingTimer {
    /// A repeating timer of `duration` nanoseconds.
    #[verifier::allow_in_spec]
    pub fn new(duration: u64) -> RepeatingTimer
        returns
            (RepeatingTimer { duration, elapsed: 0, just_finished: false }),
    {
        RepeatingTimer { duration, elapsed: 0, just_finished: false }
    }

    /// Advances the timer by `delta` nanoseconds.
    pub fn tick(&mut self, delta: u64)
        requires
            old(self).elapsed + delta <= u64::MAX,
        ensures
            *final(self) == repeat_tick_spec(*old(self), delta),
    {
        let e = self.elapsed + delta;
        if self.duration == 0 {
            self.just_finished = true;
            self.elapsed = 0;
        } else {
            self.just_finished = e >= self.duration;
            self.elapsed = e % self.duration;
        }
    }

    /// Starts over.
    pub fn reset(&mut self)
        ensures
            *final(self) == (RepeatingTimer { elapsed: 0, just_finished: false, ..*old(self) }),
    {
        self.elapsed = 0;
        self.just_finished = false;
    }
}

/// A repeating timer never holds a full duration: what remains after a
/// tick is below the duration (or nothing, for a timer of no duration).
pub proof fn law_repeat_elapsed_below_duration(t: RepeatingTimer, delta: u64)
    ensures
        t.duration > 0 ==> repeat_tick_spec(t, delta).elapsed < t.duration,
        t.duration == 0 ==> repeat_tick_spec(t, delta).elapsed == 0,
        repeat_tick_spec(t, delta).duration == t.duration,
{
}

} // verus!
