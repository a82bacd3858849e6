//! A timer that comes due once per period.

use vstd::prelude::*;

verus! {

/// A timer that is due once `duration` nanoseconds have passed since it was
/// last found due. A new timer is due at once.
pub struct Timer {
    duration: u128,
    target: u128,
}

impl Timer {
    /// The time between two rounds, in nanoseconds.
    pub closed spec fn duration(&self) -> u128 {
        self.duration
    }

    /// The time from which the timer is due, in nanoseconds.
    pub closed spec fn target(&self) -> u128 {
        self.target
    }

    /// A timer of period `duration`, in nanoseconds, that is due at once.
    pub fn new(duration: u128) -> (timer: Self)
        ensures
            timer.duration() == duration,
            timer.target() == 0,
    {
        Timer { duration, target: 0 }
    }

    /// Whether the timer is due at `now`. If it is, the next round starts:
    /// the timer is next due `duration` after `now`.
    pub fn next_if_done(&mut self, now: u128) -> (done: bool)
        requires
            now + old(self).duration() <= u128::MAX,
        ensures
            done == (now >= old(self).target()),
            final(self).duration() == old(self).duration(),
            final(self).target() == (if done {
                (now + old(self).duration()) as u128
            } else {
                old(self).target()
            }),
    {
        if now >= self.target {
            self.target = now + self.duration;
            true
        } else {
            false
        }
    }
}

} // verus!
