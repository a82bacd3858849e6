//! When to take the next sample for the position logs.

use crate::time::elapsed;
use crate::position_log::INTERVAL;
use vstd::prelude::*;

verus! {

/// Paces the sampling of positions: one round per `INTERVAL`.
pub struct PositionLogSystem {
    last_run: u128,
}

impl PositionLogSystem {
    /// The time of the last round, in nanoseconds.
    pub closed spec fn last_run(&self) -> u128 {
        self.last_run
    }

    /// A system whose last round counts as run at `now`.
    pub fn new(now: u128) -> (system: Self)
        ensures
            system.last_run() == now,
    {
        PositionLogSystem { last_run: now }
    }

    /// Whether a round is due at `now`, that is, whether at least `INTERVAL`
    /// has passed since the last one. If so, the round counts as run at
    /// `now`, and the caller stores the position of every entity at `now` in
    /// its log.
    pub fn run(&mut self, now: u128) -> (due: bool)
        ensures
            due == (elapsed(now, old(self).last_run()) >= INTERVAL),
            final(self).last_run() == (if due {
                now
            } else {
                old(self).last_run()
            }),
    {
        let age: u128 = if now >= self.last_run {
            now - self.last_run
        } else {
            0
        };
        if age < INTERVAL {
            return false;
        }
        self.last_run = now;
        true
    }
}

} // verus!
