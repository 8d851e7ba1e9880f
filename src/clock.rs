//! Pacing of virtual time against a wall clock.
//!
//! Reading the wall clock and sleeping are the caller's; the clock decides
//! how long to wait before the epoch due at a deadline may run.
use vstd::prelude::*;

use crate::time::MonotonicTime;

verus! {

/// How virtual time is paced.
#[derive(Clone, Copy, Debug, PartialEq, Eq, Structural)]
pub enum Clock {
    /// Epochs run as soon as they come.
    AsFast,
    /// Epochs run in step with the system clock: the wall-clock reading at
    /// the first synchronisation, in nanoseconds, stands for the epoch of
    /// virtual time.
    AutoSystem { start: Option<i64> },
}

/// Nanoseconds to wait, from the wall-clock reading `now`, until the wall
/// clock reaches `start + deadline`.
pub open spec fn wait_for(start: int, deadline: int, now: int) -> int {
    if start + deadline > now {
        start + deadline - now
    } else {
        0
    }
}

impl Clock {
    /// A clock that never waits.
    pub fn as_fast() -> (r: Clock)
        ensures
            r == Clock::AsFast,
    {
        Clock::AsFast
    }

    /// A clock in step with the system clock, not yet started.
    pub fn auto_system() -> (r: Clock)
        ensures
            r == (Clock::AutoSystem { start: None }),
    {
        Clock::AutoSystem { start: None }
    }

    /// The nanoseconds to wait, the wall clock reading `now`, before the
    /// epoch due at `deadline` may run. The first call of a system clock
    /// records `now` as the wall-clock time of the epoch.
    pub fn synchronize(&mut self, deadline: MonotonicTime, now: i64) -> (r: i128)
        requires
            deadline.wf(),
        ensures
            r >= 0,
            *old(self) == Clock::AsFast ==> r == 0 && *final(self) == Clock::AsFast,
            *old(self) == (Clock::AutoSystem { start: None }) ==> r == wait_for(now as int, deadline@, now as int)
                && *final(self) == (Clock::AutoSystem { start: Some(now) }),
            *old(self) matches Clock::AutoSystem { start: Some(s) } ==> r == wait_for(s as int, deadline@, now as int)
                && *final(self) == *old(self),
    {
        match *self {
            Clock::AsFast => 0,
            Clock::AutoSystem { start } => {
                let s = match start {
                    Some(s) => s,
                    None => {
                        *self = Clock::AutoSystem { start: Some(now) };
                        now
                    },
                };
                let target: i128 = s as i128 + deadline.as_secs() as i128 * 1_000_000_000 + deadline.subsec_nanos() as i128;
                if target > now as i128 {
                    target - now as i128
                } else {
                    0
                }
            },
        }
    }
}

} // verus!
