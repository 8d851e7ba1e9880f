//! A model that keeps the simulation alive by scheduling itself at a fixed
//! period.
use vstd::prelude::*;

use crate::scheduler::{enqueue, has_room, Scheduler};
use crate::time::{max_time, Duration};

verus! {

/// A model that schedules an action every `tick`, starting one tick after it
/// is initialised.
#[derive(Clone, Copy, Debug)]
pub struct Ticker {
    pub tick: Duration,
}

impl Ticker {
    /// A ticker with the given period.
    pub fn new(tick: Duration) -> (r: Ticker)
        ensures
            r.tick == tick,
    {
        Ticker { tick }
    }

    /// Schedules `action` one tick from now and every tick after.
    pub fn init<A: Copy>(&self, scheduler: &mut Scheduler<A>, action: A)
        requires
            old(scheduler).wf(),
            has_room(old(scheduler)@),
            self.tick.wf(),
            self.tick@ > 0,
            old(scheduler)@.time@ + self.tick@ <= max_time(),
        ensures
            final(scheduler).wf(),
            final(scheduler)@ == enqueue(
                old(scheduler)@,
                old(scheduler)@.time.add_spec(self.tick),
                None,
                Some(self.tick),
                action,
            ),
    {
        let now = scheduler.time();
        if let Some(first) = now.checked_add(self.tick) {
            let _ = scheduler.schedule_periodic(first, self.tick, action);
        }
    }
}

} // verus!
