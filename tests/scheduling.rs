use nexosim::clock::Clock;
use nexosim::scheduler::{ActionKey, Scheduler, SchedulingError};
use nexosim::simulation::{ExecutionError, Simulation};
use nexosim::time::{Duration, MonotonicTime};

fn t0() -> MonotonicTime {
    MonotonicTime::new(100, 0).unwrap()
}

fn at(t: MonotonicTime, nanos: u64) -> MonotonicTime {
    t.checked_add(Duration::from_nanos(nanos)).unwrap()
}

/// Runs one step and returns the epoch's actions with the time they ran at.
fn step(sim: &mut Simulation<u32>) -> Result<(MonotonicTime, Vec<u32>), ExecutionError> {
    let actions = sim.step()?;
    Ok((sim.time(), actions))
}

#[test]
fn deadlines_are_dispatched_in_order() {
    let mut sim: Simulation<u32> = Simulation::new(t0());
    sim.scheduler.schedule(at(t0(), 3), 3).unwrap();
    sim.scheduler.schedule(at(t0(), 1), 1).unwrap();
    sim.scheduler.schedule(at(t0(), 2), 2).unwrap();
    let mut seen = Vec::new();
    while let Ok((t, actions)) = step(&mut sim) {
        seen.push((t, actions));
    }
    assert_eq!(seen, vec![(at(t0(), 1), vec![1]), (at(t0(), 2), vec![2]), (at(t0(), 3), vec![3])]);
}

#[test]
fn same_deadline_actions_keep_their_order() {
    let mut sim: Simulation<u32> = Simulation::new(t0());
    let d = at(t0(), 5);
    for a in [7, 3, 9, 1] {
        sim.scheduler.schedule(d, a).unwrap();
    }
    let (t, actions) = step(&mut sim).unwrap();
    assert_eq!(t, d);
    assert_eq!(actions, vec![7, 3, 9, 1]);
}

#[test]
fn same_time_actions_scheduled_during_an_epoch_are_drained() {
    let mut sim: Simulation<u32> = Simulation::new(t0());
    sim.scheduler.schedule(at(t0(), 5), 1).unwrap();
    let (t, actions) = step(&mut sim).unwrap();
    assert_eq!(actions, vec![1]);
    sim.scheduler.schedule(t, 2).unwrap();
    sim.scheduler.schedule(t, 3).unwrap();
    assert_eq!(sim.drain_current(), vec![2, 3]);
    assert_eq!(sim.drain_current(), Vec::<u32>::new());
}

#[test]
fn cancelled_action_is_never_dispatched() {
    let mut sim: Simulation<u32> = Simulation::new(t0());
    let key = sim.scheduler.schedule_keyed(at(t0(), 10), 1).unwrap();
    sim.scheduler.schedule(at(t0(), 20), 2).unwrap();
    sim.scheduler.cancel(key);
    assert!(sim.scheduler.is_cancelled(key));
    let (t, actions) = step(&mut sim).unwrap();
    assert_eq!(t, at(t0(), 20));
    assert_eq!(actions, vec![2]);
    assert!(matches!(sim.step(), Err(ExecutionError::NoEventScheduled)));
}

#[test]
fn cancelling_an_unknown_key_does_nothing() {
    let mut sched: Scheduler<u32> = Scheduler::new(t0());
    sched.schedule(at(t0(), 1), 1).unwrap();
    sched.cancel(ActionKey { id: 42 });
    assert!(!sched.is_cancelled(ActionKey { id: 42 }));
    assert_eq!(sched.pop_next().map(|e| e.action), Some(1));
}

#[test]
fn halting_twice_is_halting_once() {
    let mut sim: Simulation<u32> = Simulation::new(t0());
    sim.scheduler.schedule(at(t0(), 1), 1).unwrap();
    sim.scheduler.halt();
    let queue_once: Vec<u64> = sim.scheduler.queue.iter().map(|e| e.seq).collect();
    sim.scheduler.halt();
    let queue_twice: Vec<u64> = sim.scheduler.queue.iter().map(|e| e.seq).collect();
    assert_eq!(queue_once, queue_twice);
    assert!(sim.scheduler.is_halted());
    assert!(matches!(sim.step(), Err(ExecutionError::Halted)));
    assert_eq!(sim.scheduler.queue.len(), 1);
}

#[test]
fn periodic_action_repeats_until_cancelled() {
    let mut sim: Simulation<u32> = Simulation::new(t0());
    let start = at(t0(), 10);
    let key = sim.scheduler.schedule_keyed_periodic(start, Duration::from_nanos(5), 4).unwrap();
    for k in 0..3u64 {
        let (t, actions) = step(&mut sim).unwrap();
        assert_eq!(t, at(start, 5 * k));
        assert_eq!(actions, vec![4]);
    }
    sim.scheduler.cancel(key);
    assert!(matches!(sim.step(), Err(ExecutionError::NoEventScheduled)));
}

#[test]
fn periodic_dispatch_has_no_drift() {
    let mut sim: Simulation<u32> = Simulation::new(t0());
    let period = Duration::from_nanos(7);
    sim.scheduler.schedule_periodic(at(t0(), 7), period, 0).unwrap();
    for k in 1..=10_000u64 {
        let (t, actions) = step(&mut sim).unwrap();
        assert_eq!(actions.len(), 1);
        assert_eq!(t, at(t0(), 7 * k));
    }
}

#[test]
fn scheduling_in_the_past_fails() {
    let mut sched: Scheduler<u32> = Scheduler::new(t0());
    let before = MonotonicTime::new(99, 999_999_999).unwrap();
    assert_eq!(sched.schedule(before, 1), Err(SchedulingError::DeadlineInPast));
    assert_eq!(sched.schedule_keyed(before, 1), Err(SchedulingError::DeadlineInPast));
    assert_eq!(sched.schedule(t0(), 1), Ok(()));
    assert_eq!(sched.queue.len(), 1);
}

#[test]
fn zero_period_fails() {
    let mut sched: Scheduler<u32> = Scheduler::new(t0());
    assert_eq!(sched.schedule_periodic(at(t0(), 1), Duration::zero(), 1), Err(SchedulingError::InvalidPeriod));
    assert_eq!(
        sched.schedule_keyed_periodic(at(t0(), 1), Duration::zero(), 1),
        Err(SchedulingError::InvalidPeriod)
    );
    let before = MonotonicTime::new(0, 0).unwrap();
    assert_eq!(sched.schedule_periodic(before, Duration::zero(), 1), Err(SchedulingError::DeadlineInPast));
    assert_eq!(sched.queue.len(), 0);
}

#[test]
fn empty_queue_has_no_event() {
    let mut sim: Simulation<u32> = Simulation::new(t0());
    assert!(matches!(sim.step(), Err(ExecutionError::NoEventScheduled)));
    assert_eq!(sim.scheduler.peek_deadline(), None);
}

#[test]
fn peek_skips_cancelled_entries() {
    let mut sched: Scheduler<u32> = Scheduler::new(t0());
    let k = sched.schedule_keyed(at(t0(), 1), 1).unwrap();
    sched.schedule(at(t0(), 2), 2).unwrap();
    sched.cancel(k);
    assert_eq!(sched.peek_deadline(), Some(at(t0(), 2)));
    assert_eq!(sched.queue.len(), 1);
}

#[test]
fn step_until_runs_epochs_then_sets_the_target() {
    let mut sim: Simulation<u32> = Simulation::new(t0());
    sim.scheduler.schedule(at(t0(), 10), 1).unwrap();
    sim.scheduler.schedule(at(t0(), 30), 2).unwrap();
    let target = at(t0(), 20);
    assert!(sim.check_target(target).is_ok());
    assert_eq!(sim.step_until_next(target).unwrap(), Some(vec![1]));
    assert_eq!(sim.time(), at(t0(), 10));
    assert_eq!(sim.step_until_next(target).unwrap(), None);
    assert_eq!(sim.time(), target);
    assert!(matches!(sim.check_target(target), Err(ExecutionError::DeadlineInPast)));
}

#[test]
fn fatal_errors_stick() {
    let mut sim: Simulation<u32> = Simulation::new(t0());
    sim.scheduler.schedule(at(t0(), 1), 1).unwrap();
    assert!(sim.report(Err(ExecutionError::Halted)).is_err());
    assert!(sim.failure.is_none());
    let panic = ExecutionError::Panic { model: "m".to_string(), payload: "boom".to_string() };
    assert!(sim.report(Err(panic)).is_err());
    match sim.step() {
        Err(ExecutionError::Panic { model, payload }) => {
            assert_eq!(model, "m");
            assert_eq!(payload, "boom");
        }
        other => panic!("unexpected {:?}", other),
    }
    assert!(matches!(sim.check_process(), Err(ExecutionError::Panic { .. })));
}

#[test]
fn time_addition_reports_overflow() {
    let last = MonotonicTime::new(i64::MAX, 999_999_999).unwrap();
    assert_eq!(last.checked_add(Duration::from_nanos(1)), None);
    assert_eq!(last.checked_add(Duration::zero()), Some(last));
    let t = MonotonicTime::new(-1, 999_999_999).unwrap();
    assert_eq!(t.checked_add(Duration::from_nanos(1)), MonotonicTime::new(0, 0));
    assert_eq!(MonotonicTime::new(0, 1_000_000_000), None);
}

#[test]
fn durations_are_exact() {
    let d = Duration::new(1, 2_500_000_000);
    assert_eq!((d.as_secs(), d.subsec_nanos()), (3, 500_000_000));
    let m = Duration::from_millis(1_234);
    assert_eq!((m.as_secs(), m.subsec_nanos()), (1, 234_000_000));
    let n = Duration::from_nanos(7_000_000_001);
    assert_eq!((n.as_secs(), n.subsec_nanos()), (7, 1));
    assert!(Duration::zero().is_zero());
    assert!(!Duration::from_nanos(1).is_zero());
    let a = MonotonicTime::new(5, 100).unwrap();
    let b = MonotonicTime::new(3, 200).unwrap();
    let s = a.duration_since(&b);
    assert_eq!((s.as_secs(), s.subsec_nanos()), (1, 999_999_900));
    assert!(b.lt(&a) && b.le(&a) && !a.le(&b) && a.same(&a));
}

#[test]
fn ticker_schedules_itself_every_tick() {
    let mut sched: Scheduler<u32> = Scheduler::new(t0());
    let ticker = nexosim::ticker::Ticker::new(Duration::from_millis(100));
    ticker.init(&mut sched, 9);
    let mut sim = Simulation { scheduler: sched, failure: None };
    for k in 1..=3u64 {
        let (t, actions) = step(&mut sim).unwrap();
        assert_eq!(t, at(t0(), 100_000_000 * k));
        assert_eq!(actions, vec![9]);
    }
}

#[test]
fn clock_waits_for_the_wall_clock() {
    let mut fast = Clock::as_fast();
    assert_eq!(fast.synchronize(MonotonicTime::new(5, 0).unwrap(), 0), 0);
    let mut system = Clock::auto_system();
    assert_eq!(system.synchronize(MonotonicTime::new(0, 500).unwrap(), 1_000), 500);
    assert_eq!(system, Clock::AutoSystem { start: Some(1_000) });
    assert_eq!(system.synchronize(MonotonicTime::new(2, 0).unwrap(), 1_000_000_000), 1_000_001_000);
    assert_eq!(system.synchronize(MonotonicTime::new(1, 0).unwrap(), 5_000_000_000), 0);
}
