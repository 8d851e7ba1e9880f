use nexosim::key_registry::{KeyRegistry, KeyRegistryId};
use nexosim::registry::EventSourceRegistry;
use nexosim::scheduler::ActionKey;
use nexosim::server::{
    map_execution_error, monotonic_to_timestamp, socket_path_action, PathAction, PathState, timestamp_to_monotonic, to_positive_duration,
    to_strictly_positive_duration, Deadline, ErrorCode, EventKey, ScheduleEventRequest, SimulationService, Timestamp,
    WireDuration,
};
use nexosim::simulation::{ExecutionError, Simulation};
use nexosim::time::{Duration, MonotonicTime};

fn t0() -> MonotonicTime {
    MonotonicTime::new(10, 0).unwrap()
}

fn started() -> SimulationService<u32> {
    SimulationService::start(Simulation::new(t0()))
}

fn request(with_key: bool, period: Option<WireDuration>, deadline: Option<Deadline>) -> ScheduleEventRequest {
    ScheduleEventRequest { source_name: "input".to_string(), event: vec![1, 2], with_key, period, deadline }
}

fn secs(seconds: i64, nanos: i32) -> WireDuration {
    WireDuration { seconds, nanos }
}

fn code<T>(r: Result<T, nexosim::server::Error>) -> ErrorCode {
    match r {
        Ok(_) => panic!("expected an error"),
        Err(e) => e.code,
    }
}

/// Runs the service until `target`, collecting the actions run.
fn run_until(service: &mut SimulationService<u32>, target: Deadline) -> Vec<u32> {
    let target = service.begin_step_until(Some(target)).unwrap();
    let mut ran = Vec::new();
    while let Some(actions) = service.step_until_round(target).unwrap() {
        ran.extend(actions);
    }
    service.finish_run(Ok(())).unwrap();
    ran
}

#[test]
fn cancelled_remote_event_is_not_observed() {
    let mut service = started();
    let key = service
        .schedule_event(&request(true, None, Some(Deadline::Duration(secs(1, 0)))), Some(Ok(7)))
        .unwrap()
        .unwrap();
    assert!(run_until(&mut service, Deadline::Duration(secs(0, 500_000_000))).is_empty());
    service.cancel_event(Some(key)).unwrap();
    assert!(run_until(&mut service, Deadline::Duration(secs(1, 500_000_000))).is_empty());
    let t = service.time().unwrap();
    assert_eq!((t.seconds, t.nanos), (12, 0));
    assert_eq!(code(service.cancel_event(Some(key))), ErrorCode::InvalidKey);
}

#[test]
fn remote_event_runs_at_its_deadline() {
    let mut service = started();
    let reply = service
        .schedule_event(&request(false, None, Some(Deadline::Time(Timestamp { seconds: 11, nanos: 5 }))), Some(Ok(3)))
        .unwrap();
    assert_eq!(reply, None);
    assert_eq!(service.begin_step().unwrap(), vec![3]);
    let t = service.finish_run(Ok(())).unwrap();
    assert_eq!(t, Timestamp { seconds: 11, nanos: 5 });
    assert_eq!(code(service.begin_step()), ErrorCode::SimulationTerminated);
}

#[test]
fn periodic_remote_event_repeats() {
    let mut service = started();
    let key = service
        .schedule_event(&request(true, Some(secs(0, 10)), Some(Deadline::Duration(secs(0, 10)))), Some(Ok(5)))
        .unwrap();
    assert!(key.is_some());
    assert_eq!(run_until(&mut service, Deadline::Duration(secs(0, 35))), vec![5, 5, 5]);
}

#[test]
fn scheduling_errors_have_their_codes() {
    let mut not_started: SimulationService<u32> = SimulationService::new();
    assert_eq!(
        code(not_started.schedule_event(&request(false, None, None), Some(Ok(1)))),
        ErrorCode::SimulationNotStarted
    );
    assert_eq!(code(not_started.time()), ErrorCode::SimulationNotStarted);
    assert_eq!(code(not_started.cancel_event(None)), ErrorCode::SimulationNotStarted);
    assert_eq!(code(not_started.halt()), ErrorCode::SimulationNotStarted);

    let mut s = started();
    let ok_deadline = Some(Deadline::Duration(secs(1, 0)));
    assert_eq!(code(s.schedule_event(&request(false, Some(secs(0, 0)), ok_deadline), Some(Ok(1)))), ErrorCode::InvalidPeriod);
    assert_eq!(code(s.schedule_event(&request(false, Some(secs(-1, 0)), None), None)), ErrorCode::InvalidPeriod);
    assert_eq!(code(s.schedule_event(&request(false, None, ok_deadline), None)), ErrorCode::SourceNotFound);
    let bad = s.schedule_event(&request(false, None, ok_deadline), Some(Err("bad payload".to_string())));
    match bad {
        Err(e) => {
            assert_eq!(e.code, ErrorCode::InvalidMessage);
            assert_eq!(e.message, "bad payload");
        }
        Ok(_) => panic!("expected an error"),
    }
    assert_eq!(code(s.schedule_event(&request(false, None, None), Some(Ok(1)))), ErrorCode::MissingArgument);
    let bad_time = Some(Deadline::Time(Timestamp { seconds: 20, nanos: 1_000_000_000 }));
    assert_eq!(code(s.schedule_event(&request(false, None, bad_time), Some(Ok(1)))), ErrorCode::InvalidTime);
    let zero = Some(Deadline::Duration(secs(0, 0)));
    assert_eq!(code(s.schedule_event(&request(false, None, zero), Some(Ok(1)))), ErrorCode::InvalidDeadline);
    let past = Some(Deadline::Time(Timestamp { seconds: 9, nanos: 0 }));
    assert_eq!(code(s.schedule_event(&request(true, None, past), Some(Ok(1)))), ErrorCode::InvalidDeadline);
    let far = Some(Deadline::Duration(secs(i64::MAX, 0)));
    assert_eq!(code(s.schedule_event(&request(false, None, far), Some(Ok(1)))), ErrorCode::InvalidDeadline);
    assert_eq!(code(s.begin_step()), ErrorCode::SimulationTerminated);
}

#[test]
fn cancel_errors_have_their_codes() {
    let mut s = started();
    assert_eq!(code(s.cancel_event(None)), ErrorCode::MissingArgument);
    assert_eq!(code(s.cancel_event(Some(EventKey { subkey1: 0, subkey2: 0 }))), ErrorCode::InvalidKey);
    let key = s.schedule_event(&request(true, None, Some(Deadline::Duration(secs(1, 0)))), Some(Ok(1))).unwrap().unwrap();
    let stale = EventKey { subkey1: key.subkey1, subkey2: key.subkey2 + 1 };
    assert_eq!(code(s.cancel_event(Some(stale))), ErrorCode::InvalidKey);
    assert!(s.cancel_event(Some(key)).is_ok());
}

#[test]
fn step_until_errors_have_their_codes() {
    let s = started();
    assert_eq!(code(s.begin_step_until(None)), ErrorCode::MissingArgument);
    assert_eq!(
        code(s.begin_step_until(Some(Deadline::Time(Timestamp { seconds: 11, nanos: -1 })))),
        ErrorCode::InvalidTime
    );
    assert_eq!(code(s.begin_step_until(Some(Deadline::Duration(secs(-1, 0))))), ErrorCode::InvalidDeadline);
    assert_eq!(code(s.begin_step_until(Some(Deadline::Duration(secs(0, 0))))), ErrorCode::InvalidDeadline);
    assert_eq!(
        code(s.begin_step_until(Some(Deadline::Time(Timestamp { seconds: 10, nanos: 0 })))),
        ErrorCode::InvalidDeadline
    );
    let target = s.begin_step_until(Some(Deadline::Duration(secs(2, 3)))).unwrap();
    assert_eq!((target.as_secs(), target.subsec_nanos()), (12, 3));
    let not_started: SimulationService<u32> = SimulationService::new();
    assert_eq!(code(not_started.begin_step_until(None)), ErrorCode::SimulationNotStarted);
}

#[test]
fn halted_service_reports_halt() {
    let mut s = started();
    s.schedule_event(&request(false, None, Some(Deadline::Duration(secs(1, 0)))), Some(Ok(1))).unwrap();
    s.halt().unwrap();
    s.halt().unwrap();
    assert_eq!(code(s.begin_step()), ErrorCode::SimulationHalted);
}

#[test]
fn process_and_query_outcomes() {
    let mut s = started();
    assert_eq!(code(s.begin_process(None)), ErrorCode::SourceNotFound);
    assert_eq!(code(s.begin_process(Some(Err("x".to_string())))), ErrorCode::InvalidMessage);
    assert_eq!(s.begin_process(Some(Ok(4))).unwrap(), 4);
    assert_eq!(code(s.finish_query(Ok(()), None)), ErrorCode::SimulationBadQuery);
    assert_eq!(code(s.finish_query(Ok(()), Some(Err("enc".to_string())))), ErrorCode::InvalidMessage);
    assert_eq!(s.finish_query(Ok(()), Some(Ok(vec![vec![1u8], vec![2u8]]))).unwrap(), vec![vec![1u8], vec![2u8]]);
    assert_eq!(code(s.finish_run(Err(ExecutionError::Timeout))), ErrorCode::SimulationTimeout);
    assert_eq!(code(s.begin_process(Some(Ok(4)))), ErrorCode::SimulationTimeout);
    assert_eq!(code(s.begin_step()), ErrorCode::SimulationTimeout);
}

#[test]
fn execution_errors_map_to_codes() {
    let cases = vec![
        (ExecutionError::Halted, ErrorCode::SimulationHalted),
        (ExecutionError::Terminated, ErrorCode::SimulationTerminated),
        (ExecutionError::NoEventScheduled, ErrorCode::SimulationTerminated),
        (ExecutionError::DeadlineInPast, ErrorCode::InvalidDeadline),
        (ExecutionError::Deadlock(vec!["A".to_string()]), ErrorCode::SimulationDeadlock),
        (ExecutionError::ModelError { model: "m".to_string(), cause: "c".to_string() }, ErrorCode::SimulationModelError),
        (ExecutionError::Panic { model: "m".to_string(), payload: "p".to_string() }, ErrorCode::SimulationPanic),
        (ExecutionError::Timeout, ErrorCode::SimulationTimeout),
    ];
    for (e, c) in cases {
        assert_eq!(map_execution_error(&e).code, c);
    }
}

#[test]
fn wire_conversions() {
    let t = timestamp_to_monotonic(Timestamp { seconds: -3, nanos: 7 }).unwrap();
    assert_eq!((t.as_secs(), t.subsec_nanos()), (-3, 7));
    assert_eq!(monotonic_to_timestamp(t), Timestamp { seconds: -3, nanos: 7 });
    assert_eq!(timestamp_to_monotonic(Timestamp { seconds: 0, nanos: -1 }), None);
    assert_eq!(timestamp_to_monotonic(Timestamp { seconds: 0, nanos: 1_000_000_000 }), None);
    assert_eq!(to_positive_duration(secs(0, 0)), Some(Duration::zero()));
    assert_eq!(to_positive_duration(secs(-1, 5)), None);
    assert_eq!(to_strictly_positive_duration(secs(0, 0)), None);
    let d = to_strictly_positive_duration(secs(1, 1_500_000_000)).unwrap();
    assert_eq!((d.as_secs(), d.subsec_nanos()), (2, 500_000_000));
}

#[test]
fn key_registry_names_keys_by_generation() {
    let mut keys = KeyRegistry::new();
    let a = keys.insert_key(ActionKey { id: 1 }, MonotonicTime::new(5, 0).unwrap());
    let b = keys.insert_eternal_key(ActionKey { id: 2 });
    assert_eq!(keys.extract_key(a), Some(ActionKey { id: 1 }));
    assert_eq!(keys.extract_key(a), None);
    let c = keys.insert_key(ActionKey { id: 3 }, MonotonicTime::new(1, 0).unwrap());
    assert_eq!(c.index, a.index);
    assert_ne!(c.generation, a.generation);
    assert_eq!(keys.extract_key(a), None);
    keys.remove_expired_keys(MonotonicTime::new(2, 0).unwrap());
    assert_eq!(keys.extract_key(c), None);
    keys.remove_expired_keys(MonotonicTime::new(100, 0).unwrap());
    assert_eq!(keys.extract_key(b), Some(ActionKey { id: 2 }));
    let id = KeyRegistryId::from_raw_parts(4, 9);
    assert_eq!(id.into_raw_parts(), (4, 9));
}

#[test]
fn source_registry_refuses_duplicate_names() {
    let mut reg: EventSourceRegistry<u32> = EventSourceRegistry::new();
    assert_eq!(reg.add(1, "a".to_string()), Ok(()));
    assert_eq!(reg.add(2, "b".to_string()), Ok(()));
    assert_eq!(reg.add(3, "a".to_string()), Err(3));
    assert_eq!(reg.len(), 2);
    assert_eq!(reg.get(&"a".to_string()), Some(&1));
    assert_eq!(reg.get(&"b".to_string()), Some(&2));
    assert_eq!(reg.get(&"c".to_string()), None);
}

#[test]
fn deadlock_error_names_the_blocked_models() {
    let names = vec!["A".to_string(), "B".to_string()];
    let e = map_execution_error(&ExecutionError::Deadlock(names.clone()));
    assert_eq!(e.code, ErrorCode::SimulationDeadlock);
    assert_eq!(e.models, names);
    assert!(map_execution_error(&ExecutionError::Halted).models.is_empty());
    let mut s = started();
    let r = s.finish_run(Err(ExecutionError::Deadlock(names.clone())));
    assert_eq!(r.unwrap_err().models, names);
    match s.begin_step() {
        Err(e) => {
            assert_eq!(e.code, ErrorCode::SimulationDeadlock);
            assert_eq!(e.models, names);
        }
        Ok(_) => panic!("expected an error"),
    }
}

#[test]
fn cancelling_a_periodic_remote_event_stops_it() {
    let mut service = started();
    let key = service
        .schedule_event(&request(true, Some(secs(0, 10)), Some(Deadline::Duration(secs(0, 10)))), Some(Ok(8)))
        .unwrap()
        .unwrap();
    assert_eq!(run_until(&mut service, Deadline::Duration(secs(0, 25))), vec![8, 8]);
    service.cancel_event(Some(key)).unwrap();
    assert!(run_until(&mut service, Deadline::Duration(secs(0, 100))).is_empty());
    assert_eq!(code(service.cancel_event(Some(key))), ErrorCode::InvalidKey);
}

#[test]
fn socket_path_decisions() {
    assert_eq!(socket_path_action(PathState::Missing), PathAction::Bind);
    assert_eq!(socket_path_action(PathState::Socket), PathAction::RemoveThenBind);
    assert_eq!(socket_path_action(PathState::Other), PathAction::Refuse);
    assert_eq!(socket_path_action(PathState::Inaccessible), PathAction::Refuse);
}
