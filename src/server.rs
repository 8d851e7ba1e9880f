//! The decisions of the remote-procedure surface: validation of requests,
//! conversions from the wire encoding, and the error code of every failure.
//!
//! Decoding event payloads is left to the caller, which hands the outcome in:
//! `None` when no event source is registered under the requested name,
//! `Some(Err(message))` when the payload could not be decoded, and
//! `Some(Ok(action))` otherwise. Running actions is left to the caller too:
//! the `begin_*` calls hand out what to run, and `finish_run` takes how the
//! run ended.
use vstd::prelude::*;

use crate::key_registry::{free_slot, lookup, sweep, with_entry, KeyEntry, KeyRegistry, KeyRegistryId, KeySlot};
use crate::scheduler::{actions_of, add_key, cancel_key, enqueue, fresh_key, has_room, purge, ActionKey, SchedulerView, SchedulingError};
use crate::simulation::{copy_strings, epoch, is_fatal, same_error, ExecutionError, Simulation};
use crate::time::{max_time, Duration, MonotonicTime};

verus! {

/// An instant on the wire: seconds since the epoch and a nanosecond part.
#[derive(Clone, Copy, Debug, PartialEq, Eq, Structural)]
pub struct Timestamp {
    pub seconds: i64,
    pub nanos: i32,
}

/// A span on the wire: seconds and a nanosecond part, both signed.
#[derive(Clone, Copy, Debug, PartialEq, Eq, Structural)]
pub struct WireDuration {
    pub seconds: i64,
    pub nanos: i32,
}

/// A deadline on the wire: an instant, or a span from the current time.
#[derive(Clone, Copy, Debug, PartialEq, Eq, Structural)]
pub enum Deadline {
    Time(Timestamp),
    Duration(WireDuration),
}

/// The name of a registered action key on the wire.
#[derive(Clone, Copy, Debug, PartialEq, Eq, Structural)]
pub struct EventKey {
    pub subkey1: u64,
    pub subkey2: u64,
}

/// Error codes surfaced to remote clients.
#[derive(Clone, Copy, Debug, PartialEq, Eq, Structural)]
pub enum ErrorCode {
    SimulationNotStarted,
    SourceNotFound,
    SinkNotFound,
    InvalidMessage,
    InvalidTime,
    InvalidDeadline,
    InvalidPeriod,
    InvalidKey,
    MissingArgument,
    SimulationTimeOutOfRange,
    SimulationBadQuery,
    SimulationHalted,
    SimulationTerminated,
    SimulationDeadlock,
    SimulationModelError,
    SimulationPanic,
    SimulationTimeout,
}

/// An error with its code and an explanation; a deadlock also names the
/// blocked models.
#[derive(Debug)]
pub struct Error {
    pub code: ErrorCode,
    pub message: String,
    pub models: Vec<String>,
}

/// A request to schedule an event.
pub struct ScheduleEventRequest {
    pub source_name: String,
    pub event: Vec<u8>,
    pub with_key: bool,
    pub period: Option<WireDuration>,
    pub deadline: Option<Deadline>,
}

/// An error of code `code` explained by `message`.
pub fn to_error(code: ErrorCode, message: &str) -> (r: Error)
    ensures
        r.code == code,
        r.message@ == message@,
        r.models@.len() == 0,
{
    Error { code, message: message.to_owned(), models: Vec::new() }
}

/// The span is not negative.
pub open spec fn positive(d: WireDuration) -> bool {
    d.seconds >= 0 && d.nanos >= 0
}

/// The span is longer than zero.
pub open spec fn strictly_positive(d: WireDuration) -> bool {
    positive(d) && (d.seconds > 0 || d.nanos > 0)
}

/// The duration that a non-negative wire span stands for.
pub open spec fn duration_of(d: WireDuration) -> Duration {
    Duration { secs: (d.seconds + d.nanos / 1_000_000_000) as u64, nanos: (d.nanos % 1_000_000_000) as u32 }
}

/// The instant that a wire timestamp stands for, when its nanosecond part is
/// a proper fraction of a second.
pub open spec fn time_of(t: Timestamp) -> MonotonicTime {
    MonotonicTime { secs: t.seconds, nanos: t.nanos as u32 }
}

/// The wire timestamp of an instant: its nanosecond part is a proper
/// fraction of a second, which always fits.
pub fn monotonic_to_timestamp(t: MonotonicTime) -> (r: Timestamp)
    requires
        t.wf(),
    ensures
        r.seconds == t.secs,
        r.nanos == t.nanos,
{
    Timestamp { seconds: t.as_secs(), nanos: t.subsec_nanos() as i32 }
}

/// The instant of a wire timestamp, if its nanosecond part is in range.
pub fn timestamp_to_monotonic(t: Timestamp) -> (r: Option<MonotonicTime>)
    ensures
        r is Some <==> 0 <= t.nanos < 1_000_000_000,
        r matches Some(m) ==> m == time_of(t) && m.wf(),
{
    if t.nanos < 0 {
        return None;
    }
    MonotonicTime::new(t.seconds, t.nanos as u32)
}

/// The duration of a wire span, if it is not negative.
pub fn to_positive_duration(d: WireDuration) -> (r: Option<Duration>)
    ensures
        r is Some <==> positive(d),
        r matches Some(x) ==> x == duration_of(d) && x.wf(),
{
    if d.seconds < 0 || d.nanos < 0 {
        return None;
    }
    Some(Duration::new(d.seconds as u64, d.nanos as u32))
}

/// The duration of a wire span, if it is longer than zero.
pub fn to_strictly_positive_duration(d: WireDuration) -> (r: Option<Duration>)
    ensures
        r is Some <==> strictly_positive(d),
        r matches Some(x) ==> x == duration_of(d) && x.wf() && x@ > 0,
{
    if d.seconds < 0 || d.nanos < 0 || (d.seconds == 0 && d.nanos == 0) {
        return None;
    }
    Some(Duration::new(d.seconds as u64, d.nanos as u32))
}

/// The code under which an execution error is reported.
pub open spec fn execution_code(e: ExecutionError) -> ErrorCode {
    match e {
        ExecutionError::Halted => ErrorCode::SimulationHalted,
        ExecutionError::Terminated => ErrorCode::SimulationTerminated,
        ExecutionError::NoEventScheduled => ErrorCode::SimulationTerminated,
        ExecutionError::DeadlineInPast => ErrorCode::InvalidDeadline,
        ExecutionError::Deadlock(_) => ErrorCode::SimulationDeadlock,
        ExecutionError::ModelError { .. } => ErrorCode::SimulationModelError,
        ExecutionError::Panic { .. } => ErrorCode::SimulationPanic,
        ExecutionError::Timeout => ErrorCode::SimulationTimeout,
    }
}

/// The error reported for an execution error.
pub fn map_execution_error(e: &ExecutionError) -> (r: Error)
    ensures
        r.code == execution_code(*e),
        *e matches ExecutionError::Deadlock(names) ==> r.models@ == names@,
        !(*e is Deadlock) ==> r.models@.len() == 0,
{
    match e {
        ExecutionError::Halted => to_error(ErrorCode::SimulationHalted, "the simulation has been halted"),
        ExecutionError::Terminated => to_error(ErrorCode::SimulationTerminated, "the simulation has terminated"),
        ExecutionError::NoEventScheduled => to_error(ErrorCode::SimulationTerminated, "no event is scheduled"),
        ExecutionError::DeadlineInPast => to_error(ErrorCode::InvalidDeadline, "the specified deadline lies in the past"),
        ExecutionError::Deadlock(names) => Error {
            code: ErrorCode::SimulationDeadlock,
            message: "the simulation has deadlocked".to_owned(),
            models: copy_strings(names),
        },
        ExecutionError::ModelError { .. } => to_error(ErrorCode::SimulationModelError, "a model has failed"),
        ExecutionError::Panic { .. } => to_error(ErrorCode::SimulationPanic, "a model has panicked"),
        ExecutionError::Timeout => to_error(ErrorCode::SimulationTimeout, "the simulation has timed out"),
    }
}

/// The error reported for a scheduling error.
pub fn map_scheduling_error(e: SchedulingError) -> (r: Error)
    ensures
        e == SchedulingError::DeadlineInPast ==> r.code == ErrorCode::InvalidDeadline,
        e == SchedulingError::InvalidPeriod ==> r.code == ErrorCode::InvalidPeriod,
{
    match e {
        SchedulingError::DeadlineInPast => to_error(ErrorCode::InvalidDeadline, "the specified deadline lies in the past"),
        SchedulingError::InvalidPeriod => to_error(ErrorCode::InvalidPeriod, "the specified period is not strictly positive"),
    }
}

/// The deadline a request asks for, as an instant, or the code of why it is
/// not one.
pub open spec fn resolve_deadline(now: MonotonicTime, d: Option<Deadline>) -> Result<MonotonicTime, ErrorCode> {
    match d {
        None => Err(ErrorCode::MissingArgument),
        Some(Deadline::Time(t)) => if 0 <= t.nanos < 1_000_000_000 {
            Ok(time_of(t))
        } else {
            Err(ErrorCode::InvalidTime)
        },
        Some(Deadline::Duration(w)) => if !strictly_positive(w) {
            Err(ErrorCode::InvalidDeadline)
        } else if now@ + duration_of(w)@ > max_time() {
            Err(ErrorCode::InvalidDeadline)
        } else {
            Ok(now.add_spec(duration_of(w)))
        },
    }
}

/// The code of the first failure of a scheduling request, in the order in
/// which they are checked, or `None` when the request succeeds.
pub open spec fn schedule_failure<A>(
    now: MonotonicTime,
    period: Option<WireDuration>,
    decoded: Option<Result<A, String>>,
    deadline: Option<Deadline>,
) -> Option<ErrorCode> {
    if period matches Some(p) && !strictly_positive(p) {
        Some(ErrorCode::InvalidPeriod)
    } else if decoded is None {
        Some(ErrorCode::SourceNotFound)
    } else if decoded matches Some(Err(_)) {
        Some(ErrorCode::InvalidMessage)
    } else {
        match resolve_deadline(now, deadline) {
            Err(c) => Some(c),
            Ok(t) => if t@ < now@ {
                Some(ErrorCode::InvalidDeadline)
            } else {
                None
            },
        }
    }
}

/// The scheduler after a successful scheduling request for `action` at `t`.
pub open spec fn scheduled<A>(
    v: SchedulerView<A>,
    t: MonotonicTime,
    with_key: bool,
    period: Option<WireDuration>,
    action: A,
) -> SchedulerView<A> {
    let p = match period {
        Some(w) => Some(duration_of(w)),
        None => None,
    };
    if with_key {
        enqueue(add_key(v), t, Some(fresh_key(v)), p, action)
    } else {
        enqueue(v, t, None, p, action)
    }
}

/// The deadline that a request resolves to, as an exec value.
fn deadline_from(now: MonotonicTime, d: Option<Deadline>) -> (r: Result<MonotonicTime, Error>)
    requires
        now.wf(),
    ensures
        r matches Ok(t) ==> resolve_deadline(now, d) == Ok::<_, ErrorCode>(t) && t.wf(),
        r matches Err(e) ==> resolve_deadline(now, d) == Err::<MonotonicTime, _>(e.code),
{
    match d {
        None => Err(to_error(ErrorCode::MissingArgument, "missing deadline argument")),
        Some(Deadline::Time(t)) => match timestamp_to_monotonic(t) {
            Some(m) => Ok(m),
            None => Err(to_error(ErrorCode::InvalidTime, "out-of-range nanosecond field")),
        },
        Some(Deadline::Duration(w)) => match to_strictly_positive_duration(w) {
            None => Err(
                to_error(ErrorCode::InvalidDeadline, "the specified scheduling deadline is not in the future"),
            ),
            Some(x) => match now.checked_add(x) {
                Some(t) => Ok(t),
                None => Err(to_error(ErrorCode::InvalidDeadline, "the specified deadline is out of range")),
            },
        },
    }
}

/// The simulation as seen by remote clients: not started yet, or started with
/// its registry of action keys.
pub enum SimulationService<A> {
    NotStarted,
    Started { simulation: Simulation<A>, keys: KeyRegistry },
}

impl<A: Copy> SimulationService<A> {
    /// Well-formedness of a started simulation.
    pub open spec fn wf(&self) -> bool {
        match self {
            SimulationService::NotStarted => true,
            SimulationService::Started { simulation, keys } => simulation.wf() && keys.wf(),
        }
    }

    /// Room is left for one more scheduling request.
    pub open spec fn has_room(&self) -> bool {
        match self {
            SimulationService::NotStarted => true,
            SimulationService::Started { simulation, keys } => has_room(simulation.scheduler@)
                && keys.slots@.len() < usize::MAX,
        }
    }

    /// A service with no simulation.
    pub fn new() -> (r: SimulationService<A>)
        ensures
            r is NotStarted,
    {
        SimulationService::NotStarted
    }

    /// A service running `simulation`, with no key registered.
    pub fn start(simulation: Simulation<A>) -> (r: SimulationService<A>)
        requires
            simulation.wf(),
        ensures
            r.wf(),
            has_room(simulation.scheduler@) ==> r.has_room(),
            r matches SimulationService::Started { simulation: s, keys } ==> s == simulation && keys.slots@.len()
                == 0,
            r is Started,
    {
        SimulationService::Started { simulation, keys: KeyRegistry::new() }
    }

    /// Whether room is left for one more scheduling request.
    pub fn room_left(&self) -> (r: bool)
        ensures
            r == self.has_room(),
    {
        match self {
            SimulationService::NotStarted => true,
            SimulationService::Started { simulation, keys } => simulation.scheduler.has_room() && keys.slots.len()
                < usize::MAX,
        }
    }

    /// The current simulation time.
    pub fn time(&self) -> (r: Result<Timestamp, Error>)
        requires
            self.wf(),
        ensures
            self is NotStarted ==> (r matches Err(e) && e.code == ErrorCode::SimulationNotStarted),
            self matches SimulationService::Started { simulation, .. } ==> (r matches Ok(t) && t.seconds
                == simulation.scheduler@.time.secs && t.nanos == simulation.scheduler@.time.nanos),
    {
        match self {
            SimulationService::Started { simulation, .. } => Ok(monotonic_to_timestamp(simulation.time())),
            SimulationService::NotStarted => Err(simulation_not_started_error()),
        }
    }

    /// Asks the simulation to halt at the next epoch boundary.
    pub fn halt(&mut self) -> (r: Result<(), Error>)
        requires
            old(self).wf(),
        ensures
            final(self).wf(),
            *old(self) is NotStarted ==> (r matches Err(e) && e.code == ErrorCode::SimulationNotStarted),
            *old(self) is Started ==> r is Ok,
            *old(self) matches SimulationService::Started { simulation: s0, keys: k0 } ==> (*final(self) matches SimulationService::Started { simulation: s1, keys: k1 } && s1.scheduler@ == (SchedulerView { halted: true, ..s0.scheduler@ }) && s1.failure == s0.failure && k1 == k0),
    {
        match self {
            SimulationService::Started { simulation, .. } => {
                simulation.scheduler.halt();
                Ok(())
            },
            SimulationService::NotStarted => Err(simulation_not_started_error()),
        }
    }

    /// Schedules the event of a request; `decoded` is the outcome of looking
    /// up its source and decoding its payload. A keyed request returns the
    /// name under which its key is registered.
    pub fn schedule_event(&mut self, request: &ScheduleEventRequest, decoded: Option<Result<A, String>>) -> (r:
        Result<Option<EventKey>, Error>)
        requires
            old(self).wf(),
            old(self).has_room(),
        ensures
            final(self).wf(),
            *old(self) is NotStarted ==> *final(self) is NotStarted && (r matches Err(e) && e.code
                == ErrorCode::SimulationNotStarted),
            *old(self) matches SimulationService::Started { simulation: s0, keys: k0 } ==> ({
                let now = s0.scheduler@.time;
                let failure = schedule_failure(now, request.period, decoded, request.deadline);
                &&& *final(self) is Started
                &&& (r is Ok <==> failure is None)
                &&& r matches Err(e) ==> Some(e.code) == failure && (*final(self) matches SimulationService::Started { simulation: s1, keys: k1 } && s1.scheduler@ == s0.scheduler@ && s1.failure == s0.failure && k1.slots@ == k0.slots@)
                &&& r is Ok ==> (*final(self) matches SimulationService::Started { simulation: s1, keys: k1 } && ({
                    let t = resolve_deadline(now, request.deadline)->Ok_0;
                    let action = decoded->Some_0->Ok_0;
                    &&& s1.scheduler@ == scheduled(s0.scheduler@, t, request.with_key, request.period, action)
                    &&& s1.failure == s0.failure
                    &&& (request.with_key ==> ({
                        let swept = sweep(k0.slots@, now);
                        let slot = free_slot(swept);
                        let expiration = if request.period is None {
                            Some(t)
                        } else {
                            None::<MonotonicTime>
                        };
                        &&& k1.slots@ == with_entry(swept, KeyEntry { key: fresh_key(s0.scheduler@), expiration })
                        &&& r matches Ok(Some(k)) && k.subkey1 == slot && k.subkey2 == k1.slots@[slot].generation
                            && lookup(k1.slots@, KeyRegistryId { index: k.subkey1 as usize, generation: k.subkey2 })
                            == Some(fresh_key(s0.scheduler@))
                    }))
                    &&& (!request.with_key ==> r == Ok::<_, Error>(None::<EventKey>) && k1 == k0)
                }))
            }),
    {
        match self {
            SimulationService::Started { simulation, keys } => {
                let period = match request.period {
                    Some(p) => match to_strictly_positive_duration(p) {
                        Some(x) => Some(x),
                        None => {
                            return Err(
                                to_error(ErrorCode::InvalidPeriod, "the specified event period is not strictly positive"),
                            );
                        },
                    },
                    None => None,
                };
                let action = match decoded {
                    None => {
                        return Err(to_error(ErrorCode::SourceNotFound, "no event source is registered with this name"));
                    },
                    Some(Err(message)) => {
                        return Err(Error { code: ErrorCode::InvalidMessage, message, models: Vec::new() });
                    },
                    Some(Ok(a)) => a,
                };
                let now = simulation.time();
                let deadline = deadline_from(now, request.deadline)?;
                let scheduled: Result<Option<ActionKey>, SchedulingError> = match (request.with_key, period) {
                    (false, None) => match simulation.scheduler.schedule(deadline, action) {
                        Ok(()) => Ok(None),
                        Err(e) => Err(e),
                    },
                    (false, Some(p)) => match simulation.scheduler.schedule_periodic(deadline, p, action) {
                        Ok(()) => Ok(None),
                        Err(e) => Err(e),
                    },
                    (true, None) => match simulation.scheduler.schedule_keyed(deadline, action) {
                        Ok(k) => Ok(Some(k)),
                        Err(e) => Err(e),
                    },
                    (true, Some(p)) => match simulation.scheduler.schedule_keyed_periodic(deadline, p, action) {
                        Ok(k) => Ok(Some(k)),
                        Err(e) => Err(e),
                    },
                };
                match scheduled {
                    Err(e) => Err(map_scheduling_error(e)),
                    Ok(None) => Ok(None),
                    Ok(Some(k)) => {
                        keys.remove_expired_keys(now);
                        let id = if period.is_some() {
                            keys.insert_eternal_key(k)
                        } else {
                            keys.insert_key(k, deadline)
                        };
                        let (subkey1, subkey2) = id.into_raw_parts();
                        Ok(Some(EventKey { subkey1: subkey1 as u64, subkey2 }))
                    },
                }
            },
            SimulationService::NotStarted => Err(simulation_not_started_error()),
        }
    }

    /// Cancels the keyed event named `key`.
    pub fn cancel_event(&mut self, key: Option<EventKey>) -> (r: Result<(), Error>)
        requires
            old(self).wf(),
        ensures
            final(self).wf(),
            *old(self) is NotStarted ==> *final(self) is NotStarted && (r matches Err(e) && e.code
                == ErrorCode::SimulationNotStarted),
            *old(self) matches SimulationService::Started { simulation: s0, keys: k0 } ==> ({
                &&& *final(self) matches SimulationService::Started { simulation: s1, keys: k1 }
                &&& key is None ==> (r matches Err(e) && e.code == ErrorCode::MissingArgument && s1 == s0
                    && k1.slots@ == k0.slots@)
                &&& key matches Some(k) ==> (k.subkey1 > usize::MAX ==> (r matches Err(e) && e.code
                    == ErrorCode::InvalidKey && s1 == s0 && k1.slots@ == k0.slots@))
                &&& key matches Some(k) ==> (k.subkey1 <= usize::MAX ==> ({
                    let id = KeyRegistryId { index: k.subkey1 as usize, generation: k.subkey2 };
                    let found = lookup(sweep(k0.slots@, s0.scheduler@.time), id);
                    &&& r is Ok <==> found is Some
                    &&& r matches Err(e) ==> e.code == ErrorCode::InvalidKey
                    &&& r is Ok ==> s1.scheduler@ == cancel_key(s0.scheduler@, found->Some_0) && s1.failure
                        == s0.failure && k1.slots@ == sweep(k0.slots@, s0.scheduler@.time).update(
                        id.index as int,
                        KeySlot { generation: id.generation, entry: None },
                    )
                    &&& r is Err ==> k1.slots@ == sweep(k0.slots@, s0.scheduler@.time)
                }))
                &&& r is Err ==> s1 == s0
            }),
    {
        match self {
            SimulationService::Started { simulation, keys } => {
                let key = match key {
                    Some(k) => k,
                    None => {
                        return Err(to_error(ErrorCode::MissingArgument, "missing key argument"));
                    },
                };
                if key.subkey1 > usize::MAX as u64 {
                    return Err(to_error(ErrorCode::InvalidKey, "invalid event key"));
                }
                let id = KeyRegistryId::from_raw_parts(key.subkey1 as usize, key.subkey2);
                keys.remove_expired_keys(simulation.time());
                match keys.extract_key(id) {
                    Some(k) => {
                        simulation.scheduler.cancel(k);
                        Ok(())
                    },
                    None => Err(to_error(ErrorCode::InvalidKey, "invalid or expired event key")),
                }
            },
            SimulationService::NotStarted => Err(simulation_not_started_error()),
        }
    }
}

/// The instant a request to run until a deadline aims at, or the code of why
/// it has none.
pub open spec fn resolve_target(now: MonotonicTime, d: Option<Deadline>) -> Result<MonotonicTime, ErrorCode> {
    match d {
        None => Err(ErrorCode::MissingArgument),
        Some(Deadline::Time(t)) => if 0 <= t.nanos < 1_000_000_000 {
            Ok(time_of(t))
        } else {
            Err(ErrorCode::InvalidTime)
        },
        Some(Deadline::Duration(w)) => if !positive(w) {
            Err(ErrorCode::InvalidDeadline)
        } else if now@ + duration_of(w)@ > max_time() {
            Err(ErrorCode::InvalidDeadline)
        } else {
            Ok(now.add_spec(duration_of(w)))
        },
    }
}

impl<A: Copy> SimulationService<A> {
    /// Starts a step: the actions of the next epoch, to be run by the caller.
    pub fn begin_step(&mut self) -> (r: Result<Vec<A>, Error>)
        requires
            old(self).wf(),
            old(self).has_room(),
        ensures
            final(self).wf(),
            *old(self) is NotStarted ==> *final(self) is NotStarted && (r matches Err(e) && e.code
                == ErrorCode::SimulationNotStarted),
            *old(self) matches SimulationService::Started { simulation: s0, keys: k0 } ==> ({
                &&& *final(self) matches SimulationService::Started { simulation: s1, keys: k1 }
                &&& k1 == k0
                &&& s1.failure == s0.failure
                &&& s0.failure matches Some(f) ==> (r matches Err(e) && e.code == execution_code(f))
                    && s1.scheduler@ == s0.scheduler@
                &&& s0.failure is None && s0.scheduler@.halted ==> (r matches Err(e) && e.code
                    == ErrorCode::SimulationHalted) && s1.scheduler@ == s0.scheduler@
                &&& s0.failure is None && !s0.scheduler@.halted ==> ({
                    let p = purge(s0.scheduler@);
                    if p.queue.len() == 0 {
                        (r matches Err(e) && e.code == ErrorCode::SimulationTerminated) && s1.scheduler@ == p
                    } else {
                        r matches Ok(v) && s1.scheduler@ == epoch(p).0 && v@ == actions_of(epoch(p).1)
                    }
                })
            }),
    {
        match self {
            SimulationService::Started { simulation, .. } => match simulation.step() {
                Ok(actions) => Ok(actions),
                Err(e) => Err(map_execution_error(&e)),
            },
            SimulationService::NotStarted => Err(simulation_not_started_error()),
        }
    }

    /// Ends a run of the executor: a failure is recorded if it is fatal and
    /// reported under its code; otherwise the current time is returned.
    pub fn finish_run(&mut self, outcome: Result<(), ExecutionError>) -> (r: Result<Timestamp, Error>)
        requires
            old(self).wf(),
        ensures
            final(self).wf(),
            *old(self) is NotStarted ==> *final(self) is NotStarted && (r matches Err(e) && e.code
                == ErrorCode::SimulationNotStarted),
            *old(self) matches SimulationService::Started { simulation: s0, keys: k0 } ==> ({
                &&& *final(self) matches SimulationService::Started { simulation: s1, keys: k1 }
                &&& k1 == k0
                &&& s1.scheduler == s0.scheduler
                &&& outcome matches Err(f) ==> (r matches Err(e) && e.code == execution_code(f)) && (is_fatal(f)
                    ==> (s1.failure matches Some(x) && same_error(x, f))) && (!is_fatal(f) ==> s1.failure == s0.failure)
                &&& outcome is Ok ==> s1.failure == s0.failure && (r matches Ok(t) && t.seconds
                    == s0.scheduler@.time.secs && t.nanos == s0.scheduler@.time.nanos)
            }),
    {
        match self {
            SimulationService::Started { simulation, .. } => match simulation.report(outcome) {
                Ok(()) => Ok(monotonic_to_timestamp(simulation.time())),
                Err(e) => Err(map_execution_error(&e)),
            },
            SimulationService::NotStarted => Err(simulation_not_started_error()),
        }
    }

    /// Starts running until a deadline: the instant aimed at, checked to lie
    /// in the future.
    pub fn begin_step_until(&self, deadline: Option<Deadline>) -> (r: Result<MonotonicTime, Error>)
        requires
            self.wf(),
        ensures
            *self is NotStarted ==> (r matches Err(e) && e.code == ErrorCode::SimulationNotStarted),
            *self matches SimulationService::Started { simulation: s, .. } ==> ({
                let now = s.scheduler@.time;
                match resolve_target(now, deadline) {
                    Err(c) => r matches Err(e) && e.code == c,
                    Ok(t) => match s.failure {
                        Some(f) => r matches Err(e) && e.code == execution_code(f),
                        None => if t@ <= now@ {
                            r matches Err(e) && e.code == ErrorCode::InvalidDeadline
                        } else {
                            r == Ok::<_, Error>(t) && t.wf()
                        },
                    },
                }
            }),
    {
        match self {
            SimulationService::Started { simulation, .. } => {
                let now = simulation.time();
                let target = match deadline {
                    None => {
                        return Err(to_error(ErrorCode::MissingArgument, "missing deadline argument"));
                    },
                    Some(Deadline::Time(t)) => match timestamp_to_monotonic(t) {
                        Some(m) => m,
                        None => {
                            return Err(to_error(ErrorCode::InvalidTime, "out-of-range nanosecond field"));
                        },
                    },
                    Some(Deadline::Duration(w)) => match to_positive_duration(w) {
                        None => {
                            return Err(to_error(ErrorCode::InvalidDeadline, "the specified deadline lies in the past"));
                        },
                        Some(x) => match now.checked_add(x) {
                            Some(t) => t,
                            None => {
                                return Err(to_error(ErrorCode::InvalidDeadline, "the specified deadline is out of range"));
                            },
                        },
                    },
                };
                match simulation.check_target(target) {
                    Ok(()) => Ok(target),
                    Err(e) => Err(map_execution_error(&e)),
                }
            },
            SimulationService::NotStarted => Err(simulation_not_started_error()),
        }
    }

    /// One round of running until `target`, as `Simulation::step_until_next`
    /// does it, with errors under their codes.
    pub fn step_until_round(&mut self, target: MonotonicTime) -> (r: Result<Option<Vec<A>>, Error>)
        requires
            old(self).wf(),
            old(self).has_room(),
            target.wf(),
            *old(self) matches SimulationService::Started { simulation, .. } ==> simulation.scheduler@.time@
                <= target@,
        ensures
            final(self).wf(),
            *old(self) is NotStarted ==> *final(self) is NotStarted && (r matches Err(e) && e.code
                == ErrorCode::SimulationNotStarted),
            *old(self) matches SimulationService::Started { simulation: s0, keys: k0 } ==> ({
                &&& *final(self) matches SimulationService::Started { simulation: s1, keys: k1 }
                &&& k1 == k0
                &&& s1.failure == s0.failure
                &&& s0.failure matches Some(f) ==> (r matches Err(e) && e.code == execution_code(f))
                    && s1.scheduler@ == s0.scheduler@
                &&& s0.failure is None && s0.scheduler@.halted ==> (r matches Err(e) && e.code
                    == ErrorCode::SimulationHalted) && s1.scheduler@ == s0.scheduler@
                &&& s0.failure is None && !s0.scheduler@.halted ==> ({
                    let p = purge(s0.scheduler@);
                    if p.queue.len() > 0 && p.queue[0].deadline@ <= target@ {
                        r matches Ok(Some(v)) && s1.scheduler@ == epoch(p).0 && v@ == actions_of(epoch(p).1)
                    } else {
                        r matches Ok(None) && s1.scheduler@ == (SchedulerView { time: target, ..p })
                    }
                })
            }),
    {
        match self {
            SimulationService::Started { simulation, .. } => match simulation.step_until_next(target) {
                Ok(v) => Ok(v),
                Err(e) => Err(map_execution_error(&e)),
            },
            SimulationService::NotStarted => Err(simulation_not_started_error()),
        }
    }

    /// Starts processing an event or a query: the action to run now, given
    /// the outcome of looking up its source and decoding its payload.
    pub fn begin_process(&self, decoded: Option<Result<A, String>>) -> (r: Result<A, Error>)
        ensures
            *self is NotStarted ==> (r matches Err(e) && e.code == ErrorCode::SimulationNotStarted),
            *self matches SimulationService::Started { simulation: s, .. } ==> ({
                &&& decoded is None ==> (r matches Err(e) && e.code == ErrorCode::SourceNotFound)
                &&& decoded matches Some(Err(m)) ==> (r matches Err(e) && e.code == ErrorCode::InvalidMessage
                    && e.message == m)
                &&& decoded matches Some(Ok(a)) ==> (s.failure matches Some(f) ==> (r matches Err(e) && e.code
                    == execution_code(f))) && (s.failure is None ==> r == Ok::<A, Error>(a))
            }),
    {
        match self {
            SimulationService::Started { simulation, .. } => {
                let action = match decoded {
                    None => {
                        return Err(to_error(ErrorCode::SourceNotFound, "no source is registered with this name"));
                    },
                    Some(Err(message)) => {
                        return Err(Error { code: ErrorCode::InvalidMessage, message, models: Vec::new() });
                    },
                    Some(Ok(a)) => a,
                };
                match simulation.check_process() {
                    Ok(()) => Ok(action),
                    Err(e) => Err(map_execution_error(&e)),
                }
            },
            SimulationService::NotStarted => Err(simulation_not_started_error()),
        }
    }

    /// Ends a query: how the run ended, then the replies that were collected
    /// (`None` if none came) or why they could not be encoded.
    pub fn finish_query(
        &mut self,
        outcome: Result<(), ExecutionError>,
        replies: Option<Result<Vec<Vec<u8>>, String>>,
    ) -> (r: Result<Vec<Vec<u8>>, Error>)
        requires
            old(self).wf(),
        ensures
            final(self).wf(),
            *old(self) is NotStarted ==> *final(self) is NotStarted && (r matches Err(e) && e.code
                == ErrorCode::SimulationNotStarted),
            *old(self) matches SimulationService::Started { simulation: s0, keys: k0 } ==> ({
                &&& *final(self) matches SimulationService::Started { simulation: s1, keys: k1 }
                &&& k1 == k0
                &&& s1.scheduler == s0.scheduler
                &&& outcome matches Err(f) ==> (r matches Err(e) && e.code == execution_code(f)) && (is_fatal(f)
                    ==> (s1.failure matches Some(x) && same_error(x, f))) && (!is_fatal(f) ==> s1.failure == s0.failure)
                &&& outcome is Ok ==> s1.failure == s0.failure
                &&& outcome is Ok && replies is None ==> (r matches Err(e) && e.code == ErrorCode::SimulationBadQuery)
                &&& outcome is Ok ==> (replies matches Some(Err(m)) ==> (r matches Err(e) && e.code
                    == ErrorCode::InvalidMessage && e.message == m))
                &&& outcome is Ok ==> (replies matches Some(Ok(v)) ==> r matches Ok(w) && w == v)
            }),
    {
        match self {
            SimulationService::Started { simulation, .. } => {
                if let Err(e) = simulation.report(outcome) {
                    return Err(map_execution_error(&e));
                }
                match replies {
                    None => Err(
                        to_error(
                            ErrorCode::SimulationBadQuery,
                            "a reply to the query was expected but none was available",
                        ),
                    ),
                    Some(Err(message)) => Err(Error { code: ErrorCode::InvalidMessage, message, models: Vec::new() }),
                    Some(Ok(v)) => Ok(v),
                }
            },
            SimulationService::NotStarted => Err(simulation_not_started_error()),
        }
    }
}

/// Cancelling a keyed event before its deadline: the registry left by a keyed
/// `schedule_event` at `now` still holds the key, under the name it returned,
/// when `cancel_event` sweeps at any later time no later than the deadline
/// `t` (at any later time for a periodic event, whose key never expires);
/// once that cancellation has cleared the slot, the same name finds nothing.
pub proof fn lemma_cancel_before_deadline(
    k0: Seq<KeySlot>,
    key: ActionKey,
    now: MonotonicTime,
    t: Option<MonotonicTime>,
    later: MonotonicTime,
    again: MonotonicTime,
)
    requires
        k0.len() < usize::MAX,
        t matches Some(d) ==> later@ <= d@,
    ensures
        ({
            let swept = sweep(k0, now);
            let slot = free_slot(swept);
            let k1 = with_entry(swept, KeyEntry { key, expiration: t });
            let id = KeyRegistryId { index: slot as usize, generation: k1[slot].generation };
            let k2 = sweep(k1, later).update(slot, KeySlot { generation: id.generation, entry: None });
            &&& lookup(sweep(k1, later), id) == Some(key)
            &&& lookup(sweep(k2, again), id) is None
        }),
{
    let swept = sweep(k0, now);
    crate::key_registry::lemma_key_survives(swept, KeyEntry { key, expiration: t }, later);
    crate::key_registry::lemma_free_slot(swept);
    let slot = free_slot(swept);
    let k1 = with_entry(swept, KeyEntry { key, expiration: t });
    let k2 = sweep(k1, later).update(slot, KeySlot { generation: k1[slot].generation, entry: None });
    assert(sweep(k2, again)[slot] == crate::key_registry::swept(k2[slot], again));
}

/// What is found at the path where a local server's socket goes.
#[derive(Clone, Copy, Debug, PartialEq, Eq, Structural)]
pub enum PathState {
    /// Nothing is there.
    Missing,
    /// A socket, left by an earlier run.
    Socket,
    /// Something that is not a socket.
    Other,
    /// The path cannot be inspected.
    Inaccessible,
}

/// What to do before binding a local server's socket.
#[derive(Clone, Copy, Debug, PartialEq, Eq, Structural)]
pub enum PathAction {
    /// Bind at the path.
    Bind,
    /// Remove the stale socket, then bind.
    RemoveThenBind,
    /// Refuse: the path is taken by something else or cannot be inspected.
    Refuse,
}

/// The action for the state of the socket path: a stale socket is replaced,
/// a missing one created, and anything else refused.
pub fn socket_path_action(state: PathState) -> (r: PathAction)
    ensures
        state == PathState::Missing ==> r == PathAction::Bind,
        state == PathState::Socket ==> r == PathAction::RemoveThenBind,
        state == PathState::Other || state == PathState::Inaccessible ==> r == PathAction::Refuse,
{
    match state {
        PathState::Missing => PathAction::Bind,
        PathState::Socket => PathAction::RemoveThenBind,
        PathState::Other => PathAction::Refuse,
        PathState::Inaccessible => PathAction::Refuse,
    }
}

/// The error of a request made before the simulation was started.
pub fn simulation_not_started_error() -> (r: Error)
    ensures
        r.code == ErrorCode::SimulationNotStarted,
{
    to_error(ErrorCode::SimulationNotStarted, "the simulation was not started")
}

} // verus!
