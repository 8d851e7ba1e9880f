use std::sync::mpsc;

use nexosim::mailbox::SendError;
use nexosim::ports::Network;
use nexosim::simulation::{detect_deadlock, ExecutionError, Simulation};
use nexosim::sink::{BlockingEventQueue, EventBuffer, EventSlot};
use nexosim::time::{Duration, MonotonicTime};

fn t0() -> MonotonicTime {
    MonotonicTime::new(1_000, 0).unwrap()
}

fn after(t: MonotonicTime, d: Duration) -> MonotonicTime {
    t.checked_add(d).unwrap()
}

#[test]
fn payload_round_trips_through_identity_model() {
    let mut net: Network<u64> = Network::new();
    let b = net.add_model(4);
    let sink = net.add_model(4);
    let a_out = net.add_output();
    let b_out = net.add_output();
    net.connect(a_out, b);
    net.connect(b_out, sink);
    net.send(a_out, 0xdead_beef).unwrap();
    let m = net.recv(b).unwrap();
    net.send(b_out, m.payload).unwrap();
    assert_eq!(net.recv(sink).map(|m| m.payload), Some(0xdead_beef));
    assert!(net.recv(sink).is_none());
}

#[test]
fn forwarded_message_arrives_after_direct_one() {
    let mut net: Network<u32> = Network::new();
    let b = net.add_model(4);
    let c = net.add_model(4);
    let ab = net.add_output();
    let ac = net.add_output();
    let cb = net.add_output();
    net.connect(ab, b);
    net.connect(ac, c);
    net.connect(cb, b);
    net.send(ab, 1).unwrap();
    net.send(ac, 2).unwrap();
    let forwarded = net.recv(c).unwrap();
    net.send(cb, forwarded.payload + 1).unwrap();
    let first = net.recv(b).unwrap();
    let second = net.recv(b).unwrap();
    assert_eq!((first.payload, second.payload), (1, 3));
    assert!(first.seq < second.seq);
}

#[test]
fn duplicate_connection_is_kept_once() {
    let mut net: Network<u32> = Network::new();
    let b = net.add_model(4);
    let o = net.add_output();
    net.connect(o, b);
    net.connect(o, b);
    net.send(o, 5).unwrap();
    assert_eq!(net.recv(b).map(|m| m.payload), Some(5));
    assert!(net.recv(b).is_none());
}

#[test]
fn full_or_closed_mailbox_refuses_the_whole_send() {
    let mut net: Network<u32> = Network::new();
    let b = net.add_model(1);
    let c = net.add_model(0);
    let o = net.add_output();
    net.connect(o, b);
    net.connect(o, c);
    assert_eq!(net.send(o, 1), Err(SendError::Full));
    assert!(net.recv(b).is_none());
    net.mailboxes[c].close();
    assert_eq!(net.send(o, 1), Err(SendError::Closed));
    let mut mb: nexosim::mailbox::Mailbox<u32> = nexosim::mailbox::Mailbox::new();
    assert_eq!(mb.capacity, 16);
    assert_eq!(mb.try_send(1), Ok(()));
    assert_eq!(mb.try_send(2), Ok(()));
    assert_eq!(mb.recv(), Some(1));
    mb.close();
    assert_eq!(mb.len(), 0);
    assert_eq!(mb.try_send(3), Err(SendError::Closed));
}

/// Multiplier and delay models: M1 and M2 double their input, D1 and D2
/// forward it one second later.
#[derive(Clone, Copy, Debug, PartialEq)]
enum Bench {
    D1Emit(f64),
    D2Emit(f64),
}

fn run_bench(net: &mut Network<f64>, sim: &mut Simulation<Bench>, ids: [usize; 8], second: Duration) {
    let [m1, m2, d1, d2, m1_out, m2_out, d1_out, d2_out] = ids;
    loop {
        for a in sim.drain_current() {
            match a {
                Bench::D1Emit(v) => net.send(d1_out, v).unwrap(),
                Bench::D2Emit(v) => net.send(d2_out, v).unwrap(),
            }
        }
        let mut busy = false;
        for model in [m1, m2, d1, d2] {
            while let Some(msg) = net.recv(model) {
                busy = true;
                let now = sim.time();
                if model == m1 {
                    net.send(m1_out, 2.0 * msg.payload).unwrap();
                } else if model == m2 {
                    net.send(m2_out, 2.0 * msg.payload).unwrap();
                } else if model == d1 {
                    sim.scheduler.schedule(after(now, second), Bench::D1Emit(msg.payload)).unwrap();
                } else {
                    sim.scheduler.schedule(after(now, second), Bench::D2Emit(msg.payload)).unwrap();
                }
            }
        }
        if !busy && sim.scheduler.peek_deadline() != Some(sim.time()) {
            break;
        }
    }
}

#[test]
fn multiplier_and_delays_bench() {
    let mut net: Network<f64> = Network::new();
    let m1 = net.add_model(16);
    let m2 = net.add_model(16);
    let d1 = net.add_model(16);
    let d2 = net.add_model(16);
    let sink = net.add_model(16);
    let input = net.add_output();
    let m1_out = net.add_output();
    let m2_out = net.add_output();
    let d1_out = net.add_output();
    let d2_out = net.add_output();
    net.connect(input, m1);
    net.connect(m1_out, d1);
    net.connect(m1_out, m2);
    net.connect(m2_out, d2);
    net.connect(d1_out, d2);
    net.connect(d2_out, sink);
    let mut sim: Simulation<Bench> = Simulation::new(t0());
    let second = Duration::from_secs(1);

    let ids = [m1, m2, d1, d2, m1_out, m2_out, d1_out, d2_out];

    net.send(input, 21.0).unwrap();
    run_bench(&mut net, &mut sim, ids, second);
    assert!(net.recv(sink).is_none());

    for a in sim.step().unwrap() {
        match a {
            Bench::D1Emit(v) => net.send(d1_out, v).unwrap(),
            Bench::D2Emit(v) => net.send(d2_out, v).unwrap(),
        }
    }
    run_bench(&mut net, &mut sim, ids, second);
    assert_eq!(sim.time(), after(t0(), second));
    assert_eq!(net.recv(sink).map(|m| m.payload), Some(84.0));
    assert!(net.recv(sink).is_none());

    for a in sim.step().unwrap() {
        match a {
            Bench::D1Emit(v) => net.send(d1_out, v).unwrap(),
            Bench::D2Emit(v) => net.send(d2_out, v).unwrap(),
        }
    }
    run_bench(&mut net, &mut sim, ids, second);
    assert_eq!(sim.time(), after(t0(), Duration::from_secs(2)));
    assert_eq!(net.recv(sink).map(|m| m.payload), Some(42.0));
}

#[derive(Clone, Copy, Debug, PartialEq)]
enum Counting {
    PowerOnCounter,
    PowerOnDetector,
    Pulse,
}

#[derive(Clone, Copy, Debug, PartialEq)]
enum Observed {
    ModeOn,
    Count(u64),
}

#[test]
fn counter_and_detector_halt() {
    let queue = BlockingEventQueue::new();
    let writer = queue.writer();
    let mut reader = queue.into_reader();
    let mut sim: Simulation<Counting> = Simulation::new(t0());
    let mut on = false;
    let mut count = 0u64;
    let mut seed = 12_345u64;
    let mut next_interval = move || {
        seed = seed.wrapping_mul(6_364_136_223_846_793_005).wrapping_add(1_442_695_040_888_963_407);
        1 + (seed >> 33) % 99
    };
    sim.scheduler.schedule(after(t0(), Duration::from_millis(1)), Counting::PowerOnCounter).unwrap();
    let mut run = |sim: &mut Simulation<Counting>| -> Result<(), ExecutionError> {
        let actions = sim.step()?;
        for a in actions {
            let now = sim.time();
            match a {
                Counting::PowerOnCounter => {
                    on = true;
                    writer.write(Observed::ModeOn);
                }
                Counting::PowerOnDetector => {
                    sim.scheduler
                        .schedule(after(now, Duration::from_millis(next_interval())), Counting::Pulse)
                        .unwrap();
                }
                Counting::Pulse => {
                    if on {
                        count += 1;
                        writer.write(Observed::Count(count));
                    }
                    sim.scheduler
                        .schedule(after(now, Duration::from_millis(next_interval())), Counting::Pulse)
                        .unwrap();
                }
            }
        }
        Ok(())
    };
    run(&mut sim).unwrap();
    assert_eq!(reader.next(), Some(Observed::ModeOn));
    sim.scheduler.schedule(after(t0(), Duration::from_millis(100)), Counting::PowerOnDetector).unwrap();
    let mut pulses = 0;
    while pulses < 10 {
        run(&mut sim).unwrap();
        if after(t0(), Duration::from_millis(100)).lt(&sim.time()) {
            pulses += 1;
            assert_eq!(reader.next(), Some(Observed::Count(pulses)));
        }
    }
    sim.scheduler.halt();
    let outcome = run(&mut sim);
    assert!(matches!(outcome, Err(ExecutionError::Halted)));
    let as_success = match outcome {
        Err(ExecutionError::Halted) => Ok(()),
        other => other,
    };
    assert!(as_success.is_ok());
}

#[derive(Clone, Copy, Debug, PartialEq)]
enum Listening {
    Listen,
}

#[test]
fn external_listener_forwards_in_order() {
    let (tx, rx) = mpsc::channel::<String>();
    for i in 0..10 {
        tx.send(i.to_string()).unwrap();
    }
    drop(tx);
    let mut sink: EventBuffer<String> = EventBuffer::with_capacity(100);
    let mut sim: Simulation<Listening> = Simulation::new(t0());
    sim.scheduler
        .schedule_periodic(after(t0(), Duration::from_millis(2)), Duration::from_millis(20), Listening::Listen)
        .unwrap();
    for _ in 0..3 {
        for a in sim.step().unwrap() {
            assert_eq!(a, Listening::Listen);
            while let Ok(s) = rx.try_recv() {
                sink.write(s);
            }
        }
    }
    assert_eq!(sim.time(), after(t0(), Duration::from_millis(42)));
    let mut got = Vec::new();
    while let Some(s) = sink.next() {
        got.push(s);
    }
    let expected: Vec<String> = (0..10).map(|i| i.to_string()).collect();
    assert_eq!(got, expected);
}

#[test]
fn deadlock_is_reported_and_sticks() {
    let mut net: Network<u32> = Network::new();
    let a = net.add_model(0);
    let b = net.add_model(0);
    let a_out = net.add_output();
    let b_out = net.add_output();
    net.connect(a_out, b);
    net.connect(b_out, a);
    let blocked = vec![net.send(a_out, 1) == Err(SendError::Full), net.send(b_out, 2) == Err(SendError::Full)];
    let names = vec!["A".to_string(), "B".to_string()];
    assert!(detect_deadlock(&blocked, &names, 1).is_none());
    let found = detect_deadlock(&blocked, &names, 0).unwrap();
    match &found {
        ExecutionError::Deadlock(models) => assert_eq!(models, &names),
        other => panic!("unexpected {:?}", other),
    }
    assert!(detect_deadlock(&vec![false, false], &names, 0).is_none());
    let mut sim: Simulation<u32> = Simulation::new(t0());
    assert!(sim.report(Err(found)).is_err());
    match sim.step() {
        Err(ExecutionError::Deadlock(models)) => assert_eq!(models, vec!["A".to_string(), "B".to_string()]),
        other => panic!("unexpected {:?}", other),
    }
}

#[test]
fn blocking_queue_delivers_written_events() {
    let queue = BlockingEventQueue::new();
    let w1 = queue.writer();
    let w2 = w1.clone();
    let mut reader = queue.into_reader();
    w1.write(1u32);
    w2.write(2u32);
    reader.close();
    w1.write(3u32);
    reader.open();
    w2.write(4u32);
    drop(w1);
    drop(w2);
    assert_eq!(reader.next(), Some(1));
    assert_eq!(reader.next(), Some(2));
    assert_eq!(reader.next(), Some(4));
    assert_eq!(reader.next(), None);
}

#[test]
fn closed_blocking_queue_drops_events() {
    let queue = BlockingEventQueue::new_closed();
    let w = queue.writer();
    let mut reader = queue.into_reader();
    w.write(1u32);
    reader.open();
    w.write(2u32);
    drop(w);
    assert_eq!(reader.next(), Some(2));
    assert_eq!(reader.next(), None);
}

#[test]
fn slot_and_buffer_sinks() {
    let mut slot: EventSlot<u32> = EventSlot::new();
    slot.write(1);
    slot.write(2);
    assert_eq!(slot.take(), Some(2));
    assert_eq!(slot.take(), None);
    slot.close();
    slot.write(3);
    assert_eq!(slot.take(), None);
    slot.open();
    slot.write(4);
    assert_eq!(slot.take(), Some(4));
    let mut buf: EventBuffer<u32> = EventBuffer::with_capacity(2);
    buf.write(1);
    buf.write(2);
    buf.write(3);
    assert_eq!(buf.next(), Some(1));
    assert_eq!(buf.next(), Some(2));
    assert_eq!(buf.next(), None);
    buf.close();
    buf.write(5);
    assert_eq!(buf.next(), None);
    buf.open();
    buf.write(6);
    assert_eq!(buf.next(), Some(6));
}
