//! Event sinks: endpoints that collect the events sent on output ports for
//! the host to read.
use vstd::prelude::*;

use std::sync::atomic::{AtomicBool, Ordering};
use std::sync::mpsc::{Receiver, Sender};
use std::sync::Arc;

verus! {

/// A sink that keeps the last event written to it.
pub struct EventSlot<T> {
    pub slot: Option<T>,
    pub is_open: bool,
}

impl<T> EventSlot<T> {
    /// An open, empty slot.
    pub fn new() -> (r: EventSlot<T>)
        ensures
            r.slot is None,
            r.is_open,
    {
        EventSlot { slot: None, is_open: true }
    }

    /// Stores `event` in place of the previous one, if the slot is open.
    pub fn write(&mut self, event: T)
        ensures
            final(self).is_open == old(self).is_open,
            old(self).is_open ==> final(self).slot == Some(event),
            !old(self).is_open ==> final(self).slot == old(self).slot,
    {
        if self.is_open {
            self.slot = Some(event);
        }
    }

    /// Takes the event held, if any.
    pub fn take(&mut self) -> (r: Option<T>)
        ensures
            r == old(self).slot,
            final(self).slot is None,
            final(self).is_open == old(self).is_open,
    {
        self.slot.take()
    }

    /// Lets events in.
    pub fn open(&mut self)
        ensures
            final(self).is_open,
            final(self).slot == old(self).slot,
    {
        self.is_open = true;
    }

    /// Keeps events out.
    pub fn close(&mut self)
        ensures
            !final(self).is_open,
            final(self).slot == old(self).slot,
    {
        self.is_open = false;
    }
}

/// A sink that keeps events first in, first out, up to a capacity; an event
/// that finds the buffer full is dropped.
pub struct EventBuffer<T> {
    pub buffer: Vec<T>,
    pub capacity: usize,
    pub is_open: bool,
}

impl<T> View for EventBuffer<T> {
    type V = Seq<T>;

    open spec fn view(&self) -> Seq<T> {
        self.buffer@
    }
}

impl<T> EventBuffer<T> {
    /// An open, empty buffer holding up to `capacity` events.
    pub fn with_capacity(capacity: usize) -> (r: EventBuffer<T>)
        ensures
            r@.len() == 0,
            r.capacity == capacity,
            r.is_open,
    {
        EventBuffer { buffer: Vec::new(), capacity, is_open: true }
    }

    /// Appends `event` if the buffer is open and not full.
    pub fn write(&mut self, event: T)
        ensures
            final(self).capacity == old(self).capacity,
            final(self).is_open == old(self).is_open,
            old(self).is_open && old(self)@.len() < old(self).capacity ==> final(self)@ == old(self)@.push(event),
            !(old(self).is_open && old(self)@.len() < old(self).capacity) ==> final(self)@ == old(self)@,
    {
        if self.is_open && self.buffer.len() < self.capacity {
            self.buffer.push(event);
        }
    }

    /// Takes the oldest event, if any.
    pub fn next(&mut self) -> (r: Option<T>)
        ensures
            final(self).capacity == old(self).capacity,
            final(self).is_open == old(self).is_open,
            old(self)@.len() == 0 ==> r is None && final(self)@ == old(self)@,
            old(self)@.len() > 0 ==> r == Some(old(self)@[0]) && final(self)@ == old(self)@.drop_first(),
    {
        if self.buffer.len() == 0 {
            None
        } else {
            let e = self.buffer.remove(0);
            proof {
                assert(self@ =~= old(self)@.drop_first());
            }
            Some(e)
        }
    }

    /// Lets events in.
    pub fn open(&mut self)
        ensures
            final(self).is_open,
            final(self)@ == old(self)@,
            final(self).capacity == old(self).capacity,
    {
        self.is_open = true;
    }

    /// Keeps events out.
    pub fn close(&mut self)
        ensures
            !final(self).is_open,
            final(self)@ == old(self)@,
            final(self).capacity == old(self).capacity,
    {
        self.is_open = false;
    }
}

/// `std::sync::mpsc::Sender`, carried through opaquely.
#[verifier::external_type_specification]
#[verifier::external_body]
#[verifier::reject_recursive_types(T)]
pub struct ExSender<T>(Sender<T>);

/// `std::sync::mpsc::Receiver`, carried through opaquely.
#[verifier::external_type_specification]
#[verifier::external_body]
#[verifier::reject_recursive_types(T)]
pub struct ExReceiver<T>(Receiver<T>);

/// Relies on `std::sync::mpsc::channel`: a sender and a receiver joined by an
/// unbounded queue.
#[verifier::external_body]
fn new_channel<T>() -> (Sender<T>, Receiver<T>) {
    std::sync::mpsc::channel()
}

/// Relies on `Sender::clone`: one more sender on the same queue.
#[verifier::external_body]
fn clone_sender<T>(sender: &Sender<T>) -> Sender<T> {
    sender.clone()
}

/// Relies on `Sender::send`: queues `event` unless the receiver is gone, in
/// which case the event is dropped.
#[verifier::external_body]
fn send_event<T>(sender: &Sender<T>, event: T) {
    let _ = sender.send(event);
}

/// Relies on `Receiver::recv`: blocks until an event comes, or returns `None`
/// once every sender is gone and the queue is empty.
#[verifier::external_body]
fn recv_event<T>(receiver: &Receiver<T>) -> Option<T> {
    receiver.recv().ok()
}

/// Relies on `Arc::clone`: one more handle on the same flag.
#[verifier::external_body]
fn share_flag(flag: &Arc<AtomicBool>) -> Arc<AtomicBool> {
    flag.clone()
}

/// A blocking queue of events with no bound on its size.
///
/// Writers are made with `writer`; the reader, made with `into_reader`,
/// blocks on `next` until an event comes, and gets `None` once every writer
/// is gone.
#[verifier::reject_recursive_types(T)]
pub struct BlockingEventQueue<T> {
    is_open: Arc<AtomicBool>,
    sender: Sender<T>,
    receiver: Receiver<T>,
}

impl<T> BlockingEventQueue<T> {
    /// An open queue.
    pub fn new() -> BlockingEventQueue<T> {
        BlockingEventQueue::new_with_state(true)
    }

    /// A closed queue: events written to it are dropped until its reader
    /// opens it.
    pub fn new_closed() -> BlockingEventQueue<T> {
        BlockingEventQueue::new_with_state(false)
    }

    /// The reading end of the queue.
    pub fn into_reader(self) -> BlockingEventQueueReader<T> {
        BlockingEventQueueReader { is_open: self.is_open, receiver: self.receiver }
    }

    /// A queue in the given state.
    fn new_with_state(is_open: bool) -> BlockingEventQueue<T> {
        let (sender, receiver) = new_channel();
        BlockingEventQueue { is_open: Arc::new(AtomicBool::new(is_open)), sender, receiver }
    }

    /// A writing end of the queue.
    pub fn writer(&self) -> BlockingEventQueueWriter<T> {
        BlockingEventQueueWriter { is_open: share_flag(&self.is_open), sender: clone_sender(&self.sender) }
    }
}

/// The reading end of a `BlockingEventQueue`.
#[verifier::reject_recursive_types(T)]
pub struct BlockingEventQueueReader<T> {
    is_open: Arc<AtomicBool>,
    receiver: Receiver<T>,
}

impl<T> BlockingEventQueueReader<T> {
    /// The next event, waiting for one if need be; `None` once every writer
    /// is gone and no event is left.
    pub fn next(&mut self) -> Option<T> {
        recv_event(&self.receiver)
    }

    /// Lets events in.
    pub fn open(&mut self) {
        self.is_open.store(true, Ordering::Relaxed);
    }

    /// Keeps events out: writes are dropped until the queue is opened again.
    pub fn close(&mut self) {
        self.is_open.store(false, Ordering::Relaxed);
    }
}

/// A writing end of a `BlockingEventQueue`.
#[verifier::reject_recursive_types(T)]
pub struct BlockingEventQueueWriter<T> {
    is_open: Arc<AtomicBool>,
    sender: Sender<T>,
}

impl<T> BlockingEventQueueWriter<T> {
    /// Queues `event` if the queue is open; otherwise drops it.
    pub fn write(&self, event: T) {
        if !self.is_open.load(Ordering::Relaxed) {
            return;
        }
        send_event(&self.sender, event);
    }
}

impl<T> Clone for BlockingEventQueueWriter<T> {
    /// Another writing end of the same queue.
    fn clone(&self) -> Self {
        BlockingEventQueueWriter { is_open: share_flag(&self.is_open), sender: clone_sender(&self.sender) }
    }
}

} // verus!
