//! Bounded first-in, first-out mailboxes.
use vstd::prelude::*;

verus! {

/// Why a message could not be sent.
#[derive(Clone, Copy, Debug, PartialEq, Eq, Structural)]
pub enum SendError {
    /// The mailbox holds as many messages as its capacity allows; the sender
    /// has to wait.
    Full,
    /// The receiver is gone.
    Closed,
}

/// Default capacity of a mailbox.
pub const DEFAULT_CAPACITY: usize = 16;

/// A bounded queue of messages for one model.
pub struct Mailbox<T> {
    pub buffer: Vec<T>,
    pub capacity: usize,
    pub closed: bool,
}

impl<T> View for Mailbox<T> {
    type V = Seq<T>;

    open spec fn view(&self) -> Seq<T> {
        self.buffer@
    }
}

impl<T> Mailbox<T> {
    /// An open, empty mailbox that holds up to `capacity` messages.
    pub fn with_capacity(capacity: usize) -> (r: Mailbox<T>)
        ensures
            r@.len() == 0,
            r.capacity == capacity,
            !r.closed,
    {
        Mailbox { buffer: Vec::new(), capacity, closed: false }
    }

    /// An open, empty mailbox of the default capacity.
    pub fn new() -> (r: Mailbox<T>)
        ensures
            r@.len() == 0,
            r.capacity == DEFAULT_CAPACITY,
            !r.closed,
    {
        Mailbox::with_capacity(DEFAULT_CAPACITY)
    }

    /// Number of messages waiting.
    pub fn len(&self) -> (r: usize)
        ensures
            r == self@.len(),
    {
        self.buffer.len()
    }

    /// Whether no more messages fit.
    pub fn is_full(&self) -> (r: bool)
        ensures
            r == (self@.len() >= self.capacity),
    {
        self.buffer.len() >= self.capacity
    }

    /// Appends `msg`, unless the mailbox is closed or full.
    pub fn try_send(&mut self, msg: T) -> (r: Result<(), SendError>)
        ensures
            final(self).capacity == old(self).capacity,
            final(self).closed == old(self).closed,
            old(self).closed ==> r == Err::<(), _>(SendError::Closed) && final(self)@ == old(self)@,
            !old(self).closed && old(self)@.len() >= old(self).capacity ==> r == Err::<(), _>(SendError::Full)
                && final(self)@ == old(self)@,
            !old(self).closed && old(self)@.len() < old(self).capacity ==> r is Ok && final(self)@ == old(
                self,
            )@.push(msg),
    {
        if self.closed {
            return Err(SendError::Closed);
        }
        if self.buffer.len() >= self.capacity {
            return Err(SendError::Full);
        }
        self.buffer.push(msg);
        Ok(())
    }

    /// Removes and returns the oldest message.
    pub fn recv(&mut self) -> (r: Option<T>)
        ensures
            final(self).capacity == old(self).capacity,
            final(self).closed == old(self).closed,
            old(self)@.len() == 0 ==> r is None && final(self)@ == old(self)@,
            old(self)@.len() > 0 ==> r == Some(old(self)@[0]) && final(self)@ == old(self)@.drop_first(),
    {
        if self.buffer.len() == 0 {
            None
        } else {
            let m = self.buffer.remove(0);
            proof {
                assert(self@ =~= old(self)@.drop_first());
            }
            Some(m)
        }
    }

    /// Closes the mailbox: pending messages are dropped and later sends fail.
    pub fn close(&mut self)
        ensures
            final(self).closed,
            final(self)@.len() == 0,
            final(self).capacity == old(self).capacity,
    {
        self.closed = true;
        self.buffer.clear();
    }
}

} // verus!
