//! Port channels: bounded multi-producer/single-consumer FIFO conduits of
//! byte frames between colocated nodes. Sending suspends when the queue is
//! full, receiving suspends when it is empty; the error cases mirror a peer
//! endpoint going away. Suspension is modelled by the `Full` and `Empty`
//! results: the execution layer retries at its next scheduling point.

use vstd::prelude::*;

verus! {

/// One message on a channel: an opaque payload and an optional timestamp.
#[derive(Debug)]
pub struct Frame {
    pub payload: Vec<u8>,
    pub timestamp: Option<u64>,
}

#[derive(Clone, Copy, Debug, PartialEq, Eq, Structural)]
pub enum SendError {
    /// The queue is full; the sender suspends and retries.
    Full,
    /// The receiver is gone; the send fails for good.
    Closed,
}

#[derive(Clone, Copy, Debug, PartialEq, Eq, Structural)]
pub enum RecvError {
    /// No frame is queued; the receiver suspends and retries.
    Empty,
    /// The last sender is gone and the queue is drained.
    Closed,
}

/// A bounded FIFO of frames.
pub struct PortChannel {
    pub capacity: usize,
    pub queue: Vec<Frame>,
    pub senders: usize,
    pub receiver_attached: bool,
}

impl PortChannel {
    pub open spec fn wf(self) -> bool {
        &&& self.capacity >= 1
        &&& self.queue@.len() <= self.capacity
    }

    pub fn new(capacity: usize, senders: usize) -> (c: PortChannel)
        requires
            capacity >= 1,
        ensures
            c.wf(),
            c.capacity == capacity,
            c.senders == senders,
            c.receiver_attached,
            c.queue@.len() == 0,
    {
        PortChannel { capacity, queue: Vec::new(), senders, receiver_attached: true }
    }

    /// Enqueues one frame. Succeeds exactly when the receiver is still
    /// attached and the queue has room; frames leave in the order they
    /// entered.
    pub fn try_send(&mut self, f: Frame) -> (r: Result<(), SendError>)
        requires
            old(self).wf(),
        ensures
            final(self).wf(),
            final(self).capacity == old(self).capacity,
            final(self).senders == old(self).senders,
            final(self).receiver_attached == old(self).receiver_attached,
            !old(self).receiver_attached ==> (r matches Err(e) && e == SendError::Closed)
                && final(self).queue@ == old(self).queue@,
            old(self).receiver_attached && old(self).queue@.len() == old(self).capacity ==> (
            r matches Err(e) && e == SendError::Full) && final(self).queue@ == old(self).queue@,
            old(self).receiver_attached && old(self).queue@.len() < old(self).capacity ==> (
            r matches Ok(u) && u == ()) && final(self).queue@ == old(self).queue@.push(f),
    {
        if !self.receiver_attached {
            Err(SendError::Closed)
        } else if self.queue.len() == self.capacity {
            Err(SendError::Full)
        } else {
            self.queue.push(f);
            Ok(())
        }
    }

    /// Dequeues the oldest frame. Fails with `Closed` only when the queue is
    /// drained and every sender has dropped.
    pub fn try_recv(&mut self) -> (r: Result<Frame, RecvError>)
        requires
            old(self).wf(),
        ensures
            final(self).wf(),
            final(self).capacity == old(self).capacity,
            final(self).senders == old(self).senders,
            final(self).receiver_attached == old(self).receiver_attached,
            old(self).queue@.len() > 0 ==> (r matches Ok(f) && f == old(self).queue@[0])
                && final(self).queue@ == old(self).queue@.drop_first(),
            old(self).queue@.len() == 0 && old(self).senders == 0 ==> (r matches Err(e) && e
                == RecvError::Closed) && final(self).queue@ == old(self).queue@,
            old(self).queue@.len() == 0 && old(self).senders > 0 ==> (r matches Err(e) && e
                == RecvError::Empty) && final(self).queue@ == old(self).queue@,
    {
        if self.queue.len() > 0 {
            let f = self.queue.remove(0);
            proof {
                assert(self.queue@ =~= old(self).queue@.drop_first());
            }
            Ok(f)
        } else if self.senders == 0 {
            Err(RecvError::Closed)
        } else {
            Err(RecvError::Empty)
        }
    }

    /// One sender endpoint goes away.
    pub fn drop_sender(&mut self)
        requires
            old(self).senders > 0,
        ensures
            *final(self) == (PortChannel { senders: (old(self).senders - 1) as usize, ..*old(self) }),
    {
        self.senders = self.senders - 1;
    }

    /// The receive side goes away; later sends fail with `Closed`.
    pub fn close_receiver(&mut self)
        ensures
            *final(self) == (PortChannel { receiver_attached: false, ..*old(self) }),
    {
        self.receiver_attached = false;
    }
}

} // verus!
