//! One thread's hold on a bounded queue that it shares with another thread.
//!
//! What one call finds in the queue is not determined by the calls before: the other thread works on it at
//! the same time. What a thread knows for certain is what it has offered and what it was answered. A
//! [`Port`] names that record; it grows with the calls to the queue, and by nothing else.
use vstd::prelude::*;
use std::sync::Arc;

verus! {

/// Entries that a queue may be made for.
pub const PORT_CAP: usize = 64;

/// A bounded queue that several threads share.
#[verifier::external_type_specification]
#[verifier::external_body]
#[verifier::reject_recursive_types(T)]
pub struct ExArrayQueue<T>(crossbeam_queue::ArrayQueue<T>);

/// `crossbeam_queue::ArrayQueue::new`: an empty queue, and the number of entries that it holds at most,
/// which is the one that it was made for. The call panics on a capacity of zero, and on one that memory
/// cannot hold; the capacities of this library are small.
#[verifier::external_body]
fn new_queue<T>(capacity: usize) -> (made: (crossbeam_queue::ArrayQueue<T>, Ghost<nat>))
    requires
        0 < capacity <= PORT_CAP,
    ensures
        made.1@ == capacity,
{
    (crossbeam_queue::ArrayQueue::new(capacity), Ghost(capacity as nat))
}

/// What passed through a [`Port`].
pub struct PortLog<M> {
    /// Every value that was offered, and whether the queue took it.
    pub offered: Seq<(M, bool)>,
    /// The answer to every request for a value.
    pub answered: Seq<Option<M>>,
}

/// One thread's hold on a queue that it shares with another.
#[verifier::reject_recursive_types(M)]
pub struct Port<M> {
    queue: Arc<crossbeam_queue::ArrayQueue<M>>,
    entries: Ghost<nat>,
    log: Ghost<PortLog<M>>,
}

impl<M> Port<M> {
    /// The queue that this is a hold on.
    pub closed spec fn queue(&self) -> crossbeam_queue::ArrayQueue<M> {
        *self.queue
    }

    /// The number of entries that the queue holds at most.
    pub closed spec fn capacity(&self) -> nat {
        self.entries@
    }

    /// Every value that was offered here, and whether the queue took it.
    pub closed spec fn offered(&self) -> Seq<(M, bool)> {
        self.log@.offered
    }

    /// The answer to every request that was made here.
    pub closed spec fn answered(&self) -> Seq<Option<M>> {
        self.log@.answered
    }

    /// Nothing has passed yet.
    pub open spec fn fresh(&self) -> bool {
        self.offered() == Seq::<(M, bool)>::empty() && self.answered() == Seq::<Option<M>>::empty()
    }

    /// A new queue.
    pub fn new(capacity: usize) -> (port: Self)
        requires
            0 < capacity <= PORT_CAP,
        ensures
            port.capacity() == capacity,
            port.fresh(),
    {
        let (queue, entries) = new_queue(capacity);
        Port {
            queue: Arc::new(queue),
            entries,
            log: Ghost(PortLog { offered: Seq::empty(), answered: Seq::empty() }),
        }
    }

    /// The same queue, for the other thread.
    pub fn share(&self) -> (port: Self)
        ensures
            port.queue() == self.queue(),
            port.capacity() == self.capacity(),
            port.fresh(),
    {
        Port {
            queue: self.queue.clone(),
            entries: self.entries,
            log: Ghost(PortLog { offered: Seq::empty(), answered: Seq::empty() }),
        }
    }

    /// `crossbeam_queue::ArrayQueue::push`: appends a value, or hands it back where the queue is full.
    /// Whether it is full depends on the other thread. The offer and its outcome are put on record.
    #[verifier::external_body]
    pub(crate) fn offer(&mut self, value: M) -> (refused: Option<M>)
        ensures
            refused matches Some(back) ==> back == value,
            final(self).queue() == old(self).queue(),
            final(self).capacity() == old(self).capacity(),
            final(self).offered() == old(self).offered().push((value, refused is None)),
            final(self).answered() == old(self).answered(),
    {
        self.queue.push(value).err()
    }

    /// `crossbeam_queue::ArrayQueue::force_push`: appends a value, and hands the oldest one back where
    /// the queue was full. Which value that is depends on the other thread, and is left unsaid. The
    /// offer is put on record.
    #[verifier::external_body]
    pub(crate) fn force(&mut self, value: M) -> (displaced: Option<M>)
        ensures
            final(self).queue() == old(self).queue(),
            final(self).capacity() == old(self).capacity(),
            final(self).offered() == old(self).offered().push((value, true)),
            final(self).answered() == old(self).answered(),
    {
        self.queue.force_push(value)
    }

    /// `crossbeam_queue::ArrayQueue::pop`: takes the oldest value, if there is one. Which value that is
    /// depends on the other thread. The answer is put on record.
    #[verifier::external_body]
    pub(crate) fn take(&mut self) -> (oldest: Option<M>)
        ensures
            final(self).queue() == old(self).queue(),
            final(self).capacity() == old(self).capacity(),
            final(self).offered() == old(self).offered(),
            final(self).answered() == old(self).answered().push(oldest),
    {
        self.queue.pop()
    }
}

} // verus!
