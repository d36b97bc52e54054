//! The message-passing substrate of the node's workers.
//!
//! Every worker owns one inbound channel, its "message box"; other
//! workers obtain a handle to it and send into it. Delivery is first in,
//! first out per box: a receiver observes the messages of one box in
//! exactly the order they were sent into it, with no bound on how many
//! may queue up and no priority between message kinds. The threads the
//! workers run on, and the handing of a box across threads, live at the
//! node's edge; the queueing discipline itself is stated and checked
//! here.

use vstd::prelude::*;

verus! {

/// The inbound channel of one task. Messages sent into it queue up until
/// the owning task takes them, oldest first.
pub struct TaskMessageBox<M> {
    queue: Vec<M>,
}

impl<M> TaskMessageBox<M> {
    /// Everything sent into the box and not yet taken, oldest first.
    pub closed spec fn pending(&self) -> Seq<M> {
        self.queue@
    }

    pub fn new() -> (r: TaskMessageBox<M>)
        ensures
            r.pending() == Seq::<M>::empty(),
    {
        TaskMessageBox { queue: Vec::new() }
    }

    /// How many messages are waiting.
    pub fn len(&self) -> (r: usize)
        ensures
            r == self.pending().len(),
    {
        self.queue.len()
    }

    /// Send a message into the box: it queues behind everything already
    /// pending, whoever sent it.
    pub fn send(&mut self, m: M)
        ensures
            final(self).pending() == old(self).pending().push(m),
    {
        self.queue.push(m);
    }

    /// The owning task takes the oldest pending message, if any: the box
    /// never reorders what was sent into it.
    pub fn next_message(&mut self) -> (r: Option<M>)
        ensures
            match r {
                Some(m) => old(self).pending().len() > 0 && m == old(self).pending()[0]
                    && final(self).pending() == old(self).pending().drop_first(),
                None => old(self).pending().len() == 0
                    && final(self).pending() == old(self).pending(),
            },
    {
        if self.queue.len() == 0 {
            None
        } else {
            let m = self.queue.remove(0);
            proof {
                assert(self.queue@ =~= old(self).pending().drop_first());
            }
            Some(m)
        }
    }
}

} // verus!
