//! Bounded mailbox: the queue through which every tier is reached.
//!
//! Each tier serves one mailbox of bounded depth. When the mailbox is
//! full the sender is refused and keeps its message — the producer blocks
//! and retries; a message, once accepted, is delivered in order and never
//! dropped.

use vstd::prelude::*;

verus! {

/// A bounded FIFO of typed messages.
pub struct Mailbox<T> {
    queue: Vec<T>,
    capacity: usize,
}

impl<T> Mailbox<T> {
    /// The queued messages, oldest first.
    pub closed spec fn contents(&self) -> Seq<T> {
        self.queue@
    }

    /// The bound the mailbox was created with.
    pub closed spec fn cap(&self) -> usize {
        self.capacity
    }

    /// An empty mailbox of depth `capacity`.
    pub fn with_capacity(capacity: usize) -> (r: Mailbox<T>)
        ensures
            r.contents() == Seq::<T>::empty(),
            r.cap() == capacity,
    {
        Mailbox { queue: Vec::new(), capacity }
    }

    /// Queued message count.
    pub fn len(&self) -> (r: usize)
        ensures
            r == self.contents().len(),
    {
        self.queue.len()
    }

    /// Offers a message. A full mailbox refuses it and hands it back
    /// unchanged — the producer blocks; it is never dropped — and an
    /// accepted message is appended behind the ones already queued.
    pub fn try_send(&mut self, msg: T) -> (r: Result<(), T>)
        ensures
            final(self).cap() == old(self).cap(),
            old(self).contents().len() < old(self).cap() ==> r is Ok && final(self).contents()
                == old(self).contents().push(msg),
            old(self).contents().len() >= old(self).cap() ==> r == Err::<(), T>(msg) && *final(self) == *old(self),
    {
        if self.queue.len() < self.capacity {
            self.queue.push(msg);
            Ok(())
        } else {
            Err(msg)
        }
    }

    /// Takes the oldest message, if any.
    pub fn try_recv(&mut self) -> (r: Option<T>)
        ensures
            final(self).cap() == old(self).cap(),
            old(self).contents().len() == 0 ==> r is None && *final(self) == *old(self),
            old(self).contents().len() > 0 ==> (r matches Some(m) && m == old(self).contents()[0])
                && final(self).contents() == old(self).contents().drop_first(),
    {
        if self.queue.len() > 0 {
            let m = self.queue.remove(0);
            proof {
                assert(self.queue@ =~= old(self).queue@.drop_first());
            }
            Some(m)
        } else {
            None
        }
    }
}

/// Saturation blocks the producer but loses nothing: a refused send keeps
/// the queue exactly as it was and returns the message to its sender,
/// while an accepted send keeps every queued message in order ahead of the
/// new one.
pub proof fn law_mailbox_never_drops<T>(pre: Mailbox<T>, post: Mailbox<T>, msg: T, r: Result<(), T>)
    requires
        pre.contents().len() < pre.cap() ==> r is Ok && post.contents() == pre.contents().push(
            msg,
        ),
        pre.contents().len() >= pre.cap() ==> r == Err::<(), T>(msg) && post == pre,
    ensures
        forall|i: int| 0 <= i < pre.contents().len() ==> post.contents()[i] == pre.contents()[i],
        r is Err ==> post.contents() == pre.contents() && r == Err::<(), T>(msg),
        r is Ok ==> post.contents().last() == msg,
{
}

} // verus!
