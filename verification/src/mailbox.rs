//! The bounded, ordered mailbox feeding one actor.  Messages are delivered
//! strictly first-in first-out; the capacity is fixed, and a sender that
//! finds the mailbox full is handed its message back so it can wait for a
//! slot — the message is never dropped and never an error.

use vstd::prelude::*;

verus! {

/// How many messages one application's mailbox may hold at once.  The
/// bound keeps per-application memory fixed and surfaces slowness as
/// sender-visible latency rather than data loss.
pub const MAILBOX_CAPACITY: usize = 8;

/// What an enqueue attempt came to: accepted, or the mailbox was full and
/// the unchanged message goes back to the sender, who must wait for a free
/// slot and try again.
#[derive(Debug, PartialEq, Eq)]
pub enum EnqueueOutcome<T> {
    Accepted,
    MustWait(T),
}

/// The bounded message queue of one actor.
pub struct Mailbox<T> {
    queue: Vec<T>,
}

impl<T> Mailbox<T> {
    /// The pending messages, oldest first.
    pub closed spec fn view(&self) -> Seq<T> {
        self.queue@
    }

    /// The capacity bound always holds.
    pub open spec fn inv(&self) -> bool {
        self.view().len() <= MAILBOX_CAPACITY
    }

    /// A fresh, empty mailbox.
    pub fn new() -> (r: Self)
        ensures
            r.view() == Seq::<T>::empty(),
            r.inv(),
    {
        let r = Mailbox { queue: Vec::new() };
        proof {
            assert(r.view() =~= Seq::<T>::empty());
        }
        r
    }

    /// How many messages are pending.
    pub fn len(&self) -> (r: usize)
        ensures
            r == self.view().len(),
    {
        self.queue.len()
    }

    /// Attempts to enqueue a message.  Below capacity the message is
    /// appended behind all pending ones; at capacity the mailbox is left
    /// exactly as it was and the message itself comes back, to be retried
    /// once a slot frees.
    pub fn try_enqueue(&mut self, m: T) -> (r: EnqueueOutcome<T>)
        requires
            old(self).inv(),
        ensures
            final(self).inv(),
            old(self).view().len() < MAILBOX_CAPACITY ==> {
                &&& final(self).view() == old(self).view().push(m)
                &&& r is Accepted
            },
            old(self).view().len() >= MAILBOX_CAPACITY ==> {
                &&& final(self).view() == old(self).view()
                &&& r == EnqueueOutcome::MustWait(m)
            },
    {
        if self.queue.len() < MAILBOX_CAPACITY {
            self.queue.push(m);
            EnqueueOutcome::Accepted
        } else {
            EnqueueOutcome::MustWait(m)
        }
    }

    /// Takes the oldest pending message, if any: delivery is strictly
    /// first-in first-out.
    pub fn dequeue(&mut self) -> (r: Option<T>)
        requires
            old(self).inv(),
        ensures
            final(self).inv(),
            old(self).view().len() == 0 ==> {
                &&& r is None
                &&& final(self).view() == old(self).view()
            },
            old(self).view().len() > 0 ==> {
                &&& r == Some(old(self).view()[0])
                &&& final(self).view() == old(self).view().skip(1)
            },
    {
        if self.queue.len() == 0 {
            None
        } else {
            let m = self.queue.remove(0);
            proof {
                assert(self.queue@ =~= old(self).queue@.skip(1));
            }
            Some(m)
        }
    }
}

} // verus!
